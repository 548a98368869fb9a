//! Load on a network: accounts, transfer rounds, batch submission and payment
//! channels.

pub mod accounts;
pub mod channels;
pub mod poll;
pub mod pool;
pub mod ring;
pub mod spam;
pub mod submitter;
