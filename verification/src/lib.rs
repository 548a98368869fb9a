//! Verified core of the Constantinople tools: the rules that plan a
//! deployment, run a validator's finalized-index pipeline, relay
//! transactions, meter paid content and drive load.

pub mod codec;
pub mod deploy;
pub mod keys;
pub mod lex;
pub mod operator;
pub mod ordered;
pub mod random;
pub mod spammer;
pub mod text;
pub mod tx;
pub mod validator;
