//! A validator's finalized-index pipeline, transaction relay and start-up plan.

pub mod budget;
pub mod capture;
pub mod consumer;
pub mod durable;
pub mod leaders;
pub mod payloads;
pub mod recovery;
pub mod relayer;
pub mod run;
pub mod tasks;
