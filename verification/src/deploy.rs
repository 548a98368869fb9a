//! Generating local and remote deployments: port plans, node configurations,
//! run commands and deployer instances.

pub mod config;
pub mod joining;
pub mod local;
pub mod port_map;
pub mod port_plan;
pub mod ports;
pub mod remote;
