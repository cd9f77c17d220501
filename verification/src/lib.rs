//! Supervision engine for a local development environment: dependency-ordered
//! service lifecycles, health monitoring, log fan-out and the control protocol,
//! together with the configuration rules and the parsers for the container and
//! cluster command-line tools.

pub mod box_mgr;
pub mod config;
pub mod error;
pub mod graph;
pub mod health;
pub mod ipc;
pub mod json;
pub mod kube;
pub mod logs;
pub mod process;
pub mod sorting;
pub mod supervisor;
pub mod text;
pub mod watch;
