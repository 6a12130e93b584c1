//! A small file-operation RPC protocol and the benchmark driver built on it.
//!
//! `wire`, `fileops` and `frame` hold the byte formats; `dispatch`,
//! `server` and `client` the two ends of a call; `workload`, `bench` and
//! `plan` the benchmark's decisions; `params`, `machine` and `args` what a
//! run is told about itself.
pub mod wire;
pub mod opcode;
pub mod fileops;
pub mod frame;
pub mod dispatch;
pub mod server;
pub mod client;
pub mod workload;
pub mod params;
pub mod machine;
pub mod bench;
pub mod args;
pub mod plan;
