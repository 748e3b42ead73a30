//! A TCP port forwarder: what it decides and computes.
//!
//! Forwarders listen on local endpoints and hand every connection on to a remote one. This library
//! holds everything that can be told apart from sockets, files and clocks: reading forwarder
//! definitions and merging their sources, the set of running forwarders and how it follows a
//! changed configuration, the listening loop and the way to a remote address, traffic counters,
//! the periodic report and the HTTP stats endpoint. A program around it performs the actions that
//! the state machines here ask for and hands back what came of them.
pub mod bytes;
pub mod cancel;
pub mod config;
pub mod forwarder;
pub mod manager;
pub mod metrics;
pub mod reload;
pub mod report;
pub mod settings;
pub mod sources;
pub mod stats;
pub mod text;
