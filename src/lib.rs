//! Routing core of a bridge between publish/subscribe broker connections:
//! hierarchical topic matching, fan-out routing to destinations, and the
//! per-message decisions of the listener and emitter stages.
pub mod topic;
pub mod qos;
pub mod router;
pub mod laws;
pub mod config;
pub mod pipeline;
