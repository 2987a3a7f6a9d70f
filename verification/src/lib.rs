//! Linux exec telemetry agent: the shared exec record, the noise filter, the
//! in-memory process tree and the OCSF-shaped events it emits.

pub mod agent;
pub mod deep;
pub mod exec_event;
pub mod filter;
pub mod laws;
pub mod ocsf;
pub mod order;
pub mod text;
pub mod tree;
