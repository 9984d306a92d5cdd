//! The upstream side: one shared connection per running jack, the tools that
//! each of them offers, and the routing of calls.

pub mod events;
pub mod http;
pub mod laws;
pub mod manager;
pub mod stdio;
pub mod wire;

pub use manager::{ClientEvent, JackRuntime, JackStatus, UpstreamManager};
