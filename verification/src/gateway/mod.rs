//! The gateway: what it answers to each request, and what it keeps per client.

pub mod builtin;
pub mod handlers;
pub mod http;
pub mod jsonrpc;
pub mod laws;
pub mod lifecycle;
pub mod policy;
pub mod registry;
pub mod session;
pub mod sse;
pub mod tools;
