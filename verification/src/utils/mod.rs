//! Helpers that several parts share.

pub mod dpapi;
pub mod request_log;
