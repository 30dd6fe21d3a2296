//! What a request has to show before a handler runs.

pub mod jwt;
pub mod remote_ip;
