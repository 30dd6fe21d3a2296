//! The bodies of the requests that change something.

pub mod auth;
pub mod category;
pub mod site;
pub mod user;
