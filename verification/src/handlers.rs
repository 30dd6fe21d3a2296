//! The operations of the service.

pub mod auth;
pub mod category;
pub mod site;
pub mod upload;
pub mod user;
