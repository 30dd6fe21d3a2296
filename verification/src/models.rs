//! The rows of the persistent tables.

pub mod category;
pub mod category_site;
pub mod site;
pub mod user;
