//! A personal start page: accounts, a tree of bookmark categories, and the
//! sites filed under them.
//!
//! The heart of the library is the order of things. Categories form a tree
//! and are ordered among the categories that share their parent; sites are
//! ordered among the sites of their category. [`ordering`] moves one id
//! inside a list, [`scope`] says when the sort orders of a scope are
//! contiguous and which changes keep them so, [`tree`] says what the tree of
//! a flat list of categories is. [`store`] holds the tables in memory,
//! [`handlers`] are the operations on them, and [`routes`] are the endpoints
//! that a server puts in front of the handlers.

pub mod config;
pub mod crypto;
pub mod errors;
pub mod guards;
pub mod handlers;
pub mod lists;
pub mod logger;
pub mod middlewares;
pub mod models;
pub mod ordering;
pub mod query;
pub mod request;
pub mod response;
pub mod routes;
pub mod scope;
pub mod store;
pub mod text;
pub mod tree;
pub mod utils;
