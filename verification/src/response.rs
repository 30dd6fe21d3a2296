//! What the service answers.

use vstd::prelude::*;

pub mod auth;
pub mod category;
pub mod site;
pub mod user;

verus! {

/// One page of a listing together with the number of entries that the
/// listing holds over all pages.
#[derive(Debug)]
pub struct WithTotal<T> {
    pub total: i64,
    pub data: Vec<T>,
}

} // verus!
