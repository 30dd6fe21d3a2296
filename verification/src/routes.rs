//! The endpoints of the service, from the values of a request to the values
//! of the answer.
//!
//! An endpoint that changes something wants a principal: a request without
//! one is answered with 401 before the store is touched. What a handler
//! refuses is answered with the status code of its error.

use crate::errors::{status_of, ErrorView, ServiceError};
use vstd::prelude::*;

pub mod auth;
pub mod category;
pub mod site;
pub mod upload;
pub mod user;

verus! {

/// The status code that answers a request without a principal.
pub const UNAUTHORIZED: u16 = 401;

/// The page that is shown when the request names none.
pub const DEFAULT_PAGE: i64 = 0;

/// The page size that is used when the request names none.
pub const DEFAULT_SIZE: i64 = 10;

/// `r` is the answer to `outcome`: the same value, or the status code of the
/// error.
pub open spec fn answered<T>(outcome: Result<T, ServiceError>, r: Result<T, u16>) -> bool {
    match outcome {
        Ok(value) => r == Ok::<T, u16>(value),
        Err(e) => r == Err::<T, u16>(status_of(e@) as u16),
    }
}

/// Turns what a handler gives back into what the endpoint answers.
pub fn answer<T>(outcome: Result<T, ServiceError>) -> (r: Result<T, u16>)
    ensures
        answered(outcome, r),
{
    match outcome {
        Ok(value) => Ok(value),
        Err(e) => Err(e.status()),
    }
}

/// A request that is refused for what it asks is answered in the 400s; only
/// a fault of the store or of the service itself is answered with 500.
pub proof fn lemma_status_classes(e: ErrorView)
    ensures
        match e {
            ErrorView::DatabaseError(_) | ErrorView::InternalServerError => status_of(e) == 500,
            _ => 400 <= status_of(e) < 500,
        },
{
}

} // verus!
