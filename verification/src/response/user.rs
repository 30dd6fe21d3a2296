//! The profile of an account as it is shown to its owner.

use vstd::prelude::*;

verus! {

/// A user without the password.
#[derive(Debug, PartialEq, Eq)]
pub struct User {
    pub username: String,
    pub nickname: String,
    pub email: String,
    pub avatar: Option<String>,
}

} // verus!
