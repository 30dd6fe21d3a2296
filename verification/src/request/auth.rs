//! The body of a login request.

use vstd::prelude::*;

verus! {

/// Credentials, with the answer to the challenge where one was posed.
#[derive(Debug)]
pub struct User<'r> {
    pub username: &'r str,
    pub password: &'r str,
    pub token: Option<&'r str>,
}

} // verus!
