//! The bodies of the requests on the account.

use vstd::prelude::*;

verus! {

/// A partial update of the profile: an absent field keeps the stored value.
#[derive(Debug)]
pub struct UpdateUser<'r> {
    pub username: Option<&'r str>,
    pub email: Option<&'r str>,
    pub avatar: Option<&'r str>,
    pub nickname: Option<&'r str>,
}

/// A change of password, authorised by the current one.
#[derive(Debug)]
pub struct UpdatePassword<'r> {
    pub password: &'r str,
    pub new_password: &'r str,
}

} // verus!
