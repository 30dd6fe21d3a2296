//! An account: one row of the user table.

use vstd::prelude::*;

verus! {

/// A user as stored. `username` identifies the account; `password` holds the
/// hash of the password, never the password itself.
#[derive(Debug, PartialEq, Eq)]
pub struct User {
    pub username: String,
    pub nickname: String,
    pub password: String,
    pub email: String,
    pub avatar: Option<String>,
}

impl Clone for User {
    fn clone(&self) -> (copy: Self)
        ensures
            copy == *self,
    {
        User {
            username: self.username.clone(),
            nickname: self.nickname.clone(),
            password: self.password.clone(),
            email: self.email.clone(),
            avatar: match &self.avatar {
                Some(a) => Some(a.clone()),
                None => None,
            },
        }
    }
}

} // verus!
