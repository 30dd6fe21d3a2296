//! Letting a request in by its bearer token, by user name.

use crate::guards::jwt::{session_user, user_of, Middleware};
use crate::text::same_text;
use vstd::prelude::*;

pub mod token;

verus! {

/// The principal of a request that was let in: the user that its token names.
#[derive(Debug)]
pub struct JwtMiddleware {
    pub username: String,
}

/// Why a request was turned away.
#[derive(Debug, Clone, Copy, PartialEq, Eq, Structural)]
pub enum JwtError {
    ConfigError,
    CacheError,
    MissingToken,
    InvalidToken,
    ExpiredToken,
}

impl JwtMiddleware {
    /// The user behind a session, where the session key names one.
    pub fn of_session(principal: &Middleware) -> (r: Option<Self>)
        ensures
            match r {
                Some(who) => user_of(principal.session@) == Some(who.username@),
                None => user_of(principal.session@).is_none(),
            },
    {
        match session_user(principal.session.as_str()) {
            Some(username) => Some(JwtMiddleware { username }),
            None => None,
        }
    }

    /// Lets the request in when the token is the one that the cache holds for
    /// the user. `cached` is `None` when the cache could not be asked or
    /// holds nothing for the user.
    ///
    /// Fails with `CacheError` when nothing came from the cache, and with
    /// `InvalidToken` when the cache holds another token.
    pub fn grant(username: String, cached: Option<&str>, token: &str) -> (r: Result<Self, JwtError>)
        ensures
            match r {
                Ok(principal) => cached matches Some(current) && current@ == token@
                    && principal.username == username,
                Err(e) => match cached {
                    None => e == JwtError::CacheError,
                    Some(current) => current@ != token@ && e == JwtError::InvalidToken,
                },
            },
    {
        match cached {
            None => Err(JwtError::CacheError),
            Some(current) => {
                if same_text(current, token) {
                    Ok(JwtMiddleware { username })
                } else {
                    Err(JwtError::InvalidToken)
                }
            },
        }
    }
}

} // verus!
