//! The bearer token of a request, taken as it is.

use crate::text::{after, owned, strip_prefix};
use vstd::prelude::*;

verus! {

/// The token that a request carries.
#[derive(Debug)]
pub struct TokenMiddleware {
    pub token: String,
}

/// Why a request carries no token.
#[derive(Debug, Clone, Copy, PartialEq, Eq, Structural)]
pub enum TokenError {
    MissingToken,
    InvalidToken,
}

impl TokenMiddleware {
    /// Takes the token out of the `Authorization` header.
    ///
    /// Fails with `MissingToken` when there is no header, and with
    /// `InvalidToken` when the header does not begin with `Bearer `.
    pub fn from_header(header: Option<&str>) -> (r: Result<Self, TokenError>)
        ensures
            match r {
                Ok(found) => header matches Some(value) && "Bearer "@.is_prefix_of(value@)
                    && found.token@ == after(value@, "Bearer "@.len()),
                Err(e) => match header {
                    None => e == TokenError::MissingToken,
                    Some(value) => !"Bearer "@.is_prefix_of(value@) && e
                        == TokenError::InvalidToken,
                },
            },
    {
        let value = match header {
            Some(value) => value,
            None => {
                return Err(TokenError::MissingToken);
            },
        };
        match strip_prefix(value, "Bearer ") {
            Some(token) => Ok(Self { token: owned(token) }),
            None => Err(TokenError::InvalidToken),
        }
    }
}

} // verus!
