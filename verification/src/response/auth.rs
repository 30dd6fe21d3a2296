//! The answers to login and logout.

use vstd::prelude::*;

verus! {

/// The lifetime, in seconds, of the cookie that carries the token.
pub const COOKIE_MAX_AGE: i64 = 2147483647;

/// A freshly issued bearer token.
#[derive(Debug)]
pub struct JwtToken {
    pub token: String,
}

/// The answer that makes the client forget its token.
#[derive(Debug)]
pub struct Logout;

/// The verdict of the challenge service on a client's answer.
#[derive(Debug)]
pub struct TurnstileResponse {
    pub success: bool,
    pub error_codes: Vec<String>,
    pub challenge_ts: Option<String>,
    pub hostname: Option<String>,
    pub action: Option<String>,
    pub cdata: Option<String>,
}

} // verus!
