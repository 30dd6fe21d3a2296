//! The settings of the service.

use crate::text::owned;
use vstd::prelude::*;

verus! {

/// How tokens are signed and how long they live.
#[derive(Debug)]
pub struct Jwt {
    pub secret: String,
    /// The lifetime of a token: a number and a unit, such as `1h`.
    pub expires_in: String,
}

impl Default for Jwt {
    fn default() -> (jwt: Self)
        ensures
            jwt.secret@ == "StartPage"@,
            jwt.expires_in@ == "1h"@,
    {
        Self { secret: owned("StartPage"), expires_in: owned("1h") }
    }
}

/// The settings of the service: token handling, and where uploads are kept
/// and served.
#[derive(Debug)]
pub struct Config {
    pub jwt: Jwt,
    /// The directory that uploaded files are stored in.
    pub upload_dir: String,
    /// The URL prefix under which uploaded files are served.
    pub upload_url: String,
}

impl Default for Config {
    fn default() -> (config: Self)
        ensures
            config.jwt.secret@ == "StartPage"@,
            config.jwt.expires_in@ == "1h"@,
            config.upload_dir@ == Seq::<char>::empty(),
            config.upload_url@ == Seq::<char>::empty(),
    {
        Self { jwt: Jwt::default(), upload_dir: String::new(), upload_url: String::new() }
    }
}

} // verus!
