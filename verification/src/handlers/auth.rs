//! Logging in.
//!
//! A login checks the credentials against the stored hash, opens a session
//! and writes the claims of its token. Signing the token and storing it in
//! the cache is left to the caller.

use crate::config::Config;
use crate::crypto::{bcrypt_verdict, new_session_id, verify_password};
use crate::errors::{ErrorView, ServiceError};
use crate::request;
use crate::response::auth::TurnstileResponse;
use crate::store::Store;
use crate::text::{join3, owned};
use crate::utils::{expires_at, lifetime_of, parse_duration, unix_now};
use vstd::prelude::*;

verus! {

/// What a token says: the session it belongs to, who issued it, and when it
/// expires, in seconds since the epoch.
#[derive(Debug)]
pub struct Claims {
    /// The session, in the form `username:identifier`.
    pub sub: String,
    pub company: String,
    pub exp: usize,
}

/// The account `name` exists and the stored hash is that of `password`.
pub open spec fn is_authentic(
    users: Seq<crate::models::user::User>,
    name: Seq<char>,
    password: Seq<char>,
) -> bool {
    exists|i: int|
        0 <= i < users.len() && (#[trigger] users[i]).username@ == name && bcrypt_verdict(
            password,
            users[i].password@,
        ) == Some(true)
}

/// Checks a user name and password against the accounts and gives back the
/// user name as it is stored.
///
/// Fails with `BadRequest` when there is no such account, the stored hash
/// is no hash, or it is the hash of another password; the message is the
/// same in each case.
pub fn check_credentials(user: &request::auth::User<'_>, db: &Store) -> (r: Result<String, ServiceError>)
    requires
        db.wf(),
    ensures
        match r {
            Ok(name) => is_authentic(db.users@, user.username@, user.password@) && name@
                == user.username@,
            Err(e) => !is_authentic(db.users@, user.username@, user.password@) && e@
                == ErrorView::BadRequest("Invalid username or password"@),
        },
{
    let i = match db.find_user(user.username) {
        Some(i) => i,
        None => {
            return Err(ServiceError::BadRequest(owned("Invalid username or password")));
        },
    };
    let valid = match verify_password(user.password, db.users[i].password.as_str()) {
        Ok(valid) => valid,
        Err(_) => false,
    };
    if valid {
        Ok(db.users[i].username.clone())
    } else {
        Err(ServiceError::BadRequest(owned("Invalid username or password")))
    }
}

/// The moment at which a token issued at `now` with the lifetime told by
/// `expires_in` expires, where the lifetime is valid and the moment can be
/// told in a machine word.
pub open spec fn expiry_of(now: i64, expires_in: Seq<char>) -> Option<int> {
    match lifetime_of(expires_in) {
        Some(seconds) => if 0 <= now + seconds <= i64::MAX && now + seconds <= usize::MAX {
            Some(now + seconds)
        } else {
            None
        },
        None => None,
    }
}

/// Writes the claims of the token of a new session.
///
/// The session is `username:identifier`; the token expires the lifetime
/// `expires_in` after `now`. Fails with `FormatError` when `expires_in`
/// tells no lifetime or the moment of expiry cannot be told.
pub fn issue_claims(username: &str, identifier: &str, now: i64, expires_in: &str) -> (r: Result<
    Claims,
    ServiceError,
>)
    ensures
        match r {
            Ok(claims) => {
                &&& claims.sub@ == username@ + ":"@ + identifier@
                &&& claims.company@ == "StartPage"@
                &&& expiry_of(now, expires_in@) == Some(claims.exp as int)
            },
            Err(e) => expiry_of(now, expires_in@).is_none() && e is FormatError,
        },
{
    let offset = match parse_duration(expires_in) {
        Ok(seconds) => seconds,
        Err(e) => {
            return Err(e);
        },
    };
    let moment = match expires_at(now, offset) {
        Ok(moment) => moment,
        Err(e) => {
            return Err(e);
        },
    };
    if moment < 0 || moment as u64 > usize::MAX as u64 {
        return Err(ServiceError::FormatError(owned("Expires out of range")));
    }
    Ok(
        Claims {
            sub: join3(username, ":", identifier),
            company: owned("StartPage"),
            exp: moment as usize,
        },
    )
}

/// What [`login`] answers.
pub open spec fn login_post(
    db: Store,
    user: request::auth::User<'_>,
    config: Config,
    r: Result<Claims, ServiceError>,
) -> bool {
    &&& match r {
        Ok(claims) => {
            &&& is_authentic(db.users@, user.username@, user.password@)
            &&& (user.username@ + ":"@).is_prefix_of(claims.sub@)
            &&& claims.company@ == "StartPage"@
            &&& lifetime_of(config.jwt.expires_in@) is Some
        },
        Err(e) => if is_authentic(db.users@, user.username@, user.password@) {
            e is FormatError
        } else {
            e@ == ErrorView::BadRequest("Invalid username or password"@)
        },
    }
}

/// Logs a user in: checks the credentials, opens a session with a fresh
/// identifier, and writes the claims of its token.
///
/// Fails with `BadRequest` when the credentials are not those of an
/// account, and with `FormatError` when the configured lifetime of tokens
/// cannot be used. The identifier is random and the clock is read, so of the
/// claims only this is known: the session begins with the user name and a
/// colon, and the lifetime is the configured one.
pub fn login(user: &request::auth::User<'_>, config: &Config, db: &Store) -> (r: Result<
    Claims,
    ServiceError,
>)
    requires
        db.wf(),
    ensures
        login_post(*db, *user, *config, r),
{
    let username = match check_credentials(user, db) {
        Ok(username) => username,
        Err(e) => {
            return Err(e);
        },
    };
    let identifier = new_session_id();
    let now = unix_now();
    let r = issue_claims(username.as_str(), identifier.as_str(), now, config.jwt.expires_in.as_str());
    proof {
        if r is Ok {
            let sub = r->Ok_0.sub@;
            let head = user.username@ + ":"@;
            assert(sub.subrange(0, head.len() as int) =~= head);
        }
    }
    r
}

/// What a login needs before the challenge service can be asked: the answer
/// of the client, and the secret and the address of the service.
///
/// Fails with `BadRequest` when one of them is missing; the answer is looked
/// at first, then the secret, then the address.
pub fn challenge_inputs<'r>(
    token: Option<&'r str>,
    secret: Option<&'r str>,
    url: Option<&'r str>,
) -> (r: Result<(&'r str, &'r str, &'r str), ServiceError>)
    ensures
        match r {
            Ok(found) => token == Some(found.0) && secret == Some(found.1) && url == Some(found.2),
            Err(e) => if token is None {
                e@ == ErrorView::BadRequest("Invalid challenge token"@)
            } else if secret is None {
                e@ == ErrorView::BadRequest("Missing Turnstile secret"@)
            } else {
                url is None && e@ == ErrorView::BadRequest("Missing Turnstile URL"@)
            },
        },
{
    let token = match token {
        Some(token) => token,
        None => {
            return Err(ServiceError::BadRequest(owned("Invalid challenge token")));
        },
    };
    let secret = match secret {
        Some(secret) => secret,
        None => {
            return Err(ServiceError::BadRequest(owned("Missing Turnstile secret")));
        },
    };
    let url = match url {
        Some(url) => url,
        None => {
            return Err(ServiceError::BadRequest(owned("Missing Turnstile URL")));
        },
    };
    Ok((token, secret, url))
}

/// Reads the verdict of the challenge service. Fails with `BadRequest` when
/// the client did not pass.
pub fn challenge_passed(response: &TurnstileResponse) -> (r: Result<(), ServiceError>)
    ensures
        match r {
            Ok(()) => response.success,
            Err(e) => !response.success && e@ == ErrorView::BadRequest("Invalid challenge token"@),
        },
{
    if !response.success {
        return Err(ServiceError::BadRequest(owned("Invalid challenge token")));
    }
    Ok(())
}

} // verus!
