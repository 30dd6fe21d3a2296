//! The endpoints that open and close a session.

use crate::config::Config;
use crate::errors::ServiceError;
use crate::guards::jwt::Middleware;
use crate::guards::remote_ip::Ip;
use crate::handlers::auth::{login_post, Claims};
use crate::request;
use crate::routes::{answer, answered, UNAUTHORIZED};
use crate::store::Store;
use vstd::prelude::*;

verus! {

/// Logs a user in and answers with the claims of the token of the new
/// session. The address of the client plays no part.
pub fn login(user: &request::auth::User<'_>, config: &Config, remote_ip: &Ip, db: &Store) -> (r: Result<
    Claims,
    u16,
>)
    requires
        db.wf(),
    ensures
        exists|outcome: Result<Claims, ServiceError>|
            #[trigger] login_post(*db, *user, *config, outcome) && answered(outcome, r),
{
    let outcome = crate::handlers::auth::login(user, config, db);
    answer(outcome)
}

/// Closes the session of the principal and answers with the key of the
/// session, which is to leave the cache.
pub fn logout(principal: Option<&Middleware>) -> (r: Result<String, u16>)
    ensures
        match principal {
            None => r == Err::<String, u16>(UNAUTHORIZED),
            Some(who) => r == Ok::<String, u16>(who.session),
        },
{
    match principal {
        Some(who) => Ok(who.session.clone()),
        None => Err(UNAUTHORIZED),
    }
}

} // verus!
