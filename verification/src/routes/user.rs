//! The endpoints on the account.

use crate::config::Config;
use crate::errors::ServiceError;
use crate::guards::jwt::session_pattern;
use crate::handlers::user::{
    get_user, get_user_post, update_user, update_user_password, update_user_password_post,
    update_user_post,
};
use crate::middlewares::JwtMiddleware;
use crate::request::user::{UpdatePassword, UpdateUser};
use crate::response::user::User;
use crate::routes::category::is_stored_icon;
use crate::routes::{answer, answered, UNAUTHORIZED};
use crate::store::Store;
use crate::text::same_text;
use crate::utils::standardize_url;
use vstd::prelude::*;

verus! {

/// The principal is the user of this name.
pub open spec fn is_self(principal: Option<&JwtMiddleware>, username: Seq<char>) -> bool {
    principal matches Some(who) && who.username@ == username
}

/// `stored` is the update `request` with its avatar as it is stored.
pub open spec fn is_stored_update(
    stored: UpdateUser<'_>,
    request: UpdateUser<'_>,
    upload_url: Seq<char>,
) -> bool {
    &&& stored.username == request.username
    &&& stored.email == request.email
    &&& stored.nickname == request.nickname
    &&& is_stored_icon(stored.avatar, request.avatar, upload_url)
}

/// Shows the account of the principal.
pub fn me(config: &Config, db: &Store, principal: Option<&JwtMiddleware>) -> (r: Result<User, u16>)
    ensures
        match principal {
            None => r == Err::<User, u16>(UNAUTHORIZED),
            Some(who) => exists|outcome: Result<User, ServiceError>|
                #[trigger] get_user_post(*db, who.username@, config.upload_url@, outcome)
                    && answered(outcome, r),
        },
{
    let who = match principal {
        Some(who) => who,
        None => {
            return Err(UNAUTHORIZED);
        },
    };
    let outcome = get_user(who.username.as_str(), config.upload_url.as_str(), db);
    answer(outcome)
}

/// Changes the account `username`. Only the user of that name may do so;
/// the avatar of the request is stored as a reference.
pub fn update(
    username: &str,
    user: UpdateUser<'_>,
    config: &Config,
    db: &mut Store,
    principal: Option<&JwtMiddleware>,
) -> (r: Result<(), u16>)
    requires
        old(db).wf(),
    ensures
        final(db).wf(),
        if is_self(principal, username@) {
            exists|stored: UpdateUser<'_>, outcome: Result<(), ServiceError>|
                #[trigger] update_user_post(*old(db), *final(db), username@, stored, outcome)
                    && is_stored_update(stored, user, config.upload_url@) && answered(outcome, r)
        } else {
            r == Err::<(), u16>(UNAUTHORIZED) && *final(db) == *old(db)
        },
{
    match principal {
        Some(who) => {
            if !same_text(who.username.as_str(), username) {
                return Err(UNAUTHORIZED);
            }
        },
        None => {
            return Err(UNAUTHORIZED);
        },
    }
    let avatar = match user.avatar {
        Some(avatar) => standardize_url(avatar, config.upload_url.as_str()),
        None => None,
    };
    let stored = UpdateUser {
        username: user.username,
        email: user.email,
        avatar: match &avatar {
            Some(reference) => Some(reference.as_str()),
            None => None,
        },
        nickname: user.nickname,
    };
    let outcome = update_user(username, &stored, db);
    answer(outcome)
}

/// Changes the password of the account `username`. Only the user of that
/// name may do so. On success the answer is the pattern of the keys of the
/// sessions of the user: every one of them is to be closed.
pub fn update_password(
    username: &str,
    password: &UpdatePassword<'_>,
    db: &mut Store,
    principal: Option<&JwtMiddleware>,
) -> (r: Result<String, u16>)
    requires
        old(db).wf(),
    ensures
        final(db).wf(),
        if is_self(principal, username@) {
            exists|outcome: Result<(), ServiceError>|
                #[trigger] update_user_password_post(
                    *old(db),
                    *final(db),
                    username@,
                    *password,
                    outcome,
                ) && match outcome {
                    Ok(()) => r matches Ok(pattern) && pattern@ == username@ + ":*"@,
                    Err(e) => r == Err::<String, u16>(crate::errors::status_of(e@) as u16),
                }
        } else {
            r == Err::<String, u16>(UNAUTHORIZED) && *final(db) == *old(db)
        },
{
    match principal {
        Some(who) => {
            if !same_text(who.username.as_str(), username) {
                return Err(UNAUTHORIZED);
            }
        },
        None => {
            return Err(UNAUTHORIZED);
        },
    }
    match update_user_password(username, password, db) {
        Ok(()) => Ok(session_pattern(username)),
        Err(e) => Err(e.status()),
    }
}

} // verus!
