//! The account of the user: showing it, changing it, changing its password.

use crate::crypto::{bcrypt_verdict, hash_password, verify_password, HASH_COST};
use crate::errors::{ErrorView, ServiceError};
use crate::models::user::User as UserModel;
use crate::request::user::{UpdatePassword, UpdateUser};
use crate::response;
use crate::store::{distinct_usernames, has_user, Store};
use crate::text::owned;
use crate::utils::{icon_url, served_at};
use vstd::prelude::*;

verus! {

/// `shown` is the account `row` as its owner sees it: without the password,
/// and with the avatar, where there is one, as the URL it is served under.
pub open spec fn shows_user(
    shown: response::user::User,
    row: UserModel,
    upload_url: Seq<char>,
) -> bool {
    &&& shown.username@ == row.username@
    &&& shown.nickname@ == row.nickname@
    &&& shown.email@ == row.email@
    &&& match row.avatar {
        Some(avatar) => shown.avatar matches Some(url) && url@ == served_at(avatar@, upload_url),
        None => shown.avatar is None,
    }
}

/// What [`get_user`] answers.
pub open spec fn get_user_post(
    db: Store,
    username: Seq<char>,
    upload_url: Seq<char>,
    r: Result<response::user::User, ServiceError>,
) -> bool {
    &&& match r {
        Ok(shown) => exists|i: int|
            0 <= i < db.users@.len() && (#[trigger] db.users@[i]).username@ == username
                && shows_user(shown, db.users@[i], upload_url),
        Err(e) => !has_user(db.users@, username) && e@ == ErrorView::Unauthorized,
    }
}

/// Shows the account with this user name. Fails with `Unauthorized` when
/// there is none.
pub fn get_user(username: &str, upload_url: &str, db: &Store) -> (r: Result<
    response::user::User,
    ServiceError,
>)
    ensures
        get_user_post(*db, username@, upload_url@, r),
{
    let i = match db.find_user(username) {
        Some(i) => i,
        None => {
            return Err(ServiceError::Unauthorized);
        },
    };
    let user = &db.users[i];
    let avatar = match &user.avatar {
        Some(avatar) => Some(icon_url(avatar.as_str(), upload_url)),
        None => None,
    };
    Ok(
        response::user::User {
            username: user.username.clone(),
            nickname: user.nickname.clone(),
            avatar,
            email: user.email.clone(),
        },
    )
}

/// The value of a field of the account after a partial update: the new text
/// when one is given, else the text that was there.
pub open spec fn replaced_or(current: Seq<char>, change: Option<&str>) -> Seq<char> {
    match change {
        Some(text) => text@,
        None => current,
    }
}

/// `updated` is the account `row` after the partial update `request`.
pub open spec fn is_user_update(
    updated: UserModel,
    row: UserModel,
    request: UpdateUser<'_>,
) -> bool {
    &&& updated.username@ == replaced_or(row.username@, request.username)
    &&& updated.email@ == replaced_or(row.email@, request.email)
    &&& updated.nickname@ == replaced_or(row.nickname@, request.nickname)
    &&& updated.password == row.password
    &&& match request.avatar {
        Some(avatar) => updated.avatar matches Some(text) && text@ == avatar@,
        None => updated.avatar == row.avatar,
    }
}

/// The update gives the account a user name that another account has.
pub open spec fn takes_name(
    users: Seq<UserModel>,
    name: Seq<char>,
    request: UpdateUser<'_>,
) -> bool {
    request.username matches Some(wanted) && wanted@ != name && has_user(users, wanted@)
}

/// What [`update_user`] does to the store and what it answers.
pub open spec fn update_user_post(
    before: Store,
    after: Store,
    name: Seq<char>,
    user: UpdateUser<'_>,
    r: Result<(), ServiceError>,
) -> bool {
    &&& after.wf()
    &&& after.categories == before.categories
    &&& after.sites == before.sites
    &&& after.category_sites == before.category_sites
    &&& after.last_category_id == before.last_category_id
    &&& after.last_site_id == before.last_site_id
    &&& match r {
        Ok(()) => {
            &&& !takes_name(before.users@, name, user)
            &&& exists|i: int, updated: UserModel|
                0 <= i < before.users@.len() && before.users@[i].username@ == name
                    && #[trigger] is_user_update(updated, before.users@[i], user) && after.users@ == before.users@.update(i, updated)
        },
        Err(e) => {
            &&& after.users == before.users
            &&& if !has_user(before.users@, name) {
                e@ == ErrorView::DatabaseError(
                    "no rows returned by a query that expected to return at least one row"@,
                )
            } else {
                takes_name(before.users@, name, user) && e@ == ErrorView::DatabaseError(
                    "Duplicate entry"@,
                )
            }
        },
    }
}

/// Changes the user name, e-mail address, avatar and nickname of an account.
/// A field that is absent stays as it is; a field that is given is taken as
/// it is, empty or not.
///
/// Fails with `DatabaseError` when there is no account of this name, or the
/// new user name is that of another account; a failure changes nothing.
pub fn update_user(name: &str, user: &UpdateUser<'_>, db: &mut Store) -> (r: Result<(), ServiceError>)
    requires
        old(db).wf(),
    ensures
        update_user_post(*old(db), *final(db), name@, *user, r),
{
    let i = match db.find_user(name) {
        Some(i) => i,
        None => {
            return Err(
                ServiceError::DatabaseError(
                    owned("no rows returned by a query that expected to return at least one row"),
                ),
            );
        },
    };
    match user.username {
        Some(wanted) => {
            match db.find_user(wanted) {
                Some(j) => {
                    if j != i {
                        return Err(ServiceError::DatabaseError(owned("Duplicate entry")));
                    }
                },
                None => {},
            }
        },
        None => {},
    }
    let ghost before = db.users@;
    match user.username {
        Some(text) => {
            db.users[i].username = owned(text);
        },
        None => {},
    }
    match user.email {
        Some(text) => {
            db.users[i].email = owned(text);
        },
        None => {},
    }
    match user.avatar {
        Some(text) => {
            db.users[i].avatar = Some(owned(text));
        },
        None => {},
    }
    match user.nickname {
        Some(text) => {
            db.users[i].nickname = owned(text);
        },
        None => {},
    }
    proof {
        let updated = db.users@[i as int];
        assert(db.users@ =~= before.update(i as int, updated));
        assert(is_user_update(updated, before[i as int], *user));
        assert(distinct_usernames(db.users@)) by {
            assert forall|a: int, b: int|
                0 <= a < db.users@.len() && 0 <= b < db.users@.len() && a != b implies (
            #[trigger] db.users@[a]).username@ != (#[trigger] db.users@[b]).username@ by {
                if a != i && b != i {
                    assert(db.users@[a] == before[a] && db.users@[b] == before[b]);
                } else {
                    let other = if a == i { b } else { a };
                    assert(db.users@[other] == before[other]);
                }
            }
        }
    }
    Ok(())
}

/// What [`update_user_password`] does to the store and what it answers.
pub open spec fn update_user_password_post(
    before: Store,
    after: Store,
    name: Seq<char>,
    user: UpdatePassword<'_>,
    r: Result<(), ServiceError>,
) -> bool {
    &&& after.wf()
    &&& after.categories == before.categories
    &&& after.sites == before.sites
    &&& after.category_sites == before.category_sites
    &&& after.last_category_id == before.last_category_id
    &&& after.last_site_id == before.last_site_id
    &&& match r {
        Ok(()) => exists|i: int|
            0 <= i < before.users@.len() && (#[trigger] before.users@[i]).username@ == name
                && bcrypt_verdict(user.password@, before.users@[i].password@) == Some(true)
                && after.users@.len() == before.users@.len() && bcrypt_verdict(
                user.new_password@,
                after.users@[i].password@,
            ) == Some(true) && after.users@ == before.users@.update(
                i,
                UserModel { password: after.users@[i].password, ..before.users@[i] },
            ),
        Err(e) => {
            &&& after.users == before.users
            &&& if !has_user(before.users@, name) {
                e@ == ErrorView::DatabaseError(
                    "no rows returned by a query that expected to return at least one row"@,
                )
            } else {
                exists|i: int|
                    0 <= i < before.users@.len() && (#[trigger] before.users@[i]).username@
                        == name && match bcrypt_verdict(
                        user.password@,
                        before.users@[i].password@,
                    ) {
                        None => e@ == ErrorView::BadRequest("Invalid password"@),
                        Some(false) => e@ == ErrorView::Unauthorized,
                        Some(true) => e@ == ErrorView::InternalServerError,
                    }
            }
        },
    }
}

/// Changes the password of an account to `new_password`, on proof of the
/// current one.
///
/// Fails with `DatabaseError` when there is no account of this name, with
/// `BadRequest` when the stored hash is no hash, with `Unauthorized` when
/// `password` is not the current password, and with `InternalServerError`
/// when no hash of the new password could be made; a failure changes
/// nothing. After success the new password is the one that is accepted.
pub fn update_user_password(name: &str, user: &UpdatePassword<'_>, db: &mut Store) -> (r: Result<
    (),
    ServiceError,
>)
    requires
        old(db).wf(),
    ensures
        update_user_password_post(*old(db), *final(db), name@, *user, r),
{
    let i = match db.find_user(name) {
        Some(i) => i,
        None => {
            return Err(
                ServiceError::DatabaseError(
                    owned("no rows returned by a query that expected to return at least one row"),
                ),
            );
        },
    };
    let valid = match verify_password(user.password, db.users[i].password.as_str()) {
        Ok(valid) => valid,
        Err(_) => {
            return Err(ServiceError::BadRequest(owned("Invalid password")));
        },
    };
    if !valid {
        return Err(ServiceError::Unauthorized);
    }
    let hashed_password = match hash_password(user.new_password, HASH_COST) {
        Ok(hash) => hash,
        Err(_) => {
            return Err(ServiceError::InternalServerError);
        },
    };
    let ghost before = db.users@;
    db.users[i].password = hashed_password;
    proof {
        assert(db.users@ =~= before.update(
            i as int,
            UserModel { password: db.users@[i as int].password, ..before[i as int] },
        ));
    }
    Ok(())
}

} // verus!
