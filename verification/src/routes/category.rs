//! The endpoints on categories.

use crate::config::Config;
use crate::errors::ServiceError;
use crate::guards::jwt::Middleware;
use crate::handlers::category::{
    add_category, add_category_post, delete_category, delete_category_post, get_categories,
    get_categories_flat, get_categories_flat_post, get_categories_post, get_sites_post,
    sort_categories, sort_categories_post, sort_category_sites, sort_category_sites_post,
    update_category, update_category_post,
};
use crate::request::category::{CreateCategory, SortCategory, UpdateCategory};
use crate::response::category::Category;
use crate::response::site::Site;
use crate::response::WithTotal;
use crate::routes::{answer, answered, DEFAULT_PAGE, DEFAULT_SIZE, UNAUTHORIZED};
use crate::store::Store;
use crate::text::owned;
use crate::utils::{standardize_url, stored_as};
use vstd::prelude::*;

verus! {

/// The number that a request names, or the default.
pub open spec fn or_default(given: Option<i64>, default: i64) -> i64 {
    match given {
        Some(value) => value,
        None => default,
    }
}

/// `stored` is the icon of a partial update as it is stored: absent when
/// none is given or no reference can be stored for the URL that is given.
pub open spec fn is_stored_icon(
    stored: Option<&str>,
    given: Option<&str>,
    upload_url: Seq<char>,
) -> bool {
    match given {
        None => stored is None,
        Some(url) => match stored_as(url@, upload_url) {
            Some(reference) => stored matches Some(text) && text@ == reference,
            None => stored is None,
        },
    }
}

/// The icon of a new row as it is stored: the reference for the URL that is
/// given, or the URL itself where no reference can be stored for it.
pub open spec fn new_icon(given: Seq<char>, upload_url: Seq<char>) -> Seq<char> {
    match stored_as(given, upload_url) {
        Some(reference) => reference,
        None => given,
    }
}

/// `stored` is the update `request` with its icon as it is stored.
pub open spec fn is_stored_update(
    stored: UpdateCategory<'_>,
    request: UpdateCategory<'_>,
    upload_url: Seq<char>,
) -> bool {
    &&& stored.name == request.name
    &&& stored.description == request.description
    &&& stored.parent_id == request.parent_id
    &&& is_stored_icon(stored.icon, request.icon, upload_url)
}

/// `stored` is the new category `request` with its icon as it is stored.
pub open spec fn is_stored_category(
    stored: CreateCategory<'_>,
    request: CreateCategory<'_>,
    upload_url: Seq<char>,
) -> bool {
    &&& stored.name == request.name
    &&& stored.description == request.description
    &&& stored.parent_id == request.parent_id
    &&& stored.icon@ == new_icon(request.icon@, upload_url)
}

/// Lists the categories: as a tree, or one by one when `flat` is set. The
/// first page of ten is shown when the request names no page or size.
pub fn all(
    page: Option<i64>,
    size: Option<i64>,
    search: Option<&str>,
    flat: Option<bool>,
    config: &Config,
    db: &Store,
) -> (r: Result<WithTotal<Category>, u16>)
    requires
        db.wf(),
    ensures
        flat == Some(true) ==> exists|outcome: Result<WithTotal<Category>, ServiceError>|
            #[trigger] get_categories_flat_post(
                *db,
                or_default(page, DEFAULT_PAGE),
                or_default(size, DEFAULT_SIZE),
                search,
                config.upload_url@,
                outcome,
            ) && answered(outcome, r),
        flat != Some(true) ==> exists|outcome: Result<WithTotal<Category>, ServiceError>|
            #[trigger] get_categories_post(
                *db,
                or_default(page, DEFAULT_PAGE),
                or_default(size, DEFAULT_SIZE),
                search,
                config.upload_url@,
                outcome,
            ) && answered(outcome, r),
{
    let shown_page = match page {
        Some(page) => page,
        None => DEFAULT_PAGE,
    };
    let shown_size = match size {
        Some(size) => size,
        None => DEFAULT_SIZE,
    };
    assert(shown_page == or_default(page, DEFAULT_PAGE));
    assert(shown_size == or_default(size, DEFAULT_SIZE));
    let outcome = match flat {
        Some(true) => get_categories_flat(
            shown_page,
            shown_size,
            search,
            config.upload_url.as_str(),
            db,
        ),
        _ => get_categories(shown_page, shown_size, search, config.upload_url.as_str(), db),
    };
    answer(outcome)
}

/// Changes a category. The icon of the request is stored as a reference.
pub fn update(
    id: i64,
    category: UpdateCategory<'_>,
    config: &Config,
    db: &mut Store,
    principal: Option<&Middleware>,
) -> (r: Result<(), u16>)
    requires
        old(db).wf(),
    ensures
        final(db).wf(),
        match principal {
            None => r == Err::<(), u16>(UNAUTHORIZED) && *final(db) == *old(db),
            Some(_) => exists|stored: UpdateCategory<'_>, now: i64, outcome: Result<(), ServiceError>|
                #[trigger] update_category_post(*old(db), *final(db), id, stored, now, outcome)
                    && is_stored_update(stored, category, config.upload_url@) && answered(
                    outcome,
                    r,
                ),
        },
{
    if principal.is_none() {
        return Err(UNAUTHORIZED);
    }
    let icon = match category.icon {
        Some(icon) => standardize_url(icon, config.upload_url.as_str()),
        None => None,
    };
    let stored = UpdateCategory {
        name: category.name,
        description: category.description,
        icon: match &icon {
            Some(reference) => Some(reference.as_str()),
            None => None,
        },
        parent_id: category.parent_id,
    };
    let outcome = update_category(id, &stored, db);
    answer(outcome)
}

/// Creates a category. The icon of the request is stored as a reference.
pub fn add(
    category: CreateCategory<'_>,
    config: &Config,
    db: &mut Store,
    principal: Option<&Middleware>,
) -> (r: Result<(), u16>)
    requires
        old(db).wf(),
    ensures
        final(db).wf(),
        match principal {
            None => r == Err::<(), u16>(UNAUTHORIZED) && *final(db) == *old(db),
            Some(_) => exists|stored: CreateCategory<'_>, now: i64, outcome: Result<(), ServiceError>|
                #[trigger] add_category_post(*old(db), *final(db), stored, now, outcome)
                    && is_stored_category(stored, category, config.upload_url@) && answered(
                    outcome,
                    r,
                ),
        },
{
    if principal.is_none() {
        return Err(UNAUTHORIZED);
    }
    let icon = match standardize_url(category.icon, config.upload_url.as_str()) {
        Some(icon) => icon,
        None => owned(category.icon),
    };
    let stored = CreateCategory {
        name: category.name,
        description: category.description,
        icon: icon.as_str(),
        parent_id: category.parent_id,
    };
    let outcome = add_category(&stored, db);
    answer(outcome)
}

/// Deletes a category.
pub fn delete(id: i64, db: &mut Store, principal: Option<&Middleware>) -> (r: Result<(), u16>)
    requires
        old(db).wf(),
    ensures
        final(db).wf(),
        match principal {
            None => r == Err::<(), u16>(UNAUTHORIZED) && *final(db) == *old(db),
            Some(_) => exists|outcome: Result<(), ServiceError>|
                #[trigger] delete_category_post(*old(db), *final(db), id, outcome) && answered(
                    outcome,
                    r,
                ),
        },
{
    if principal.is_none() {
        return Err(UNAUTHORIZED);
    }
    let outcome = delete_category(id, db);
    answer(outcome)
}

/// Lists the sites of a category.
pub fn get_sites(id: i64, search: Option<&str>, config: &Config, db: &Store) -> (r: Result<
    Vec<Site>,
    u16,
>)
    ensures
        exists|outcome: Result<Vec<Site>, ServiceError>|
            #[trigger] get_sites_post(*db, id, search, config.upload_url@, outcome) && answered(
                outcome,
                r,
            ),
{
    let outcome = crate::handlers::category::get_sites(id, search, config.upload_url.as_str(), db);
    answer(outcome)
}

/// Moves a category among the categories under its parent.
pub fn sort(data: &SortCategory, db: &mut Store, principal: Option<&Middleware>) -> (r: Result<
    (),
    u16,
>)
    requires
        old(db).wf(),
    ensures
        final(db).wf(),
        match principal {
            None => r == Err::<(), u16>(UNAUTHORIZED) && *final(db) == *old(db),
            Some(_) => exists|outcome: Result<(), ServiceError>|
                #[trigger] sort_categories_post(
                    *old(db),
                    *final(db),
                    data.active,
                    data.over,
                    data.parent_id,
                    outcome,
                ) && answered(outcome, r),
        },
{
    if principal.is_none() {
        return Err(UNAUTHORIZED);
    }
    let outcome = sort_categories(data.active, data.over, data.parent_id, db);
    answer(outcome)
}

/// Moves a site among the sites of the category `id`.
pub fn sort_sites(id: i64, data: &SortCategory, db: &mut Store, principal: Option<&Middleware>) -> (r:
    Result<(), u16>)
    requires
        old(db).wf(),
    ensures
        final(db).wf(),
        match principal {
            None => r == Err::<(), u16>(UNAUTHORIZED) && *final(db) == *old(db),
            Some(_) => exists|outcome: Result<(), ServiceError>|
                #[trigger] sort_category_sites_post(
                    *old(db),
                    *final(db),
                    id,
                    data.active,
                    data.over,
                    outcome,
                ) && answered(outcome, r),
        },
{
    if principal.is_none() {
        return Err(UNAUTHORIZED);
    }
    let outcome = sort_category_sites(id, data.active, data.over, db);
    answer(outcome)
}

} // verus!
