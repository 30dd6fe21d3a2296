//! The endpoints on sites.

use crate::config::Config;
use crate::errors::ServiceError;
use crate::guards::jwt::Middleware;
use crate::handlers::site::{
    add_site, add_site_post, analytics_post, delete_site, delete_site_post, get_site, get_sites,
    get_sites_post, lists_site, update_site, update_site_post,
};
use crate::request::site::{CreateSite, UpdateSite};
use crate::response::site::{Site, SiteWithCategory};
use crate::response::WithTotal;
use crate::routes::category::{is_stored_icon, new_icon, or_default};
use crate::routes::{answer, answered, DEFAULT_PAGE, DEFAULT_SIZE, UNAUTHORIZED};
use crate::store::{has_site, Store};
use crate::text::owned;
use crate::utils::{icon_url, standardize_url};
use vstd::prelude::*;

verus! {

/// `stored` is the update `request` with its icon as it is stored.
pub open spec fn is_stored_update(
    stored: UpdateSite<'_>,
    request: UpdateSite<'_>,
    upload_url: Seq<char>,
) -> bool {
    &&& stored.name == request.name
    &&& stored.url == request.url
    &&& stored.description == request.description
    &&& stored.category == request.category
    &&& is_stored_icon(stored.icon, request.icon, upload_url)
}

/// `stored` is the new site `request` with its icon as it is stored.
pub open spec fn is_stored_site(
    stored: CreateSite<'_>,
    request: CreateSite<'_>,
    upload_url: Seq<char>,
) -> bool {
    &&& stored.name == request.name
    &&& stored.url == request.url
    &&& stored.description == request.description
    &&& stored.category == request.category
    &&& stored.icon@ == new_icon(request.icon@, upload_url)
}

/// Shows one site, with its icon as the URL it is served under. A site that
/// does not exist is answered with 400.
pub fn get(id: i64, config: &Config, db: &Store) -> (r: Result<Site, u16>)
    ensures
        match r {
            Ok(shown) => exists|i: int|
                0 <= i < db.sites@.len() && (#[trigger] db.sites@[i]).id == id && lists_site(
                    shown,
                    db.sites@[i],
                    config.upload_url@,
                ),
            Err(code) => !has_site(db.sites@, id) && code == 400,
        },
{
    match get_site(id, db) {
        Ok(site) => {
            let icon = icon_url(site.icon.as_str(), config.upload_url.as_str());
            Ok(
                Site {
                    id: site.id,
                    name: site.name,
                    url: site.url,
                    description: site.description,
                    icon,
                    visit_count: site.visit_count,
                },
            )
        },
        Err(e) => Err(e.status()),
    }
}

/// Lists every site with its category. The first page of ten is shown when
/// the request names no page or size.
pub fn all(page: Option<i64>, size: Option<i64>, search: Option<&str>, config: &Config, db: &Store) -> (r:
    Result<WithTotal<SiteWithCategory>, u16>)
    requires
        db.wf(),
    ensures
        exists|outcome: Result<WithTotal<SiteWithCategory>, ServiceError>|
            #[trigger] get_sites_post(
                *db,
                or_default(page, DEFAULT_PAGE),
                or_default(size, DEFAULT_SIZE),
                search,
                config.upload_url@,
                outcome,
            ) && answered(outcome, r),
{
    let shown_page = match page {
        Some(page) => page,
        None => DEFAULT_PAGE,
    };
    let shown_size = match size {
        Some(size) => size,
        None => DEFAULT_SIZE,
    };
    assert(shown_page == or_default(page, DEFAULT_PAGE));
    assert(shown_size == or_default(size, DEFAULT_SIZE));
    let outcome = get_sites(shown_page, shown_size, search, config.upload_url.as_str(), db);
    answer(outcome)
}

/// Creates a site. The icon of the request is stored as a reference.
pub fn add(site: CreateSite<'_>, config: &Config, db: &mut Store, principal: Option<&Middleware>) -> (r:
    Result<(), u16>)
    requires
        old(db).wf(),
    ensures
        final(db).wf(),
        match principal {
            None => r == Err::<(), u16>(UNAUTHORIZED) && *final(db) == *old(db),
            Some(_) => exists|stored: CreateSite<'_>, now: i64, outcome: Result<(), ServiceError>|
                #[trigger] add_site_post(*old(db), *final(db), stored, now, outcome) && is_stored_site(
                    stored,
                    site,
                    config.upload_url@,
                ) && answered(outcome, r),
        },
{
    if principal.is_none() {
        return Err(UNAUTHORIZED);
    }
    let icon = match standardize_url(site.icon, config.upload_url.as_str()) {
        Some(icon) => icon,
        None => owned(site.icon),
    };
    let stored = CreateSite {
        name: site.name,
        url: site.url,
        description: site.description,
        icon: icon.as_str(),
        category: site.category,
    };
    let outcome = add_site(&stored, db);
    answer(outcome)
}

/// Changes a site. The icon of the request is stored as a reference.
pub fn update(
    id: i64,
    site: UpdateSite<'_>,
    config: &Config,
    db: &mut Store,
    principal: Option<&Middleware>,
) -> (r: Result<(), u16>)
    requires
        old(db).wf(),
    ensures
        final(db).wf(),
        match principal {
            None => r == Err::<(), u16>(UNAUTHORIZED) && *final(db) == *old(db),
            Some(_) => exists|stored: UpdateSite<'_>, now: i64, outcome: Result<(), ServiceError>|
                #[trigger] update_site_post(*old(db), *final(db), id, stored, now, outcome)
                    && is_stored_update(stored, site, config.upload_url@) && answered(outcome, r),
        },
{
    if principal.is_none() {
        return Err(UNAUTHORIZED);
    }
    let icon = match site.icon {
        Some(icon) => standardize_url(icon, config.upload_url.as_str()),
        None => None,
    };
    let stored = UpdateSite {
        name: site.name,
        url: site.url,
        description: site.description,
        icon: match &icon {
            Some(reference) => Some(reference.as_str()),
            None => None,
        },
        category: site.category,
    };
    let outcome = update_site(id, &stored, db);
    answer(outcome)
}

/// Deletes a site.
pub fn delete(id: i64, db: &mut Store, principal: Option<&Middleware>) -> (r: Result<(), u16>)
    requires
        old(db).wf(),
    ensures
        final(db).wf(),
        match principal {
            None => r == Err::<(), u16>(UNAUTHORIZED) && *final(db) == *old(db),
            Some(_) => exists|outcome: Result<(), ServiceError>|
                #[trigger] delete_site_post(*old(db), *final(db), id, outcome) && answered(
                    outcome,
                    r,
                ),
        },
{
    if principal.is_none() {
        return Err(UNAUTHORIZED);
    }
    let outcome = delete_site(id, db);
    answer(outcome)
}

/// Counts one visit of a site. Visitors need no principal.
pub fn analytics(id: i64, db: &mut Store) -> (r: Result<(), u16>)
    requires
        old(db).wf(),
    ensures
        final(db).wf(),
        exists|outcome: Result<(), ServiceError>|
            #[trigger] analytics_post(*old(db), *final(db), id, outcome) && answered(outcome, r),
{
    let outcome = crate::handlers::site::analytics(id, db);
    answer(outcome)
}

} // verus!
