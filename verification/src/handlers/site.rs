//! Listing, changing and visiting sites.

use crate::errors::{ErrorView, ServiceError};
use crate::models::category_site::CategorySite;
use crate::models::category::Category;
use crate::models::site::Site;
use crate::query::{found, is_found, page_of, paginate};
use crate::request::site::{CreateSite, UpdateSite};
use crate::response::site::Site as SiteResponse;
use crate::response::site::SiteWithCategory;
use crate::response::WithTotal;
use crate::scope::{
    contiguous, highest, ids_at, ids_listed, is_listing, is_member, is_next, lemma_count_bounds,
    lemma_ids_listed, lemma_join_keeps_contiguous, lemma_listing_of, lemma_next_is_size,
    lemma_numbered_by_is_contiguous, lemma_numbered_by_keeps_others, lemma_push_keeps_contiguous,
    lemma_same_scope, listing, listing_of, numbered_by, positions,
};
use crate::store::{
    distinct_site_ids, has_category, has_site, is_filed, site_ids, site_orders, site_scope,
    with_site_orders, Store,
};
use crate::text::owned;
use crate::lists::{lemma_filter_ends, lemma_filter_keeps, lemma_filter_next};
use crate::utils::{icon_url, keep_or, kept_or, served_at, unix_now};
use vstd::prelude::*;

verus! {

/// The sites filed under `category` have contiguous sort orders.
pub open spec fn sites_contiguous(
    rows: Seq<Site>,
    links: Seq<CategorySite>,
    category: i64,
) -> bool {
    contiguous(site_scope(rows, links, category), site_orders(rows))
}

/// The sort order that a site gets when it joins the sites of `category` at
/// their end.
pub open spec fn is_next_site_order(
    rows: Seq<Site>,
    links: Seq<CategorySite>,
    category: i64,
    order: int,
) -> bool {
    is_next(site_scope(rows, links, category), site_orders(rows), order)
}

/// The associations after every association of `site` has been pointed at
/// `category`.
pub open spec fn refiled(links: Seq<CategorySite>, site: i64, category: i64) -> Seq<CategorySite> {
    Seq::new(
        links.len(),
        |k: int|
            if links[k].site_id == site {
                CategorySite { category_id: category, site_id: site }
            } else {
                links[k]
            },
    )
}

/// The associations that do not concern `site`.
pub open spec fn unfiled(links: Seq<CategorySite>, site: i64) -> Seq<CategorySite> {
    links.filter(|link: CategorySite| link.site_id != site)
}

/// What [`add_site_at`] does to the store at the time `now`, and what it
/// answers.
pub open spec fn add_site_post(
    before: Store,
    after: Store,
    site: CreateSite<'_>,
    now: i64,
    r: Result<(), ServiceError>,
) -> bool {
    &&& after.wf()
    &&& after.categories == before.categories
    &&& after.users == before.users
    &&& after.last_category_id == before.last_category_id
    &&& match r {
        Ok(()) => {
            let row = after.sites@.last();
            &&& has_category(before.categories@, site.category)
            &&& after.sites@.len() == before.sites@.len() + 1
            &&& after.sites@.drop_last() == before.sites@
            &&& after.last_site_id == before.last_site_id + 1
            &&& after.category_sites@ == before.category_sites@.push(
                CategorySite { category_id: site.category, site_id: row.id },
            )
            &&& row.id == after.last_site_id
            &&& row.name@ == site.name@
            &&& row.url@ == site.url@
            &&& row.description@ == site.description@
            &&& row.icon@ == site.icon@
            &&& row.visit_count == 0
            &&& row.created_at == now
            &&& row.updated_at == now
            &&& is_next_site_order(
                before.sites@,
                before.category_sites@,
                site.category,
                row.sort_order as int,
            )
        },
        Err(e) => {
            &&& after.sites == before.sites
            &&& after.category_sites == before.category_sites
            &&& after.last_site_id == before.last_site_id
            &&& if !has_category(before.categories@, site.category) {
                e@ == ErrorView::BadRequest("Category not found"@)
            } else {
                &&& e@ == ErrorView::DatabaseError("Out of range value"@)
                &&& before.last_site_id == i64::MAX || is_next_site_order(
                    before.sites@,
                    before.category_sites@,
                    site.category,
                    i64::MAX + 1,
                )
            }
        },
    }
    &&& forall|category: i64|
        sites_contiguous(before.sites@, before.category_sites@, category)
            ==> #[trigger] sites_contiguous(
            after.sites@,
            after.category_sites@,
            category,
        )
}

/// Creates a site at the end of the sites of its category and files it
/// there, at the time `now` in seconds since the epoch.
///
/// Fails with `BadRequest` when the category does not exist, and with
/// `DatabaseError` when the table has run out of ids or sort orders; a
/// failure changes nothing. A category whose sites have contiguous sort
/// orders keeps them so.
pub fn add_site_at(site: &CreateSite<'_>, now: i64, db: &mut Store) -> (r: Result<(), ServiceError>)
    requires
        old(db).wf(),
    ensures
        add_site_post(*old(db), *final(db), *site, now, r),
{
    if db.find_category(site.category).is_none() {
        return Err(ServiceError::BadRequest(owned("Category not found")));
    }
    let member = db.site_members(site.category);
    let orders = db.site_sort_orders();
    let top = highest(&member, &orders);
    let order: i64 = match top {
        Some(x) => {
            if x == i64::MAX {
                return Err(ServiceError::DatabaseError(owned("Out of range value")));
            }
            x + 1
        },
        None => 0,
    };
    if db.last_site_id == i64::MAX {
        return Err(ServiceError::DatabaseError(owned("Out of range value")));
    }
    let id = db.last_site_id + 1;
    let row = Site {
        id,
        name: owned(site.name),
        url: owned(site.url),
        description: owned(site.description),
        icon: owned(site.icon),
        sort_order: order,
        visit_count: 0,
        created_at: now,
        updated_at: now,
    };
    db.sites.push(row);
    db.category_sites.push(CategorySite { category_id: site.category, site_id: id });
    db.last_site_id = id;
    proof {
        let before = old(db).sites@;
        let links = old(db).category_sites@;
        let after = db.sites@;
        let links2 = db.category_sites@;
        assert(after.drop_last() =~= before);
        assert forall|category: i64, s: i64| s != id implies is_filed(links2, category, s)
            == is_filed(links, category, s) by {
            if is_filed(links2, category, s) {
                let k = choose|k: int|
                    0 <= k < links2.len() && (#[trigger] links2[k]).category_id == category
                        && links2[k].site_id == s;
                assert(links[k] == links2[k]);
            }
            if is_filed(links, category, s) {
                let k = choose|k: int|
                    0 <= k < links.len() && (#[trigger] links[k]).category_id == category
                        && links[k].site_id == s;
                assert(links2[k] == links[k]);
            }
        }
        assert forall|category: i64| is_filed(links2, category, id) == (category
            == site.category) by {
            if is_filed(links2, category, id) {
                let k = choose|k: int|
                    0 <= k < links2.len() && (#[trigger] links2[k]).category_id == category
                        && links2[k].site_id == id;
                if k < links.len() {
                    assert(links[k] == links2[k]);
                }
            }
            if category == site.category {
                assert(links2[links.len() as int].category_id == category);
            }
        }
        assert forall|category: i64|
            sites_contiguous(before, links, category) implies #[trigger] sites_contiguous(
            after,
            links2,
            category,
        ) by {
            let m = site_scope(before, links, category);
            let o = site_orders(before);
            let joins = category == site.category;
            if joins {
                lemma_next_is_size(m, o, top);
            }
            lemma_push_keeps_contiguous(m, o, joins, order);
            assert(site_scope(after, links2, category) =~= m.push(joins));
            assert(site_orders(after) =~= o.push(order));
        }
    }
    Ok(())
}

/// Creates a site at the end of the sites of its category and files it
/// there, now.
///
/// The clock is read once; apart from that this is [`add_site_at`].
pub fn add_site(site: &CreateSite<'_>, db: &mut Store) -> (r: Result<(), ServiceError>)
    requires
        old(db).wf(),
    ensures
        exists|now: i64| #[trigger] add_site_post(*old(db), *final(db), *site, now, r),
{
    let now = unix_now();
    add_site_at(site, now, db)
}

/// The update asks for a category that the site is not filed under.
pub open spec fn moves_site(
    links: Seq<CategorySite>,
    site_id: i64,
    request: UpdateSite<'_>,
) -> bool {
    request.category is Some && !is_filed(links, request.category->0, site_id)
}

/// `updated` is `row` after the texts of the partial update `request` have
/// been applied at the time `now`.
pub open spec fn is_site_update(
    updated: Site,
    row: Site,
    request: UpdateSite<'_>,
    now: i64,
) -> bool {
    &&& updated.id == row.id
    &&& updated.name@ == kept_or(row.name@, request.name)
    &&& updated.url@ == kept_or(row.url@, request.url)
    &&& updated.description@ == kept_or(row.description@, request.description)
    &&& updated.icon@ == kept_or(row.icon@, request.icon)
    &&& updated.visit_count == row.visit_count
    &&& updated.created_at == row.created_at
    &&& updated.updated_at == now
}

/// `after` are the sites `before` with the site in row `i` replaced by
/// `updated`, which is that site after the partial update `request`.
pub open spec fn sites_updated(
    before: Seq<Site>,
    after: Seq<Site>,
    i: int,
    updated: Site,
    request: UpdateSite<'_>,
    now: i64,
) -> bool {
    &&& 0 <= i < before.len()
    &&& is_site_update(updated, before[i], request, now)
    &&& after == before.update(i, updated)
}

/// What [`update_site_at`] does to the store at the time `now`, and what it
/// answers.
pub open spec fn update_site_post(
    before: Store,
    after: Store,
    site_id: i64,
    site: UpdateSite<'_>,
    now: i64,
    r: Result<(), ServiceError>,
) -> bool {
    &&& after.wf()
    &&& after.categories == before.categories
    &&& after.users == before.users
    &&& after.last_category_id == before.last_category_id
    &&& after.last_site_id == before.last_site_id
    &&& !has_site(before.sites@, site_id) ==> {
        &&& r matches Err(e)
        &&& e@ == ErrorView::BadRequest("Site not found"@)
        &&& after.sites == before.sites
        &&& after.category_sites == before.category_sites
    }
    &&& has_site(before.sites@, site_id) ==> exists|i: int, updated: Site|
        before.sites@[i].id == site_id && #[trigger] sites_updated(
            before.sites@,
            after.sites@,
            i,
            updated,
            site,
            now,
        ) && ({
            let moves = moves_site(before.category_sites@, site_id, site);
            let target = site.category->0;
            match r {
                Ok(()) => if moves {
                    &&& has_category(before.categories@, target)
                    &&& is_next_site_order(
                        before.sites@,
                        before.category_sites@,
                        target,
                        updated.sort_order as int,
                    )
                    &&& after.category_sites@ == refiled(
                        before.category_sites@,
                        site_id,
                        target,
                    )
                } else {
                    &&& updated.sort_order == before.sites@[i].sort_order
                    &&& after.category_sites == before.category_sites
                },
                Err(e) => {
                    &&& moves
                    &&& updated.sort_order == before.sites@[i].sort_order
                    &&& after.category_sites == before.category_sites
                    &&& if !has_category(before.categories@, target) {
                        e@ == ErrorView::BadRequest("Category not found"@)
                    } else {
                        &&& e@ == ErrorView::DatabaseError("Out of range value"@)
                        &&& is_next_site_order(
                            before.sites@,
                            before.category_sites@,
                            target,
                            i64::MAX + 1,
                        )
                    }
                },
            }
        })
    &&& forall|category: i64|
        sites_contiguous(before.sites@, before.category_sites@, category) && !is_filed(
            before.category_sites@,
            category,
            site_id,
        ) ==> #[trigger] sites_contiguous(after.sites@, after.category_sites@, category)
}

/// Changes the name, URL, description and icon of a site and files it under
/// another category, at the time `now` in seconds since the epoch.
///
/// A text that is absent or empty leaves the field as it is. A category that
/// is given and that the site is not filed under moves the site to the end
/// of the sites of that category: every association of the site is pointed
/// at it.
///
/// Fails with `BadRequest` when no site has this id, and then changes
/// nothing. The texts are written before the category is looked at: when the
/// site is to move and the category does not exist (`BadRequest`) or has run
/// out of sort orders (`DatabaseError`), the texts have changed and the site
/// stays where it was.
pub fn update_site_at(site_id: i64, site: &UpdateSite<'_>, now: i64, db: &mut Store) -> (r: Result<
    (),
    ServiceError,
>)
    requires
        old(db).wf(),
    ensures
        update_site_post(*old(db), *final(db), site_id, *site, now, r),
{
    let i = match db.find_site(site_id) {
        Some(i) => i,
        None => {
            return Err(ServiceError::BadRequest(owned("Site not found")));
        },
    };
    let ghost before = db.sites@;
    let ghost links = db.category_sites@;
    let name = keep_or(&db.sites[i].name, site.name);
    let url = keep_or(&db.sites[i].url, site.url);
    let description = keep_or(&db.sites[i].description, site.description);
    let icon = keep_or(&db.sites[i].icon, site.icon);
    db.sites[i].name = name;
    db.sites[i].url = url;
    db.sites[i].description = description;
    db.sites[i].icon = icon;
    db.sites[i].updated_at = now;
    let ghost written = db.sites@;
    proof {
        assert(written =~= before.update(i as int, written[i as int]));
        assert(sites_updated(before, written, i as int, written[i as int], *site, now));
        assert forall|category: i64| site_scope(written, links, category) =~= site_scope(
            before,
            links,
            category,
        ) by {}
        assert(site_orders(written) =~= site_orders(before));
    }
    let target = match site.category {
        Some(c) => c,
        None => {
            return Ok(());
        },
    };
    if db.site_filed_under(target, site_id) {
        return Ok(());
    }
    if db.find_category(target).is_none() {
        return Err(ServiceError::BadRequest(owned("Category not found")));
    }
    let member = db.site_members(target);
    let orders = db.site_sort_orders();
    let top = highest(&member, &orders);
    let order: i64 = match top {
        Some(x) => {
            if x == i64::MAX {
                return Err(ServiceError::DatabaseError(owned("Out of range value")));
            }
            x + 1
        },
        None => 0,
    };
    db.sites[i].sort_order = order;
    let mut k: usize = 0;
    while k < db.category_sites.len()
        invariant
            k <= db.category_sites@.len(),
            db.category_sites@.len() == links.len(),
            forall|j: int| 0 <= j < k ==> #[trigger] db.category_sites@[j] == refiled(
                links,
                site_id,
                target,
            )[j],
            forall|j: int| k <= j < links.len() ==> #[trigger] db.category_sites@[j] == links[j],
            db.sites@ == written.update(i as int, Site { sort_order: order, ..written[i as int] }),
            db.categories == old(db).categories,
            db.users == old(db).users,
            db.last_category_id == old(db).last_category_id,
            db.last_site_id == old(db).last_site_id,
        decreases db.category_sites@.len() - k,
    {
        if db.category_sites[k].site_id == site_id {
            db.category_sites[k].category_id = target;
        }
        k += 1;
    }
    proof {
        let after = db.sites@;
        let links2 = db.category_sites@;
        let updated = after[i as int];
        assert(links2 =~= refiled(links, site_id, target));
        assert(after =~= before.update(i as int, updated));
        assert(sites_updated(before, after, i as int, updated, *site, now));
        assert(distinct_site_ids(after));
        assert forall|category: i64, s: i64| s != site_id implies is_filed(links2, category, s)
            == is_filed(links, category, s) by {
            if is_filed(links2, category, s) {
                let j = choose|j: int|
                    0 <= j < links2.len() && (#[trigger] links2[j]).category_id == category
                        && links2[j].site_id == s;
                assert(links[j] == links2[j]);
            }
            if is_filed(links, category, s) {
                let j = choose|j: int|
                    0 <= j < links.len() && (#[trigger] links[j]).category_id == category
                        && links[j].site_id == s;
                assert(links2[j] == links[j]);
            }
        }
        assert forall|category: i64| category != target implies !is_filed(
            links2,
            category,
            site_id,
        ) by {
            if is_filed(links2, category, site_id) {
                let j = choose|j: int|
                    0 <= j < links2.len() && (#[trigger] links2[j]).category_id == category
                        && links2[j].site_id == site_id;
                assert(links2[j] == refiled(links, site_id, target)[j]);
            }
        }
        assert forall|category: i64|
            sites_contiguous(before, links, category) && !is_filed(
                links,
                category,
                site_id,
            ) implies #[trigger] sites_contiguous(after, links2, category) by {
            let m = site_scope(before, links, category);
            let o = site_orders(before);
            let m2 = site_scope(after, links2, category);
            let o2 = site_orders(after);
            assert forall|j: int| 0 <= j < m.len() && j != i implies m2[j] == m[j] by {
                assert(before[j].id != site_id);
            }
            assert(o2 =~= o.update(i as int, order));
            if m2[i as int] {
                assert(category == target);
                lemma_next_is_size(m, o, top);
                lemma_join_keeps_contiguous(m, o, i as int, order);
                assert(m2 =~= m.update(i as int, true));
            } else {
                assert(m2 =~= m);
                lemma_same_scope(m, o, o2);
            }
        }
    }
    Ok(())
}

/// Changes the name, URL, description and icon of a site and files it under
/// another category, now.
///
/// The clock is read once; apart from that this is [`update_site_at`].
pub fn update_site(site_id: i64, site: &UpdateSite<'_>, db: &mut Store) -> (r: Result<
    (),
    ServiceError,
>)
    requires
        old(db).wf(),
    ensures
        exists|now: i64| #[trigger] update_site_post(*old(db), *final(db), site_id, *site, now, r),
{
    let now = unix_now();
    update_site_at(site_id, site, now, db)
}

/// What [`delete_site`] does to the store and what it answers.
pub open spec fn delete_site_post(
    before: Store,
    after: Store,
    id: i64,
    r: Result<(), ServiceError>,
) -> bool {
    &&& after.wf()
    &&& after.categories == before.categories
    &&& after.users == before.users
    &&& after.last_category_id == before.last_category_id
    &&& after.last_site_id == before.last_site_id
    &&& r is Ok
    &&& after.category_sites@ == unfiled(before.category_sites@, id)
    &&& !has_site(after.sites@, id)
    &&& if has_site(before.sites@, id) {
        exists|i: int|
            0 <= i < before.sites@.len() && (#[trigger] before.sites@[i]).id == id && after.sites@ == before.sites@.remove(i)
    } else {
        after.sites == before.sites
    }
}

/// Deletes a site: first every association that files it under a category,
/// then the site itself. Deleting an id that no site has succeeds and leaves
/// the sites as they are.
pub fn delete_site(id: i64, db: &mut Store) -> (r: Result<(), ServiceError>)
    requires
        old(db).wf(),
    ensures
        delete_site_post(*old(db), *final(db), id, r),
{
    let ghost links = db.category_sites@;
    let ghost keep = |link: CategorySite| link.site_id != id;
    let mut kept: Vec<CategorySite> = Vec::new();
    let mut k: usize = 0;
    proof {
        lemma_filter_ends(links, keep);
    }
    while k < db.category_sites.len()
        invariant
            k <= db.category_sites@.len(),
            db.category_sites@ == links,
            keep == |link: CategorySite| link.site_id != id,
            kept@ == links.take(k as int).filter(keep),
        decreases db.category_sites@.len() - k,
    {
        proof {
            lemma_filter_next(links, k as int, keep);
        }
        if db.category_sites[k].site_id != id {
            kept.push(db.category_sites[k]);
        }
        k += 1;
    }
    proof {
        lemma_filter_ends(links, keep);
        lemma_filter_keeps(links, keep);
        assert(kept@ == unfiled(links, id));
        assert forall|j: int| 0 <= j < kept@.len() implies (#[trigger] kept@[j]).site_id
            <= db.last_site_id by {
            assert(links.contains(kept@[j]));
        }
    }
    db.category_sites = kept;
    match db.find_site(id) {
        Some(i) => {
            db.sites.remove(i);
            proof {
                let before = old(db).sites@;
                before.remove_ensures(i as int);
                assert forall|a: int, b: int|
                    0 <= a < db.sites@.len() && 0 <= b < db.sites@.len() && a != b implies (
                #[trigger] db.sites@[a]).id != (#[trigger] db.sites@[b]).id by {
                    let sa = if a < i { a } else { a + 1 };
                    let sb = if b < i { b } else { b + 1 };
                    assert(db.sites@[a] == before[sa] && db.sites@[b] == before[sb]);
                }
                assert forall|a: int| 0 <= a < db.sites@.len() implies (#[trigger] db.sites@[a]).id
                    <= db.last_site_id && db.sites@[a].id != id by {
                    let sa = if a < i { a } else { a + 1 };
                    assert(db.sites@[a] == before[sa]);
                }
            }
        },
        None => {},
    }
    Ok(())
}

/// What [`analytics`] does to the store and what it answers.
pub open spec fn analytics_post(
    before: Store,
    after: Store,
    id: i64,
    r: Result<(), ServiceError>,
) -> bool {
    &&& after.wf()
    &&& after.categories == before.categories
    &&& after.category_sites == before.category_sites
    &&& after.users == before.users
    &&& after.last_category_id == before.last_category_id
    &&& after.last_site_id == before.last_site_id
    &&& match r {
        Ok(()) => exists|i: int|
            0 <= i < before.sites@.len() && (#[trigger] before.sites@[i]).id == id && after.sites@ == before.sites@.update(
                i,
                Site { visit_count: (before.sites@[i].visit_count + 1) as i64, ..before.sites@[i] },
            ) && before.sites@[i].visit_count < i64::MAX,
        Err(e) => {
            &&& after.sites == before.sites
            &&& if !has_site(before.sites@, id) {
                e@ == ErrorView::NotFound
            } else {
                &&& e@ == ErrorView::DatabaseError("Out of range value"@)
                &&& exists|i: int|
                    0 <= i < before.sites@.len() && (#[trigger] before.sites@[i]).id == id
                        && before.sites@[i].visit_count == i64::MAX
            }
        },
    }
}

/// Counts one visit of a site.
///
/// Fails with `NotFound` when no site has this id, and with `DatabaseError`
/// when the counter cannot grow any more; a failure changes nothing.
pub fn analytics(id: i64, db: &mut Store) -> (r: Result<(), ServiceError>)
    requires
        old(db).wf(),
    ensures
        analytics_post(*old(db), *final(db), id, r),
{
    let i = match db.find_site(id) {
        Some(i) => i,
        None => {
            return Err(ServiceError::NotFound);
        },
    };
    if db.sites[i].visit_count == i64::MAX {
        return Err(ServiceError::DatabaseError(owned("Out of range value")));
    }
    let visits = db.sites[i].visit_count + 1;
    db.sites[i].visit_count = visits;
    proof {
        let before = old(db).sites@;
        assert(db.sites@ =~= before.update(
            i as int,
            Site { visit_count: (before[i as int].visit_count + 1) as i64, ..before[i as int] },
        ));
    }
    Ok(())
}

/// `shown` is `row` without its bookkeeping columns.
pub open spec fn shows_site(shown: SiteResponse, row: Site) -> bool {
    &&& shown.id == row.id
    &&& shown.name@ == row.name@
    &&& shown.url@ == row.url@
    &&& shown.description@ == row.description@
    &&& shown.icon@ == row.icon@
    &&& shown.visit_count == row.visit_count
}

/// What [`get_site`] answers.
pub open spec fn get_site_post(db: Store, id: i64, r: Result<SiteResponse, ServiceError>) -> bool {
    &&& match r {
        Ok(shown) => exists|i: int|
            0 <= i < db.sites@.len() && (#[trigger] db.sites@[i]).id == id && shows_site(
                shown,
                db.sites@[i],
            ),
        Err(e) => !has_site(db.sites@, id) && e@ == ErrorView::BadRequest("Site not found"@),
    }
}

/// Looks a site up by its id. Fails with `BadRequest` when no site has it.
pub fn get_site(id: i64, db: &Store) -> (r: Result<SiteResponse, ServiceError>)
    ensures
        get_site_post(*db, id, r),
{
    match db.find_site(id) {
        Some(i) => {
            let record = db.sites[i].clone();
            Ok(
                SiteResponse {
                    id: record.id,
                    name: record.name,
                    url: record.url,
                    description: record.description,
                    icon: record.icon,
                    visit_count: record.visit_count,
                },
            )
        },
        None => Err(ServiceError::BadRequest(owned("Site not found"))),
    }
}

/// The ids of the sites filed under `category`, by ascending sort order.
pub open spec fn site_ids_under(
    rows: Seq<Site>,
    links: Seq<CategorySite>,
    category: i64,
) -> Seq<i64> {
    ids_listed(site_ids(rows), site_scope(rows, links, category), site_orders(rows))
}

/// The sites after the ids of `order` have been numbered by their place in
/// `order`.
pub open spec fn sites_numbered(rows: Seq<Site>, order: Seq<i64>) -> Seq<Site> {
    with_site_orders(rows, numbered_by(site_ids(rows), site_orders(rows), order))
}

/// What is known of the ids of the sites filed under `category`: none
/// repeats, they are the ids of those sites and of no other row, and there
/// are no more of them than rows.
pub proof fn lemma_site_ids_under(
    rows: Seq<Site>,
    links: Seq<CategorySite>,
    category: i64,
    list: Seq<int>,
)
    requires
        distinct_site_ids(rows),
        is_listing(list, site_scope(rows, links, category), site_orders(rows)),
    ensures
        site_ids_under(rows, links, category) == ids_at(site_ids(rows), list),
        site_ids_under(rows, links, category).no_duplicates(),
        site_ids_under(rows, links, category).len() <= rows.len(),
        forall|i: int|
            0 <= i < rows.len() ==> (is_filed(links, category, (#[trigger] rows[i]).id)
                <==> site_ids_under(rows, links, category).contains(rows[i].id)),
        forall|x: i64| site_ids_under(rows, links, category).contains(x) ==> has_site(rows, x),
{
    let ids = site_ids(rows);
    let member = site_scope(rows, links, category);
    let orders = site_orders(rows);
    lemma_listing_of(list, member, orders);
    assert(ids.no_duplicates());
    lemma_ids_listed(ids, member, orders, list);
    lemma_count_bounds(member, member.len() as int);
    let l = site_ids_under(rows, links, category);
    assert forall|i: int| 0 <= i < rows.len() implies (is_filed(
        links,
        category,
        (#[trigger] rows[i]).id,
    ) <==> l.contains(rows[i].id)) by {
        assert(member[i] <==> l.contains(ids[i]));
    }
    assert forall|x: i64| l.contains(x) implies has_site(rows, x) by {
        assert(ids.contains(x));
        let i = choose|i: int| 0 <= i < ids.len() && ids[i] == x;
        assert(rows[i].id == x);
    }
}

/// Numbering the sites of `category` by a list that holds the id of each of
/// them once leaves their sort orders contiguous, and leaves every other
/// site, and every category that shares no site with this one as contiguous
/// as it was.
pub proof fn lemma_sites_numbered(
    rows: Seq<Site>,
    links: Seq<CategorySite>,
    category: i64,
    order: Seq<i64>,
)
    requires
        distinct_site_ids(rows),
        order.no_duplicates(),
        order.len() <= i64::MAX,
        forall|i: int|
            0 <= i < rows.len() ==> (is_filed(links, category, (#[trigger] rows[i]).id)
                <==> order.contains(rows[i].id)),
        forall|x: i64| order.contains(x) ==> has_site(rows, x),
    ensures
        sites_contiguous(sites_numbered(rows, order), links, category),
        site_ids_under(sites_numbered(rows, order), links, category) == order,
        sites_numbered(rows, order).len() == rows.len(),
        forall|i: int|
            0 <= i < rows.len() && !is_filed(links, category, rows[i].id)
                ==> #[trigger] sites_numbered(rows, order)[i] == rows[i],
        forall|i: int|
            0 <= i < rows.len() ==> (#[trigger] sites_numbered(rows, order)[i]).id == rows[i].id,
        forall|other: i64|
            sites_contiguous(rows, links, other) && (forall|i: int|
                0 <= i < rows.len() ==> !(is_filed(links, other, (#[trigger] rows[i]).id)
                    && is_filed(links, category, rows[i].id))) ==> #[trigger] sites_contiguous(
                sites_numbered(rows, order),
                links,
                other,
            ),
{
    let ids = site_ids(rows);
    let member = site_scope(rows, links, category);
    let orders = site_orders(rows);
    let after = sites_numbered(rows, order);
    let renumbered = numbered_by(ids, orders, order);
    assert(ids.no_duplicates());
    assert forall|x: i64| order.contains(x) implies ids.contains(x) by {
        let i = choose|i: int| 0 <= i < rows.len() && (#[trigger] rows[i]).id == x;
        assert(ids[i] == x);
    }
    assert forall|i: int| 0 <= i < ids.len() implies (member[i] <==> order.contains(ids[i])) by {
        assert(is_filed(links, category, rows[i].id) <==> order.contains(rows[i].id));
    }
    lemma_numbered_by_is_contiguous(ids, member, orders, order);
    lemma_numbered_by_keeps_others(ids, orders, order);
    assert(site_scope(after, links, category) =~= member);
    assert(site_orders(after) =~= renumbered);
    assert(site_ids(after) =~= ids);
    assert forall|i: int| 0 <= i < rows.len() && !is_filed(
        links,
        category,
        rows[i].id,
    ) implies #[trigger] after[i] == rows[i] by {
        assert(!order.contains(ids[i]));
    }
    assert forall|other: i64|
        sites_contiguous(rows, links, other) && (forall|i: int|
            0 <= i < rows.len() ==> !(is_filed(links, other, (#[trigger] rows[i]).id) && is_filed(
                links,
                category,
                rows[i].id,
            ))) implies #[trigger] sites_contiguous(after, links, other) by {
        let m = site_scope(rows, links, other);
        assert(site_scope(after, links, other) =~= m);
        assert forall|i: int| #[trigger] is_member(m, i) implies renumbered[i] == orders[i] by {
            assert(is_filed(links, other, rows[i].id));
            assert(!order.contains(ids[i]));
        }
        lemma_same_scope(m, orders, renumbered);
    }
}

/// The sites that a search keeps.
pub open spec fn found_site(search: Option<&str>) -> spec_fn(Site) -> bool {
    |row: Site| is_found(row.name@, row.description@, search)
}

/// The sites of `category` that a search keeps.
pub open spec fn found_under(links: Seq<CategorySite>, category: i64, search: Option<&str>)
    -> spec_fn(Site) -> bool {
    |row: Site| is_filed(links, category, row.id) && is_found(row.name@, row.description@, search)
}

/// The sites at the positions of `list`, in the order of `list`.
pub open spec fn sites_at(rows: Seq<Site>, list: Seq<int>) -> Seq<Site> {
    Seq::new(list.len(), |k: int| rows[list[k]])
}

/// The sites by ascending sort order; sites with the same sort order keep
/// their order.
pub open spec fn by_site_order(rows: Seq<Site>) -> Seq<Site> {
    sites_at(rows, listing_of(Seq::new(rows.len(), |i: int| true), site_orders(rows)))
}

/// `shown` is `row` as a listing shows it: without its bookkeeping columns
/// and with its icon as the URL that it is served under.
pub open spec fn lists_site(shown: SiteResponse, row: Site, upload_url: Seq<char>) -> bool {
    &&& shown.id == row.id
    &&& shown.name@ == row.name@
    &&& shown.url@ == row.url@
    &&& shown.description@ == row.description@
    &&& shown.icon@ == served_at(row.icon@, upload_url)
    &&& shown.visit_count == row.visit_count
}

/// The site with this id, where there is one.
pub open spec fn site_with(rows: Seq<Site>, id: i64) -> Site {
    rows[choose|i: int| 0 <= i < rows.len() && (#[trigger] rows[i]).id == id]
}

/// The category with this id, where there is one.
pub open spec fn category_with(rows: Seq<Category>, id: i64) -> Category {
    rows[choose|i: int| 0 <= i < rows.len() && (#[trigger] rows[i]).id == id]
}

/// The associations that the listing of all sites shows: those whose site
/// and category exist and whose site the search keeps.
pub open spec fn listed_link(sites: Seq<Site>, categories: Seq<Category>, search: Option<&str>)
    -> spec_fn(CategorySite) -> bool {
    |link: CategorySite|
        has_site(sites, link.site_id) && has_category(categories, link.category_id) && is_found(
            site_with(sites, link.site_id).name@,
            site_with(sites, link.site_id).description@,
            search,
        )
}

/// `shown` is the site `site`, filed under `category`, as the listing of all
/// sites shows it.
pub open spec fn lists_site_with_category(
    shown: SiteWithCategory,
    site: Site,
    category: Category,
    upload_url: Seq<char>,
) -> bool {
    &&& shown.id == site.id
    &&& shown.name@ == site.name@
    &&& shown.url@ == site.url@
    &&& shown.description@ == site.description@
    &&& shown.icon@ == served_at(site.icon@, upload_url)
    &&& shown.category@ == category.name@
    &&& shown.visit_count == site.visit_count
}

/// Copies the sites of `category` that the search keeps, in their order.
pub fn search_sites_under(db: &Store, category: i64, search: Option<&str>) -> (kept: Vec<Site>)
    ensures
        kept@ == db.sites@.filter(found_under(db.category_sites@, category, search)),
{
    let ghost pred = found_under(db.category_sites@, category, search);
    let mut kept: Vec<Site> = Vec::new();
    let mut i: usize = 0;
    proof {
        lemma_filter_ends(db.sites@, pred);
    }
    while i < db.sites.len()
        invariant
            i <= db.sites@.len(),
            pred == found_under(db.category_sites@, category, search),
            kept@ == db.sites@.take(i as int).filter(pred),
        decreases db.sites@.len() - i,
    {
        proof {
            lemma_filter_next(db.sites@, i as int, pred);
        }
        if db.site_filed_under(category, db.sites[i].id) && found(
            db.sites[i].name.as_str(),
            db.sites[i].description.as_str(),
            search,
        ) {
            kept.push(db.sites[i].clone());
        }
        i += 1;
    }
    proof {
        lemma_filter_ends(db.sites@, pred);
    }
    kept
}

/// Counts the sites that the search keeps.
pub fn count_sites(rows: &Vec<Site>, search: Option<&str>) -> (n: usize)
    ensures
        n == rows@.filter(found_site(search)).len(),
{
    let mut n: usize = 0;
    let mut i: usize = 0;
    proof {
        lemma_filter_ends(rows@, found_site(search));
    }
    while i < rows.len()
        invariant
            i <= rows@.len(),
            n <= i,
            n == rows@.take(i as int).filter(found_site(search)).len(),
        decreases rows@.len() - i,
    {
        proof {
            lemma_filter_next(rows@, i as int, found_site(search));
        }
        if found(rows[i].name.as_str(), rows[i].description.as_str(), search) {
            n += 1;
        }
        i += 1;
    }
    proof {
        lemma_filter_ends(rows@, found_site(search));
    }
    n
}

/// Copies the sites by ascending sort order; sites with the same sort order
/// keep their order.
pub fn order_sites(rows: &Vec<Site>) -> (sorted: Vec<Site>)
    ensures
        sorted@ == by_site_order(rows@),
{
    let mut member: Vec<bool> = Vec::new();
    let mut orders: Vec<i64> = Vec::new();
    let mut i: usize = 0;
    while i < rows.len()
        invariant
            i <= rows@.len(),
            member@.len() == i,
            orders@.len() == i,
            forall|j: int| 0 <= j < i ==> member@[j],
            forall|j: int| 0 <= j < i ==> orders@[j] == (#[trigger] rows@[j]).sort_order,
        decreases rows@.len() - i,
    {
        member.push(true);
        orders.push(rows[i].sort_order);
        i += 1;
    }
    assert(member@ =~= Seq::new(rows@.len(), |i: int| true));
    assert(orders@ =~= site_orders(rows@));
    let list = listing(&member, &orders);
    let mut sorted: Vec<Site> = Vec::new();
    let mut k: usize = 0;
    while k < list.len()
        invariant
            k <= list@.len(),
            forall|j: int| 0 <= j < list@.len() ==> list@[j] < rows@.len(),
            sorted@.len() == k,
            forall|j: int| 0 <= j < k ==> sorted@[j] == rows@[list@[j] as int],
        decreases list@.len() - k,
    {
        sorted.push(rows[list[k]].clone());
        k += 1;
    }
    assert(sorted@ =~= sites_at(rows@, positions(list@)));
    sorted
}

/// What [`get_sites`] answers.
pub open spec fn get_sites_post(
    db: Store,
    page: i64,
    size: i64,
    search: Option<&str>,
    upload_url: Seq<char>,
    r: Result<WithTotal<SiteWithCategory>, ServiceError>,
) -> bool {
    &&& match r {
        Ok(listing) => {
            let links = page_of(
                db.category_sites@.filter(listed_link(db.sites@, db.categories@, search)),
                page as int,
                size as int,
            );
            &&& page >= 0 && size >= 0
            &&& listing.total == db.sites@.filter(found_site(search)).len()
            &&& listing.data@.len() == links.len()
            &&& forall|k: int|
                0 <= k < links.len() ==> lists_site_with_category(
                    #[trigger] listing.data@[k],
                    site_with(db.sites@, links[k].site_id),
                    category_with(db.categories@, links[k].category_id),
                    upload_url,
                )
        },
        Err(e) => (page < 0 || size < 0) && e@ == ErrorView::BadRequest(
            "Invalid page or size"@,
        ),
    }
}

/// Lists every site with the name of the category it is filed under, a page
/// at a time.
///
/// `total` counts the sites that the search keeps. `data` holds one entry
/// for each association of such a site with an existing category, in the
/// order of the associations, cut to the page; icons are given as the URLs
/// they are served under.
///
/// Fails with `BadRequest` when the page number or the page size is
/// negative.
pub fn get_sites(page: i64, size: i64, search: Option<&str>, upload_url: &str, db: &Store) -> (r:
    Result<WithTotal<SiteWithCategory>, ServiceError>)
    requires
        db.wf(),
    ensures
        get_sites_post(*db, page, size, search, upload_url@, r),
{
    let count = count_sites(&db.sites, search) as i64;
    let ghost pred = listed_link(db.sites@, db.categories@, search);
    let ghost links = db.category_sites@;
    let mut all: Vec<SiteWithCategory> = Vec::new();
    let mut k: usize = 0;
    proof {
        lemma_filter_ends(links, pred);
    }
    while k < db.category_sites.len()
        invariant
            k <= links.len(),
            links == db.category_sites@,
            db.wf(),
            pred == listed_link(db.sites@, db.categories@, search),
            all@.len() == links.take(k as int).filter(pred).len(),
            forall|j: int|
                0 <= j < all@.len() ==> lists_site_with_category(
                    #[trigger] all@[j],
                    site_with(db.sites@, links.take(k as int).filter(pred)[j].site_id),
                    category_with(db.categories@, links.take(k as int).filter(pred)[j].category_id),
                    upload_url@,
                ),
        decreases links.len() - k,
    {
        proof {
            lemma_filter_next(links, k as int, pred);
        }
        let link = db.category_sites[k];
        match (db.find_site(link.site_id), db.find_category(link.category_id)) {
            (Some(s), Some(c)) => {
                let site = &db.sites[s];
                assert(site_with(db.sites@, link.site_id) == *site);
                assert(category_with(db.categories@, link.category_id) == db.categories@[c as int]);
                if found(site.name.as_str(), site.description.as_str(), search) {
                    all.push(
                        SiteWithCategory {
                            id: site.id,
                            name: site.name.clone(),
                            url: site.url.clone(),
                            description: site.description.clone(),
                            icon: icon_url(site.icon.as_str(), upload_url),
                            category: db.categories[c].name.clone(),
                            visit_count: site.visit_count,
                        },
                    );
                }
            },
            _ => {},
        }
        k += 1;
    }
    proof {
        lemma_filter_ends(links, pred);
    }
    match paginate(all, page, size) {
        Ok(data) => Ok(WithTotal { total: count, data }),
        Err(e) => Err(e),
    }
}

/// No site that is still there has lost a visit.
pub open spec fn visits_kept(before: Seq<Site>, after: Seq<Site>) -> bool {
    forall|i: int, j: int|
        0 <= i < before.len() && 0 <= j < after.len() && (#[trigger] before[i]).id == (
        #[trigger] after[j]).id ==> before[i].visit_count <= after[j].visit_count
}

/// Counting a visit adds one visit to the site and takes none from any
/// other.
pub proof fn lemma_analytics_keeps_visits(
    before: Store,
    after: Store,
    id: i64,
    r: Result<(), ServiceError>,
)
    requires
        before.wf(),
        analytics_post(before, after, id, r),
    ensures
        visits_kept(before.sites@, after.sites@),
{
}

/// Changing a site takes no visit from any site.
pub proof fn lemma_update_keeps_visits(
    before: Store,
    after: Store,
    site_id: i64,
    site: UpdateSite<'_>,
    now: i64,
    r: Result<(), ServiceError>,
)
    requires
        before.wf(),
        update_site_post(before, after, site_id, site, now, r),
    ensures
        visits_kept(before.sites@, after.sites@),
{
    if has_site(before.sites@, site_id) {
        let (i, updated) = choose|i: int, updated: Site|
            before.sites@[i].id == site_id && #[trigger] sites_updated(
                before.sites@,
                after.sites@,
                i,
                updated,
                site,
                now,
            );
        assert(after.sites@ == before.sites@.update(i, updated));
    }
}

/// Creating a site takes no visit from any site.
pub proof fn lemma_create_keeps_visits(
    before: Store,
    after: Store,
    site: CreateSite<'_>,
    now: i64,
    r: Result<(), ServiceError>,
)
    requires
        before.wf(),
        add_site_post(before, after, site, now, r),
    ensures
        visits_kept(before.sites@, after.sites@),
{
    if r is Ok {
        assert forall|i: int, j: int|
            0 <= i < before.sites@.len() && 0 <= j < after.sites@.len() && (
            #[trigger] before.sites@[i]).id == (#[trigger] after.sites@[j]).id implies before.sites@[i].visit_count
            <= after.sites@[j].visit_count by {
            if j < before.sites@.len() {
                assert(after.sites@[j] == after.sites@.drop_last()[j]);
            }
        }
    }
}

/// Deleting a site takes no visit from the sites that stay.
pub proof fn lemma_delete_keeps_visits(
    before: Store,
    after: Store,
    id: i64,
    r: Result<(), ServiceError>,
)
    requires
        before.wf(),
        delete_site_post(before, after, id, r),
    ensures
        visits_kept(before.sites@, after.sites@),
{
    if has_site(before.sites@, id) {
        let i = choose|i: int|
            0 <= i < before.sites@.len() && (#[trigger] before.sites@[i]).id == id
                && after.sites@ == before.sites@.remove(i);
        before.sites@.remove_ensures(i);
        assert forall|a: int, b: int|
            0 <= a < before.sites@.len() && 0 <= b < after.sites@.len() && (
            #[trigger] before.sites@[a]).id == (#[trigger] after.sites@[b]).id implies before.sites@[a].visit_count
            <= after.sites@[b].visit_count by {
            let src = if b < i {
                b
            } else {
                b + 1
            };
            assert(after.sites@[b] == before.sites@[src]);
        }
    }
}

} // verus!
