//! Listing, changing and ordering categories.

use crate::errors::{ErrorView, ServiceError};
use crate::handlers::site::{
    visits_kept, by_site_order, category_with, found_under, lemma_site_ids_under, lemma_sites_numbered, lists_site,
    order_sites, search_sites_under, site_ids_under, sites_contiguous, sites_numbered,
};
use crate::models::category::Category;
use crate::request::category::{CreateCategory, UpdateCategory};
use crate::query::{found, is_found, page_of, paginate};
use crate::response;
use crate::response::WithTotal;
use crate::ordering::{ids_in_order, lemma_moved_no_duplicates, moved, reorder};
use crate::scope::{
    contiguous, highest, ids_listed, ids_of_listing, is_member, is_next, lemma_count_bounds,
    lemma_ids_listed, lemma_join_keeps_contiguous, lemma_next_is_size, lemma_numbered_by_is_contiguous,
    lemma_numbered_by_keeps_others, lemma_push_keeps_contiguous, lemma_remove_keeps_contiguous,
    lemma_same_scope, listing, listing_of, numbered_by, positions, renumber, size,
};
use crate::store::{
    category_ids, category_orders, category_scope, distinct_category_ids, has_category, in_use,
    has_site, is_filed, name_taken, with_category_orders, Store,
};
use crate::text::owned;
use crate::utils::{keep_or, kept_or, unix_now};
use crate::response::category::{lemma_view_of, views};
use crate::lists::{lemma_filter_ends, lemma_filter_keeps, lemma_filter_next};
use crate::tree::{
    child_rows, flat_of, forest_of, is_nested, node_of, nodes_of, opens_tree, under,
};
use crate::utils::icon_url;
use vstd::prelude::*;

verus! {

/// Tells whether some row carries `id` below a parent.
fn listed_as_child(arr: &Vec<Category>, id: i64) -> (r: bool)
    ensures
        r == is_nested(arr@, id),
{
    let mut j: usize = 0;
    while j < arr.len()
        invariant
            j <= arr@.len(),
            forall|k: int| 0 <= k < j ==> !(#[trigger] arr@[k].id == id && arr@[k].parent_id is Some),
        decreases arr@.len() - j,
    {
        if arr[j].id == id && arr[j].parent_id.is_some() {
            return true;
        }
        j += 1;
    }
    false
}

/// Builds the node of one row, with what is nested under it down to `depth`
/// further levels.
fn make_node(arr: &Vec<Category>, upload_url: &str, row: &Category, depth: usize) -> (node:
    response::category::Category)
    ensures
        node@ == node_of(arr@, upload_url@, *row, depth as nat),
    decreases depth, 0nat,
{
    let children = if depth == 0 {
        None
    } else {
        let kids = children_of(arr, upload_url, row.id, depth - 1);
        if kids.len() == 0 {
            None
        } else {
            Some(kids)
        }
    };
    let node = response::category::Category {
        id: row.id,
        name: row.name.clone(),
        description: row.description.clone(),
        icon: icon_url(row.icon.as_str(), upload_url),
        parent_id: row.parent_id,
        children,
    };
    proof {
        lemma_view_of(node);
        if depth > 0 {
            // No children were found exactly when no row is filed under this one.
            let list = child_rows(arr@, row.id);
            assert(nodes_of(arr@, upload_url@, list, (depth - 1) as nat).len() == list.len());
        }
    }
    node
}

/// Builds the nodes of the rows filed under `parent`, each with what is
/// nested under it down to `depth` further levels.
fn children_of(arr: &Vec<Category>, upload_url: &str, parent: i64, depth: usize) -> (kids: Vec<
    response::category::Category,
>)
    ensures
        views(kids@) == nodes_of(arr@, upload_url@, child_rows(arr@, parent), depth as nat),
    decreases depth, 1nat,
{
    let mut kids: Vec<response::category::Category> = Vec::new();
    let mut i: usize = 0;
    proof {
        lemma_filter_ends(arr@, under(parent));
    }
    while i < arr.len()
        invariant
            i <= arr@.len(),
            kids@.len() == arr@.take(i as int).filter(under(parent)).len(),
            forall|k: int|
                0 <= k < kids@.len() ==> (#[trigger] kids@[k])@ == node_of(
                    arr@,
                    upload_url@,
                    arr@.take(i as int).filter(under(parent))[k],
                    depth as nat,
                ),
        decreases arr@.len() - i,
    {
        proof {
            lemma_filter_next(arr@, i as int, under(parent));
        }
        let is_child = match arr[i].parent_id {
            Some(p) => p == parent,
            None => false,
        };
        if is_child {
            let node = make_node(arr, upload_url, &arr[i], depth);
            kids.push(node);
        }
        i += 1;
    }
    proof {
        lemma_filter_ends(arr@, under(parent));
        assert(views(kids@) =~= nodes_of(
            arr@,
            upload_url@,
            child_rows(arr@, parent),
            depth as nat,
        ));
    }
    kids
}

/// Nests the flat rows into a tree.
///
/// Every icon is turned into the URL it is served under. A row appears at the
/// top when it has no parent and no row with its id is filed under a parent;
/// below each node stand the rows filed under its id, in the order of `arr`.
/// A row whose parent is not reachable from the top does not appear.
pub fn build_tree(arr: &Vec<Category>, upload_url: &str) -> (categories: Vec<
    response::category::Category,
>)
    ensures
        views(categories@) == forest_of(arr@, upload_url@),
{
    let mut categories: Vec<response::category::Category> = Vec::new();
    let depth = arr.len();
    let mut i: usize = 0;
    proof {
        lemma_filter_ends(arr@, opens_tree(arr@));
    }
    while i < arr.len()
        invariant
            i <= arr@.len(),
            depth == arr@.len(),
            categories@.len() == arr@.take(i as int).filter(opens_tree(arr@)).len(),
            forall|k: int|
                0 <= k < categories@.len() ==> (#[trigger] categories@[k])@ == node_of(
                    arr@,
                    upload_url@,
                    arr@.take(i as int).filter(opens_tree(arr@))[k],
                    depth as nat,
                ),
        decreases arr@.len() - i,
    {
        proof {
            lemma_filter_next(arr@, i as int, opens_tree(arr@));
        }
        if arr[i].parent_id.is_none() && !listed_as_child(arr, arr[i].id) {
            let node = make_node(arr, upload_url, &arr[i], depth);
            categories.push(node);
        }
        i += 1;
    }
    proof {
        lemma_filter_ends(arr@, opens_tree(arr@));
        assert(views(categories@) =~= forest_of(arr@, upload_url@));
    }
    categories
}

/// Lists the rows one by one, without nesting: every icon is turned into the
/// URL it is served under and no node has children.
pub fn flat_list(arr: &Vec<Category>, upload_url: &str) -> (categories: Vec<
    response::category::Category,
>)
    ensures
        views(categories@) == flat_of(arr@, upload_url@),
{
    let mut categories: Vec<response::category::Category> = Vec::new();
    let mut i: usize = 0;
    while i < arr.len()
        invariant
            i <= arr@.len(),
            categories@.len() == i,
            forall|k: int|
                0 <= k < i ==> (#[trigger] categories@[k])@ == node_of(
                    arr@,
                    upload_url@,
                    arr@[k],
                    0,
                ),
        decreases arr@.len() - i,
    {
        let node = make_node(arr, upload_url, &arr[i], 0);
        categories.push(node);
        i += 1;
    }
    assert(views(categories@) =~= flat_of(arr@, upload_url@));
    categories
}

/// The sort order that a category gets when it joins the categories under
/// `parent` at their end.
pub open spec fn is_next_category_order(
    rows: Seq<Category>,
    parent: Option<i64>,
    order: int,
) -> bool {
    is_next(category_scope(rows, parent), category_orders(rows), order)
}

/// The categories under `parent` have contiguous sort orders.
pub open spec fn categories_contiguous(rows: Seq<Category>, parent: Option<i64>) -> bool {
    contiguous(category_scope(rows, parent), category_orders(rows))
}

/// What [`add_category_at`] does to the store at the time `now`, and what
/// it answers.
pub open spec fn add_category_post(
    before: Store,
    after: Store,
    category: CreateCategory<'_>,
    now: i64,
    r: Result<(), ServiceError>,
) -> bool {
    &&& after.wf()
    &&& after.sites == before.sites
    &&& after.category_sites == before.category_sites
    &&& after.users == before.users
    &&& after.last_site_id == before.last_site_id
    &&& match r {
        Ok(()) => {
            let row = after.categories@.last();
            &&& !name_taken(before.categories@, category.name@)
            &&& after.categories@.len() == before.categories@.len() + 1
            &&& after.categories@.drop_last() == before.categories@
            &&& after.last_category_id == before.last_category_id + 1
            &&& row.id == after.last_category_id
            &&& row.name@ == category.name@
            &&& row.description@ == category.description@
            &&& row.icon@ == category.icon@
            &&& row.parent_id == category.parent_id
            &&& row.created_at == now
            &&& row.updated_at == now
            &&& is_next_category_order(
                before.categories@,
                category.parent_id,
                row.sort_order as int,
            )
        },
        Err(e) => {
            &&& after.categories == before.categories
            &&& after.last_category_id == before.last_category_id
            &&& if name_taken(before.categories@, category.name@) {
                e@ == ErrorView::AlreadyExists("Category already exists"@)
            } else {
                &&& e@ == ErrorView::DatabaseError("Out of range value"@)
                &&& before.last_category_id == i64::MAX || is_next_category_order(
                    before.categories@,
                    category.parent_id,
                    i64::MAX + 1,
                )
            }
        },
    }
    &&& forall|parent: Option<i64>|
        categories_contiguous(before.categories@, parent) ==> #[trigger] categories_contiguous(
            after.categories@,
            parent,
        )
}

/// Creates a category at the end of the categories under its parent, at
/// the time `now` in seconds since the epoch.
///
/// Fails with `AlreadyExists` when a category of this name exists, and with
/// `DatabaseError` when the table has run out of ids or sort orders; a
/// failure changes nothing. A scope whose sort orders are contiguous keeps
/// them so.
pub fn add_category_at(category: &CreateCategory<'_>, now: i64, db: &mut Store) -> (r: Result<
    (),
    ServiceError,
>)
    requires
        old(db).wf(),
    ensures
        add_category_post(*old(db), *final(db), *category, now, r),
{
    if db.category_named(category.name) {
        return Err(ServiceError::AlreadyExists(owned("Category already exists")));
    }
    let member = db.category_members(category.parent_id);
    let orders = db.category_sort_orders();
    let top = highest(&member, &orders);
    let order: i64 = match top {
        Some(x) => {
            if x == i64::MAX {
                return Err(ServiceError::DatabaseError(owned("Out of range value")));
            }
            x + 1
        },
        None => 0,
    };
    if db.last_category_id == i64::MAX {
        return Err(ServiceError::DatabaseError(owned("Out of range value")));
    }
    let id = db.last_category_id + 1;
    let row = Category {
        id,
        name: owned(category.name),
        description: owned(category.description),
        icon: owned(category.icon),
        sort_order: order,
        parent_id: category.parent_id,
        created_at: now,
        updated_at: now,
    };
    db.categories.push(row);
    db.last_category_id = id;
    proof {
        let before = old(db).categories@;
        let after = db.categories@;
        assert(after.drop_last() =~= before);
        assert forall|parent: Option<i64>| categories_contiguous(before, parent) implies #[trigger] categories_contiguous(
            after,
            parent,
        ) by {
            let m = category_scope(before, parent);
            let o = category_orders(before);
            let joins = category.parent_id == parent;
            if joins {
                lemma_next_is_size(m, o, top);
            }
            lemma_push_keeps_contiguous(m, o, joins, order);
            assert(category_scope(after, parent) =~= m.push(joins));
            assert(category_orders(after) =~= o.push(order));
        }
    }
    Ok(())
}

/// What [`delete_category`] does to the store and what it answers.
/// Creates a category at the end of the categories under its parent, now.
///
/// The clock is read once; apart from that this is [`add_category_at`].
pub fn add_category(category: &CreateCategory<'_>, db: &mut Store) -> (r: Result<(), ServiceError>)
    requires
        old(db).wf(),
    ensures
        exists|now: i64| #[trigger] add_category_post(*old(db), *final(db), *category, now, r),
{
    let now = unix_now();
    add_category_at(category, now, db)
}

/// Taking the category `id` away leaves no gap in the sort orders of the
/// categories under `parent`: it is not one of them, or it stands last.
pub open spec fn leaves_no_gap(rows: Seq<Category>, id: i64, parent: Option<i64>) -> bool {
    forall|i: int|
        0 <= i < rows.len() && (#[trigger] rows[i]).id == id && rows[i].parent_id == parent
            ==> rows[i].sort_order == size(category_scope(rows, parent)) - 1
}

pub open spec fn delete_category_post(
    before: Store,
    after: Store,
    id: i64,
    r: Result<(), ServiceError>,
) -> bool {
    &&& after.wf()
    &&& after.sites == before.sites
    &&& after.category_sites == before.category_sites
    &&& after.users == before.users
    &&& after.last_site_id == before.last_site_id
    &&& after.last_category_id == before.last_category_id
    &&& match r {
        Ok(()) => {
            &&& !in_use(before.category_sites@, id)
            &&& !has_category(after.categories@, id)
            &&& if has_category(before.categories@, id) {
                exists|i: int|
                    0 <= i < before.categories@.len() && (#[trigger] before.categories@[i]).id
                        == id && after.categories@ == before.categories@.remove(i)
            } else {
                after.categories == before.categories
            }
        },
        Err(e) => {
            &&& in_use(before.category_sites@, id)
            &&& e@ == ErrorView::BadRequest("Category is in use"@)
            &&& after.categories == before.categories
        },
    }
    &&& forall|parent: Option<i64>|
        categories_contiguous(before.categories@, parent) && leaves_no_gap(
            before.categories@,
            id,
            parent,
        ) ==> #[trigger] categories_contiguous(after.categories@, parent)
}

/// Deletes a category that no site is filed under.
///
/// Fails with `BadRequest` while a site is filed under the category, and
/// then changes nothing. The categories below the deleted one stay as they
/// are. Deleting an id that no category has succeeds and changes nothing.
pub fn delete_category(id: i64, db: &mut Store) -> (r: Result<(), ServiceError>)
    requires
        old(db).wf(),
    ensures
        delete_category_post(*old(db), *final(db), id, r),
{
    if db.category_in_use(id) {
        return Err(ServiceError::BadRequest(owned("Category is in use")));
    }
    match db.find_category(id) {
        Some(i) => {
            db.categories.remove(i);
            proof {
                let before = old(db).categories@;
                before.remove_ensures(i as int);
                assert forall|parent: Option<i64>|
                    categories_contiguous(before, parent) && leaves_no_gap(
                        before,
                        id,
                        parent,
                    ) implies #[trigger] categories_contiguous(db.categories@, parent) by {
                    lemma_delete_keeps_contiguous(before, i as int, parent);
                }
                assert forall|a: int, b: int|
                    0 <= a < db.categories@.len() && 0 <= b < db.categories@.len() && a
                        != b implies (#[trigger] db.categories@[a]).id != (
                #[trigger] db.categories@[b]).id by {
                    let sa = if a < i { a } else { a + 1 };
                    let sb = if b < i { b } else { b + 1 };
                    assert(db.categories@[a] == before[sa] && db.categories@[b] == before[sb]);
                }
                assert forall|a: int| 0 <= a < db.categories@.len() implies (
                #[trigger] db.categories@[a]).id <= db.last_category_id && db.categories@[a].id
                    != id by {
                    let sa = if a < i { a } else { a + 1 };
                    assert(db.categories@[a] == before[sa]);
                }
            }
        },
        None => {},
    }
    Ok(())
}

/// Deleting a category leaves the sort orders of a scope contiguous when the
/// category is not in the scope, and when it stood last in it.
pub proof fn lemma_delete_keeps_contiguous(rows: Seq<Category>, i: int, parent: Option<i64>)
    requires
        0 <= i < rows.len(),
        categories_contiguous(rows, parent),
        rows[i].parent_id == parent ==> rows[i].sort_order == size(category_scope(rows, parent)) - 1,
    ensures
        categories_contiguous(rows.remove(i), parent),
{
    let m = category_scope(rows, parent);
    let o = category_orders(rows);
    lemma_remove_keeps_contiguous(m, o, i);
    rows.remove_ensures(i);
    assert(category_scope(rows.remove(i), parent) =~= m.remove(i));
    assert(category_orders(rows.remove(i)) =~= o.remove(i));
}

/// The ids of the categories under `parent`, by ascending sort order.
pub open spec fn sibling_ids(rows: Seq<Category>, parent: Option<i64>) -> Seq<i64> {
    ids_listed(category_ids(rows), category_scope(rows, parent), category_orders(rows))
}

/// The categories after the ids of `order` have been numbered by their place
/// in `order`.
pub open spec fn categories_numbered(rows: Seq<Category>, order: Seq<i64>) -> Seq<Category> {
    with_category_orders(rows, numbered_by(category_ids(rows), category_orders(rows), order))
}

/// Numbering the categories under `parent` by a list that holds the id of
/// each of them once leaves their sort orders contiguous, and leaves every
/// other category, and the contiguity of every other scope, as it was.
pub proof fn lemma_categories_numbered(rows: Seq<Category>, parent: Option<i64>, order: Seq<i64>)
    requires
        distinct_category_ids(rows),
        order.no_duplicates(),
        order.len() <= i64::MAX,
        forall|i: int|
            0 <= i < rows.len() ==> ((#[trigger] rows[i]).parent_id == parent <==> order.contains(
                rows[i].id,
            )),
        forall|x: i64| order.contains(x) ==> has_category(rows, x),
    ensures
        categories_contiguous(categories_numbered(rows, order), parent),
        sibling_ids(categories_numbered(rows, order), parent) == order,
        categories_numbered(rows, order).len() == rows.len(),
        forall|i: int|
            0 <= i < rows.len() && rows[i].parent_id != parent ==> #[trigger] categories_numbered(
                rows,
                order,
            )[i] == rows[i],
        forall|i: int|
            0 <= i < rows.len() ==> (#[trigger] categories_numbered(rows, order)[i]).id
                == rows[i].id && categories_numbered(rows, order)[i].parent_id
                == rows[i].parent_id,
        forall|other: Option<i64>|
            categories_contiguous(rows, other) ==> #[trigger] categories_contiguous(
                categories_numbered(rows, order),
                other,
            ),
{
    let ids = category_ids(rows);
    let member = category_scope(rows, parent);
    let orders = category_orders(rows);
    let after = categories_numbered(rows, order);
    let renumbered = numbered_by(ids, orders, order);
    assert(ids.no_duplicates());
    assert forall|x: i64| order.contains(x) implies ids.contains(x) by {
        let i = choose|i: int| 0 <= i < rows.len() && (#[trigger] rows[i]).id == x;
        assert(ids[i] == x);
    }
    assert forall|i: int| 0 <= i < ids.len() implies (member[i] <==> order.contains(ids[i])) by {
        assert(rows[i].parent_id == parent <==> order.contains(rows[i].id));
    }
    lemma_numbered_by_is_contiguous(ids, member, orders, order);
    lemma_numbered_by_keeps_others(ids, orders, order);
    assert(category_scope(after, parent) =~= member);
    assert(category_orders(after) =~= renumbered);
    assert(category_ids(after) =~= ids);
    assert forall|i: int| 0 <= i < rows.len() && rows[i].parent_id != parent implies #[trigger] after[i]
        == rows[i] by {
        assert(!order.contains(ids[i]));
    }
    assert forall|other: Option<i64>| categories_contiguous(rows, other) implies #[trigger] categories_contiguous(
        after,
        other,
    ) by {
        if other != parent {
            let m = category_scope(rows, other);
            assert(category_scope(after, other) =~= m);
            assert forall|i: int| #[trigger] is_member(m, i) implies renumbered[i] == orders[i] by {
                assert(rows[i].parent_id != parent);
                assert(!order.contains(ids[i]));
            }
            lemma_same_scope(m, orders, renumbered);
        }
    }
}

/// What is known of the ids of the categories under `parent`: none repeats,
/// they are the ids of those categories and of no other row, and there are
/// no more of them than rows.
pub proof fn lemma_sibling_ids(rows: Seq<Category>, parent: Option<i64>, list: Seq<int>)
    requires
        distinct_category_ids(rows),
        crate::scope::is_listing(list, category_scope(rows, parent), category_orders(rows)),
    ensures
        sibling_ids(rows, parent) == crate::scope::ids_at(category_ids(rows), list),
        sibling_ids(rows, parent).no_duplicates(),
        sibling_ids(rows, parent).len() <= rows.len(),
        forall|i: int|
            0 <= i < rows.len() ==> ((#[trigger] rows[i]).parent_id == parent <==> sibling_ids(
                rows,
                parent,
            ).contains(rows[i].id)),
        forall|x: i64| sibling_ids(rows, parent).contains(x) ==> has_category(rows, x),
{
    let ids = category_ids(rows);
    let member = category_scope(rows, parent);
    let orders = category_orders(rows);
    crate::scope::lemma_listing_of(list, member, orders);
    assert(ids.no_duplicates());
    lemma_ids_listed(ids, member, orders, list);
    lemma_count_bounds(member, member.len() as int);
    let l = sibling_ids(rows, parent);
    assert forall|i: int| 0 <= i < rows.len() implies ((#[trigger] rows[i]).parent_id == parent
        <==> l.contains(rows[i].id)) by {
        assert(member[i] <==> l.contains(ids[i]));
    }
    assert forall|x: i64| l.contains(x) implies has_category(rows, x) by {
        assert(ids.contains(x));
        let i = choose|i: int| 0 <= i < ids.len() && ids[i] == x;
        assert(rows[i].id == x);
    }
}

/// What [`sort_categories`] does to the store and what it answers.
pub open spec fn sort_categories_post(
    before: Store,
    after: Store,
    active_id: i64,
    over_id: Option<i64>,
    parent_id: Option<i64>,
    r: Result<(), ServiceError>,
) -> bool {
    &&& after.wf()
    &&& after.sites == before.sites
    &&& after.category_sites == before.category_sites
    &&& after.users == before.users
    &&& after.last_site_id == before.last_site_id
    &&& after.last_category_id == before.last_category_id
    &&& match r {
        Ok(()) => {
            &&& sibling_ids(before.categories@, parent_id).contains(active_id)
            &&& after.categories@ == categories_numbered(
                before.categories@,
                moved(sibling_ids(before.categories@, parent_id), active_id, over_id),
            )
            &&& categories_contiguous(after.categories@, parent_id)
            &&& sibling_ids(after.categories@, parent_id) == moved(
                sibling_ids(before.categories@, parent_id),
                active_id,
                over_id,
            )
        },
        Err(e) => {
            &&& !sibling_ids(before.categories@, parent_id).contains(active_id)
            &&& e@ == ErrorView::BadRequest("active id not in scope"@)
            &&& after.categories == before.categories
        },
    }
    &&& after.categories@.len() == before.categories@.len()
    &&& forall|i: int|
        0 <= i < before.categories@.len() && before.categories@[i].parent_id != parent_id
            ==> #[trigger] after.categories@[i] == before.categories@[i]
    &&& forall|other: Option<i64>|
        categories_contiguous(before.categories@, other) ==> #[trigger] categories_contiguous(
            after.categories@,
            other,
        )
}

/// Moves the category `active_id` to the place of `over_id` among the
/// categories under `parent_id` (the roots when it is `None`), to the front
/// when `over_id` is absent or not among them, and numbers all of them anew.
///
/// Fails with `BadRequest` when `active_id` is not among them, and then
/// changes nothing. After a move the sort orders of the scope are contiguous,
/// whatever they were before.
pub fn sort_categories(
    active_id: i64,
    over_id: Option<i64>,
    parent_id: Option<i64>,
    db: &mut Store,
) -> (r: Result<(), ServiceError>)
    requires
        old(db).wf(),
    ensures
        sort_categories_post(*old(db), *final(db), active_id, over_id, parent_id, r),
{
    let member = db.category_members(parent_id);
    let orders = db.category_sort_orders();
    let id_column = db.category_id_column();
    let list = listing(&member, &orders);
    let ids = ids_of_listing(&id_column, &list);
    proof {
        lemma_sibling_ids(db.categories@, parent_id, positions(list@));
    }
    let pairs = match reorder(&ids, active_id, over_id) {
        Ok(pairs) => pairs,
        Err(e) => {
            return Err(e);
        },
    };
    let order = ids_in_order(&pairs);
    proof {
        assert(order@ =~= moved(ids@, active_id, over_id));
        lemma_moved_no_duplicates(ids@, active_id, over_id);
        lemma_categories_numbered(db.categories@, parent_id, order@);
    }
    let renumbered = renumber(&id_column, &orders, &order);
    db.set_category_orders(&renumbered);
    Ok(())
}

/// The update asks for a parent other than the one the category has.
pub open spec fn moves_category(row: Category, request: UpdateCategory<'_>) -> bool {
    request.parent_id is Some && request.parent_id != row.parent_id
}

/// `updated` is `row` after the partial update `request` at the time `now`,
/// moved to the end of the categories under its new parent where the update
/// asks for another parent. `rows` are the categories before the update.
pub open spec fn is_category_update(
    updated: Category,
    row: Category,
    request: UpdateCategory<'_>,
    rows: Seq<Category>,
    now: i64,
) -> bool {
    &&& updated.id == row.id
    &&& updated.name@ == kept_or(row.name@, request.name)
    &&& updated.description@ == kept_or(row.description@, request.description)
    &&& updated.icon@ == kept_or(row.icon@, request.icon)
    &&& updated.created_at == row.created_at
    &&& updated.updated_at == now
    &&& if moves_category(row, request) {
        &&& updated.parent_id == request.parent_id
        &&& is_next_category_order(rows, request.parent_id, updated.sort_order as int)
    } else {
        &&& updated.parent_id == row.parent_id
        &&& updated.sort_order == row.sort_order
    }
}

/// `after` are the categories `before` once the category in row `i` has been
/// replaced by `updated` and, where that moved it to another parent, the
/// categories it left behind have been numbered anew in their order.
pub open spec fn categories_updated(
    before: Seq<Category>,
    after: Seq<Category>,
    i: int,
    updated: Category,
    request: UpdateCategory<'_>,
    now: i64,
) -> bool {
    &&& 0 <= i < before.len()
    &&& is_category_update(updated, before[i], request, before, now)
    &&& after == if moves_category(before[i], request) {
        categories_numbered(
            before.update(i, updated),
            sibling_ids(before.update(i, updated), before[i].parent_id),
        )
    } else {
        before.update(i, updated)
    }
}

/// What [`update_category_at`] does to the store at the time `now`, and
/// what it answers.
pub open spec fn update_category_post(
    before: Store,
    after: Store,
    id: i64,
    category: UpdateCategory<'_>,
    now: i64,
    r: Result<(), ServiceError>,
) -> bool {
    &&& after.wf()
    &&& after.sites == before.sites
    &&& after.category_sites == before.category_sites
    &&& after.users == before.users
    &&& after.last_site_id == before.last_site_id
    &&& after.last_category_id == before.last_category_id
    &&& match r {
        Ok(()) => {
            &&& has_category(before.categories@, id)
            &&& category.parent_id != Some(id)
            &&& exists|i: int, updated: Category|
                before.categories@[i].id == id && #[trigger] categories_updated(
                    before.categories@,
                    after.categories@,
                    i,
                    updated,
                    category,
                    now,
                ) && (moves_category(before.categories@[i], category)
                    ==> categories_contiguous(
                    after.categories@,
                    before.categories@[i].parent_id,
                ))
        },
        Err(e) => {
            &&& after.categories == before.categories
            &&& if !has_category(before.categories@, id) {
                e@ == ErrorView::NotFound
            } else if category.parent_id == Some(id) {
                e@ == ErrorView::BadRequest("Category cannot be its own parent"@)
            } else {
                &&& e@ == ErrorView::DatabaseError("Out of range value"@)
                &&& is_next_category_order(
                    before.categories@,
                    category.parent_id,
                    i64::MAX + 1,
                )
            }
        },
    }
    &&& forall|other: Option<i64>|
        categories_contiguous(before.categories@, other) ==> #[trigger] categories_contiguous(
            after.categories@,
            other,
        )
}

/// Changes the name, description and icon of a category and moves it to
/// another parent, at the time `now` in seconds since the epoch.
///
/// A text that is absent or empty leaves the field as it is. A parent that is
/// given and is not the current one moves the category to the end of the
/// categories under the new parent and closes the gap it leaves under the
/// old one.
///
/// Fails with `NotFound` when no category has this id, with `BadRequest`
/// when the category is to become its own parent, and with `DatabaseError`
/// when the new scope has run out of sort orders; a failure changes nothing.
pub fn update_category_at(id: i64, category: &UpdateCategory<'_>, now: i64, db: &mut Store) -> (r:
    Result<(), ServiceError>)
    requires
        old(db).wf(),
    ensures
        update_category_post(*old(db), *final(db), id, *category, now, r),
{
    let i = match db.find_category(id) {
        Some(i) => i,
        None => {
            return Err(ServiceError::NotFound);
        },
    };
    let old_parent = db.categories[i].parent_id;
    let moves = match category.parent_id {
        Some(p) => {
            if p == id {
                return Err(ServiceError::BadRequest(owned("Category cannot be its own parent")));
            }
            match old_parent {
                Some(q) => q != p,
                None => true,
            }
        },
        None => false,
    };
    let ghost before = db.categories@;
    let mut top: Option<i64> = None;
    let order = if moves {
        let member = db.category_members(category.parent_id);
        let orders = db.category_sort_orders();
        top = highest(&member, &orders);
        match top {
            Some(x) => {
                if x == i64::MAX {
                    return Err(ServiceError::DatabaseError(owned("Out of range value")));
                }
                x + 1
            },
            None => 0,
        }
    } else {
        db.categories[i].sort_order
    };
    let name = keep_or(&db.categories[i].name, category.name);
    let description = keep_or(&db.categories[i].description, category.description);
    let icon = keep_or(&db.categories[i].icon, category.icon);
    db.categories[i].name = name;
    db.categories[i].description = description;
    db.categories[i].icon = icon;
    db.categories[i].updated_at = now;
    if moves {
        db.categories[i].parent_id = category.parent_id;
        db.categories[i].sort_order = order;
    }
    let ghost updated = db.categories@[i as int];
    let ghost changed = db.categories@;
    proof {
        assert(changed =~= before.update(i as int, updated));
        assert(is_category_update(updated, before[i as int], *category, before, now));
        assert(distinct_category_ids(changed));
        // The scope the category joins, and every scope it has nothing to do
        // with, is as contiguous as it was.
        assert forall|other: Option<i64>| categories_contiguous(before, other) && !(moves && other
            == old_parent) implies #[trigger] categories_contiguous(changed, other) by {
            let m = category_scope(before, other);
            let o = category_orders(before);
            if moves && other == category.parent_id {
                lemma_next_is_size(m, o, top);
                lemma_join_keeps_contiguous(m, o, i as int, order);
                assert(category_scope(changed, other) =~= m.update(i as int, true));
                assert(category_orders(changed) =~= o.update(i as int, order));
            } else {
                assert(category_scope(changed, other) =~= m);
                lemma_same_scope(m, o, category_orders(changed));
            }
        }
    }
    if moves {
        let member = db.category_members(old_parent);
        let orders = db.category_sort_orders();
        let id_column = db.category_id_column();
        let list = listing(&member, &orders);
        let ids = ids_of_listing(&id_column, &list);
        proof {
            lemma_sibling_ids(changed, old_parent, positions(list@));
            lemma_categories_numbered(changed, old_parent, ids@);
        }
        let renumbered = renumber(&id_column, &orders, &ids);
        db.set_category_orders(&renumbered);
    }
    proof {
        assert(categories_updated(before, db.categories@, i as int, updated, *category, now));
    }
    Ok(())
}

/// Changes the name, description and icon of a category and moves it to
/// another parent, now.
///
/// The clock is read once; apart from that this is [`update_category_at`].
pub fn update_category(id: i64, category: &UpdateCategory<'_>, db: &mut Store) -> (r: Result<
    (),
    ServiceError,
>)
    requires
        old(db).wf(),
    ensures
        exists|now: i64| #[trigger]
            update_category_post(*old(db), *final(db), id, *category, now, r),
{
    let now = unix_now();
    update_category_at(id, category, now, db)
}

/// What [`sort_category_sites`] does to the store and what it answers.
pub open spec fn sort_category_sites_post(
    before: Store,
    after: Store,
    id: i64,
    active_id: i64,
    over_id: Option<i64>,
    r: Result<(), ServiceError>,
) -> bool {
    &&& after.wf()
    &&& after.categories == before.categories
    &&& after.category_sites == before.category_sites
    &&& after.users == before.users
    &&& after.last_site_id == before.last_site_id
    &&& after.last_category_id == before.last_category_id
    &&& match r {
        Ok(()) => {
            &&& has_category(before.categories@, id)
            &&& has_site(before.sites@, active_id)
            &&& is_filed(before.category_sites@, id, active_id)
            &&& after.sites@ == sites_numbered(
                before.sites@,
                moved(
                    site_ids_under(before.sites@, before.category_sites@, id),
                    active_id,
                    over_id,
                ),
            )
            &&& sites_contiguous(after.sites@, after.category_sites@, id)
            &&& site_ids_under(after.sites@, after.category_sites@, id) == moved(
                site_ids_under(before.sites@, before.category_sites@, id),
                active_id,
                over_id,
            )
        },
        Err(e) => {
            &&& !(has_category(before.categories@, id) && has_site(before.sites@, active_id)
                && is_filed(before.category_sites@, id, active_id))
            &&& e@ == ErrorView::BadRequest("Site not found"@)
            &&& after.sites == before.sites
        },
    }
    &&& after.sites@.len() == before.sites@.len()
    &&& forall|i: int|
        0 <= i < before.sites@.len() && !is_filed(
            before.category_sites@,
            id,
            before.sites@[i].id,
        ) ==> #[trigger] after.sites@[i] == before.sites@[i]
}

/// Moves the site `active_id` to the place of `over_id` among the sites of
/// the category `id`, to the front when `over_id` is absent or not among
/// them, and numbers all of them anew.
///
/// Fails with `BadRequest` when the category does not exist or the site is
/// not one of its sites, and then changes nothing. After a move the sort
/// orders of the sites of the category are contiguous, whatever they were
/// before.
pub fn sort_category_sites(id: i64, active_id: i64, over_id: Option<i64>, db: &mut Store) -> (r:
    Result<(), ServiceError>)
    requires
        old(db).wf(),
    ensures
        sort_category_sites_post(*old(db), *final(db), id, active_id, over_id, r),
{
    if db.find_category(id).is_none() || db.find_site(active_id).is_none()
        || !db.site_filed_under(id, active_id) {
        return Err(ServiceError::BadRequest(owned("Site not found")));
    }
    let member = db.site_members(id);
    let orders = db.site_sort_orders();
    let id_column = db.site_id_column();
    let list = listing(&member, &orders);
    let ids = ids_of_listing(&id_column, &list);
    proof {
        lemma_site_ids_under(db.sites@, db.category_sites@, id, positions(list@));
        let i = choose|i: int| 0 <= i < db.sites@.len() && (#[trigger] db.sites@[i]).id == active_id;
        assert(ids@.contains(db.sites@[i].id));
    }
    let pairs = match reorder(&ids, active_id, over_id) {
        Ok(pairs) => pairs,
        Err(_) => {
            return Err(ServiceError::BadRequest(owned("Site not found")));
        },
    };
    let order = ids_in_order(&pairs);
    proof {
        assert(order@ =~= moved(ids@, active_id, over_id));
        lemma_moved_no_duplicates(ids@, active_id, over_id);
        lemma_sites_numbered(db.sites@, db.category_sites@, id, order@);
    }
    let renumbered = renumber(&id_column, &orders, &order);
    db.set_site_orders(&renumbered);
    Ok(())
}

/// The categories that a search keeps.
pub open spec fn found_category(search: Option<&str>) -> spec_fn(Category) -> bool {
    |row: Category| is_found(row.name@, row.description@, search)
}

/// A scope that every one of `n` rows belongs to.
pub open spec fn everyone(n: nat) -> Seq<bool> {
    Seq::new(n, |i: int| true)
}

/// The rows at the positions of `list`, in the order of `list`.
pub open spec fn rows_at(rows: Seq<Category>, list: Seq<int>) -> Seq<Category> {
    Seq::new(list.len(), |k: int| rows[list[k]])
}

/// The rows by ascending sort order; rows with the same sort order keep
/// their order.
pub open spec fn by_sort_order(rows: Seq<Category>) -> Seq<Category> {
    rows_at(rows, listing_of(everyone(rows.len()), category_orders(rows)))
}

/// The way up from `row` ends at a root after `steps` steps at most: `row`
/// has no parent, or its parent exists and the way up from the parent ends
/// at a root one step sooner.
pub open spec fn reaches_root(rows: Seq<Category>, row: Category, steps: nat) -> bool
    decreases steps,
{
    match row.parent_id {
        None => true,
        Some(parent) => steps > 0 && has_category(rows, parent) && reaches_root(
            rows,
            category_with(rows, parent),
            (steps - 1) as nat,
        ),
    }
}

/// The categories of the hierarchy that a search keeps: those that the way
/// up leads from to a root, and that the search keeps.
pub open spec fn found_in_hierarchy(rows: Seq<Category>, search: Option<&str>) -> spec_fn(
    Category,
) -> bool {
    |row: Category|
        reaches_root(rows, row, rows.len()) && is_found(row.name@, row.description@, search)
}

/// The categories that a tree listing is built from: those of the hierarchy
/// that the search keeps, by ascending sort order.
pub open spec fn listed_categories(rows: Seq<Category>, search: Option<&str>) -> Seq<Category> {
    by_sort_order(rows.filter(found_in_hierarchy(rows, search)))
}

/// Tells whether the way up from row `i` ends at a root.
pub fn in_hierarchy(db: &Store, i: usize) -> (r: bool)
    requires
        db.wf(),
        i < db.categories@.len(),
    ensures
        r == reaches_root(db.categories@, db.categories@[i as int], db.categories@.len()),
{
    let mut current = i;
    let mut steps = db.categories.len();
    loop
        invariant
            db.wf(),
            current < db.categories@.len(),
            steps <= db.categories@.len(),
            reaches_root(db.categories@, db.categories@[i as int], db.categories@.len())
                == reaches_root(db.categories@, db.categories@[current as int], steps as nat),
        decreases steps,
    {
        let parent = match db.categories[current].parent_id {
            Some(parent) => parent,
            None => {
                return true;
            },
        };
        if steps == 0 {
            return false;
        }
        match db.find_category(parent) {
            Some(next) => {
                assert(category_with(db.categories@, parent) == db.categories@[next as int]);
                current = next;
                steps -= 1;
            },
            None => {
                return false;
            },
        }
    }
}

/// Copies the categories of the hierarchy that the search keeps, in their
/// order.
pub fn search_hierarchy(db: &Store, search: Option<&str>) -> (kept: Vec<Category>)
    requires
        db.wf(),
    ensures
        kept@ == db.categories@.filter(found_in_hierarchy(db.categories@, search)),
        kept@.len() <= db.categories@.len(),
{
    let ghost pred = found_in_hierarchy(db.categories@, search);
    let mut kept: Vec<Category> = Vec::new();
    let mut i: usize = 0;
    proof {
        lemma_filter_ends(db.categories@, pred);
    }
    while i < db.categories.len()
        invariant
            db.wf(),
            i <= db.categories@.len(),
            pred == found_in_hierarchy(db.categories@, search),
            kept@ == db.categories@.take(i as int).filter(pred),
        decreases db.categories@.len() - i,
    {
        proof {
            lemma_filter_next(db.categories@, i as int, pred);
        }
        if in_hierarchy(db, i) && found(
            db.categories[i].name.as_str(),
            db.categories[i].description.as_str(),
            search,
        ) {
            kept.push(db.categories[i].clone());
        }
        i += 1;
    }
    proof {
        lemma_filter_ends(db.categories@, pred);
        lemma_filter_keeps(db.categories@, pred);
    }
    kept
}

/// Copies the categories that the search keeps, in their order.
pub fn search_categories(rows: &Vec<Category>, search: Option<&str>) -> (kept: Vec<Category>)
    ensures
        kept@ == rows@.filter(found_category(search)),
        kept@.len() <= rows@.len(),
{
    let mut kept: Vec<Category> = Vec::new();
    let mut i: usize = 0;
    proof {
        lemma_filter_ends(rows@, found_category(search));
    }
    while i < rows.len()
        invariant
            i <= rows@.len(),
            kept@ == rows@.take(i as int).filter(found_category(search)),
        decreases rows@.len() - i,
    {
        proof {
            lemma_filter_next(rows@, i as int, found_category(search));
        }
        if found(rows[i].name.as_str(), rows[i].description.as_str(), search) {
            kept.push(rows[i].clone());
        }
        i += 1;
    }
    proof {
        lemma_filter_ends(rows@, found_category(search));
        lemma_filter_keeps(rows@, found_category(search));
    }
    kept
}

/// Copies the categories by ascending sort order; categories with the same
/// sort order keep their order.
pub fn order_categories(rows: &Vec<Category>) -> (sorted: Vec<Category>)
    ensures
        sorted@ == by_sort_order(rows@),
        sorted@.len() == rows@.len(),
{
    let mut member: Vec<bool> = Vec::new();
    let mut orders: Vec<i64> = Vec::new();
    let mut i: usize = 0;
    while i < rows.len()
        invariant
            i <= rows@.len(),
            member@.len() == i,
            orders@.len() == i,
            forall|j: int| 0 <= j < i ==> member@[j],
            forall|j: int| 0 <= j < i ==> orders@[j] == (#[trigger] rows@[j]).sort_order,
        decreases rows@.len() - i,
    {
        member.push(true);
        orders.push(rows[i].sort_order);
        i += 1;
    }
    assert(member@ =~= everyone(rows@.len()));
    assert(orders@ =~= category_orders(rows@));
    let list = listing(&member, &orders);
    let mut sorted: Vec<Category> = Vec::new();
    let mut k: usize = 0;
    while k < list.len()
        invariant
            k <= list@.len(),
            forall|j: int| 0 <= j < list@.len() ==> list@[j] < rows@.len(),
            sorted@.len() == k,
            forall|j: int| 0 <= j < k ==> sorted@[j] == rows@[list@[j] as int],
        decreases list@.len() - k,
    {
        sorted.push(rows[list[k]].clone());
        k += 1;
    }
    proof {
        assert(sorted@ =~= rows_at(rows@, positions(list@)));
        crate::scope::lemma_listing_enumerates(positions(list@), member@, orders@);
        lemma_count_all(member@, member@.len() as int);
    }
    sorted
}

/// A scope that every row belongs to is as large as the table.
proof fn lemma_count_all(member: Seq<bool>, n: int)
    requires
        0 <= n <= member.len(),
        forall|j: int| 0 <= j < member.len() ==> member[j],
    ensures
        crate::scope::count(member, n) == n,
    decreases n,
{
    if n > 0 {
        lemma_count_all(member, n - 1);
    }
}

/// What [`get_categories`] answers.
pub open spec fn get_categories_post(
    db: Store,
    page: i64,
    size: i64,
    search: Option<&str>,
    upload_url: Seq<char>,
    r: Result<WithTotal<response::category::Category>, ServiceError>,
) -> bool {
    &&& match r {
        Ok(listing) => {
            let rows = listed_categories(db.categories@, search);
            &&& page >= 0 && size >= 0
            &&& listing.total == rows.len()
            &&& views(listing.data@) == page_of(
                forest_of(rows, upload_url),
                page as int,
                size as int,
            )
        },
        Err(e) => (page < 0 || size < 0) && e@ == ErrorView::BadRequest(
            "Invalid page or size"@,
        ),
    }
}

/// Lists the categories as a tree, one page of top-level categories at a
/// time.
///
/// The tree is built from the categories of the hierarchy that the search
/// keeps, taken by ascending sort order; a category is in the hierarchy when
/// the way up from it ends at a root. `total` counts those categories;
/// `data` holds the page of the top level of the tree, each entry with
/// everything nested under it.
///
/// Fails with `BadRequest` when the page number or the page size is
/// negative.
pub fn get_categories(page: i64, size: i64, search: Option<&str>, upload_url: &str, db: &Store) -> (r:
    Result<WithTotal<response::category::Category>, ServiceError>)
    requires
        db.wf(),
    ensures
        get_categories_post(*db, page, size, search, upload_url@, r),
{
    let kept = search_hierarchy(db, search);
    let rows = order_categories(&kept);
    let total = rows.len() as i64;
    let tree = build_tree(&rows, upload_url);
    match paginate(tree, page, size) {
        Ok(data) => {
            assert(views(data@) =~= page_of(views(tree@), page as int, size as int));
            Ok(WithTotal { total, data })
        },
        Err(e) => Err(e),
    }
}

/// What [`get_categories_flat`] answers.
pub open spec fn get_categories_flat_post(
    db: Store,
    page: i64,
    size: i64,
    search: Option<&str>,
    upload_url: Seq<char>,
    r: Result<WithTotal<response::category::Category>, ServiceError>,
) -> bool {
    &&& match r {
        Ok(listing) => {
            let rows = db.categories@.filter(found_category(search));
            &&& page >= 0 && size >= 0
            &&& listing.total == rows.len()
            &&& views(listing.data@) == page_of(
                flat_of(rows, upload_url),
                page as int,
                size as int,
            )
        },
        Err(e) => (page < 0 || size < 0) && e@ == ErrorView::BadRequest(
            "Invalid page or size"@,
        ),
    }
}

/// Lists the categories one by one, a page at a time, in the order in which
/// they are stored.
///
/// `total` counts the categories that the search keeps; `data` holds the
/// page of them, none with children.
///
/// Fails with `BadRequest` when the page number or the page size is
/// negative.
pub fn get_categories_flat(
    page: i64,
    size: i64,
    search: Option<&str>,
    upload_url: &str,
    db: &Store,
) -> (r: Result<WithTotal<response::category::Category>, ServiceError>)
    requires
        db.wf(),
    ensures
        get_categories_flat_post(*db, page, size, search, upload_url@, r),
{
    let rows = search_categories(&db.categories, search);
    let total = rows.len() as i64;
    let all = flat_list(&rows, upload_url);
    match paginate(all, page, size) {
        Ok(data) => {
            assert(views(data@) =~= page_of(views(all@), page as int, size as int));
            Ok(WithTotal { total, data })
        },
        Err(e) => Err(e),
    }
}

/// What [`get_sites`] answers.
pub open spec fn get_sites_post(
    db: Store,
    category_id: i64,
    search: Option<&str>,
    upload_url: Seq<char>,
    r: Result<Vec<response::site::Site>, ServiceError>,
) -> bool {
    &&& match r {
        Ok(shown) => {
            let rows = by_site_order(
                db.sites@.filter(found_under(db.category_sites@, category_id, search)),
            );
            &&& shown@.len() == rows.len()
            &&& forall|k: int|
                0 <= k < rows.len() ==> lists_site(#[trigger] shown@[k], rows[k], upload_url)
        },
        Err(_) => false,
    }
}

/// Lists the sites of a category that the search keeps, by ascending sort
/// order, with their icons as the URLs they are served under.
pub fn get_sites(category_id: i64, search: Option<&str>, upload_url: &str, db: &Store) -> (r: Result<
    Vec<response::site::Site>,
    ServiceError,
>)
    ensures
        get_sites_post(*db, category_id, search, upload_url@, r),
{
    let kept = search_sites_under(db, category_id, search);
    let rows = order_sites(&kept);
    let mut shown: Vec<response::site::Site> = Vec::new();
    let mut k: usize = 0;
    while k < rows.len()
        invariant
            k <= rows@.len(),
            shown@.len() == k,
            forall|j: int|
                0 <= j < k ==> lists_site(#[trigger] shown@[j], rows@[j], upload_url@),
        decreases rows@.len() - k,
    {
        let site = &rows[k];
        shown.push(
            response::site::Site {
                id: site.id,
                name: site.name.clone(),
                url: site.url.clone(),
                description: site.description.clone(),
                icon: icon_url(site.icon.as_str(), upload_url),
                visit_count: site.visit_count,
            },
        );
        k += 1;
    }
    Ok(shown)
}

/// Every scope of categories has contiguous sort orders.
pub open spec fn all_contiguous(rows: Seq<Category>) -> bool {
    forall|parent: Option<i64>| #[trigger] categories_contiguous(rows, parent)
}

/// Creating a category keeps the sort orders of every scope contiguous.
pub proof fn lemma_create_keeps_order(
    before: Store,
    after: Store,
    category: CreateCategory<'_>,
    now: i64,
    r: Result<(), ServiceError>,
)
    requires
        add_category_post(before, after, category, now, r),
        all_contiguous(before.categories@),
    ensures
        all_contiguous(after.categories@),
{
    assert forall|parent: Option<i64>| #[trigger]
        categories_contiguous(after.categories@, parent) by {
        assert(categories_contiguous(before.categories@, parent));
    }
}

/// Moving a category among its siblings keeps the sort orders of every
/// scope contiguous, and makes those of the scope of the move contiguous
/// whatever they were.
pub proof fn lemma_reorder_keeps_order(
    before: Store,
    after: Store,
    active_id: i64,
    over_id: Option<i64>,
    parent_id: Option<i64>,
    r: Result<(), ServiceError>,
)
    requires
        sort_categories_post(before, after, active_id, over_id, parent_id, r),
    ensures
        all_contiguous(before.categories@) ==> all_contiguous(after.categories@),
        r is Ok ==> categories_contiguous(after.categories@, parent_id),
{
    if all_contiguous(before.categories@) {
        assert forall|parent: Option<i64>| #[trigger]
            categories_contiguous(after.categories@, parent) by {
            assert(categories_contiguous(before.categories@, parent));
        }
    }
}

/// Changing a category, and moving it to another parent, keeps the sort
/// orders of every scope contiguous.
pub proof fn lemma_update_keeps_order(
    before: Store,
    after: Store,
    id: i64,
    category: UpdateCategory<'_>,
    now: i64,
    r: Result<(), ServiceError>,
)
    requires
        update_category_post(before, after, id, category, now, r),
        all_contiguous(before.categories@),
    ensures
        all_contiguous(after.categories@),
{
    assert forall|parent: Option<i64>| #[trigger]
        categories_contiguous(after.categories@, parent) by {
        assert(categories_contiguous(before.categories@, parent));
    }
}

/// Deleting a category keeps the sort orders of every scope contiguous when
/// the category stood last among its siblings. One that stood elsewhere
/// leaves a gap behind, which the next move in that scope closes.
pub proof fn lemma_delete_keeps_order(
    before: Store,
    after: Store,
    id: i64,
    r: Result<(), ServiceError>,
)
    requires
        delete_category_post(before, after, id, r),
        all_contiguous(before.categories@),
        forall|parent: Option<i64>| leaves_no_gap(before.categories@, id, parent),
    ensures
        all_contiguous(after.categories@),
{
    assert forall|parent: Option<i64>| #[trigger]
        categories_contiguous(after.categories@, parent) by {
        assert(categories_contiguous(before.categories@, parent));
        assert(leaves_no_gap(before.categories@, id, parent));
    }
}

/// No category is its own parent.
pub open spec fn no_self_parent(rows: Seq<Category>) -> bool {
    forall|i: int| 0 <= i < rows.len() ==> (#[trigger] rows[i]).parent_id != Some(rows[i].id)
}

/// An update never makes a category its own parent.
pub proof fn lemma_update_keeps_no_self_parent(
    before: Store,
    after: Store,
    id: i64,
    category: UpdateCategory<'_>,
    now: i64,
    r: Result<(), ServiceError>,
)
    requires
        before.wf(),
        update_category_post(before, after, id, category, now, r),
        no_self_parent(before.categories@),
    ensures
        no_self_parent(after.categories@),
{
    if r is Ok {
        let (i, updated) = choose|i: int, updated: Category|
            before.categories@[i].id == id && #[trigger] categories_updated(
                before.categories@,
                after.categories@,
                i,
                updated,
                category,
                now,
            ) && (moves_category(before.categories@[i], category) ==> categories_contiguous(
                after.categories@,
                before.categories@[i].parent_id,
            ));
        let rows = before.categories@;
        let changed = rows.update(i, updated);
        assert(no_self_parent(changed)) by {
            assert forall|j: int| 0 <= j < changed.len() implies (#[trigger] changed[j]).parent_id
                != Some(changed[j].id) by {
                if j != i {
                    assert(changed[j] == rows[j]);
                }
            }
        }
        if moves_category(rows[i], category) {
            let order = sibling_ids(changed, rows[i].parent_id);
            assert forall|j: int| 0 <= j < after.categories@.len() implies (
            #[trigger] after.categories@[j]).parent_id != Some(after.categories@[j].id) by {
                assert(categories_numbered(changed, order)[j].id == changed[j].id);
                assert(categories_numbered(changed, order)[j].parent_id == changed[j].parent_id);
            }
        }
    }
}

/// A new category is not its own parent unless the request names, as the
/// parent, the very id that the category is about to get.
pub proof fn lemma_create_keeps_no_self_parent(
    before: Store,
    after: Store,
    category: CreateCategory<'_>,
    now: i64,
    r: Result<(), ServiceError>,
)
    requires
        add_category_post(before, after, category, now, r),
        no_self_parent(before.categories@),
        category.parent_id != Some((before.last_category_id + 1) as i64),
    ensures
        no_self_parent(after.categories@),
{
    if r is Ok {
        let rows = after.categories@;
        assert forall|j: int| 0 <= j < rows.len() implies (#[trigger] rows[j]).parent_id != Some(
            rows[j].id,
        ) by {
            if j < rows.len() - 1 {
                assert(rows[j] == rows.drop_last()[j]);
            }
        }
    }
}

/// Moving a site among the sites of its category takes no visit from any
/// site.
pub proof fn lemma_reorder_keeps_visits(
    before: Store,
    after: Store,
    id: i64,
    active_id: i64,
    over_id: Option<i64>,
    r: Result<(), ServiceError>,
)
    requires
        before.wf(),
        sort_category_sites_post(before, after, id, active_id, over_id, r),
    ensures
        visits_kept(before.sites@, after.sites@),
{
}

} // verus!
