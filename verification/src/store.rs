//! The tables of the service, held in memory.
//!
//! The handlers read and change a [`Store`]. Its three tables of the core are
//! the categories, the sites, and the association of sites with categories;
//! the accounts are the fourth. Ids are handed out by counting upwards, so an
//! id is never given twice.

use crate::models::category::Category;
use crate::models::category_site::CategorySite;
use crate::models::site::Site;
use crate::models::user::User;
use crate::text::same_text;
use vstd::prelude::*;

verus! {

/// The persistent state of the service.
pub struct Store {
    pub categories: Vec<Category>,
    pub sites: Vec<Site>,
    pub category_sites: Vec<CategorySite>,
    pub users: Vec<User>,
    /// The largest category id handed out so far.
    pub last_category_id: i64,
    /// The largest site id handed out so far.
    pub last_site_id: i64,
}

/// No two categories share an id.
pub open spec fn distinct_category_ids(rows: Seq<Category>) -> bool {
    forall|i: int, j: int|
        0 <= i < rows.len() && 0 <= j < rows.len() && i != j ==> (#[trigger] rows[i]).id != (
        #[trigger] rows[j]).id
}

/// No two sites share an id.
pub open spec fn distinct_site_ids(rows: Seq<Site>) -> bool {
    forall|i: int, j: int|
        0 <= i < rows.len() && 0 <= j < rows.len() && i != j ==> (#[trigger] rows[i]).id != (
        #[trigger] rows[j]).id
}

/// No two accounts share a user name.
pub open spec fn distinct_usernames(rows: Seq<User>) -> bool {
    forall|i: int, j: int|
        0 <= i < rows.len() && 0 <= j < rows.len() && i != j ==> (#[trigger] rows[i]).username@
            != (#[trigger] rows[j]).username@
}

/// Some category has this id.
pub open spec fn has_category(rows: Seq<Category>, id: i64) -> bool {
    exists|i: int| 0 <= i < rows.len() && (#[trigger] rows[i]).id == id
}

/// Some site has this id.
pub open spec fn has_site(rows: Seq<Site>, id: i64) -> bool {
    exists|i: int| 0 <= i < rows.len() && (#[trigger] rows[i]).id == id
}

/// Some account has this user name.
pub open spec fn has_user(rows: Seq<User>, username: Seq<char>) -> bool {
    exists|i: int| 0 <= i < rows.len() && (#[trigger] rows[i]).username@ == username
}

/// Some category has this name.
pub open spec fn name_taken(rows: Seq<Category>, name: Seq<char>) -> bool {
    exists|i: int| 0 <= i < rows.len() && (#[trigger] rows[i]).name@ == name
}

/// Some site is filed under the category.
pub open spec fn in_use(links: Seq<CategorySite>, category: i64) -> bool {
    exists|k: int| 0 <= k < links.len() && (#[trigger] links[k]).category_id == category
}

/// The site is filed under the category.
pub open spec fn is_filed(links: Seq<CategorySite>, category: i64, site: i64) -> bool {
    exists|k: int|
        0 <= k < links.len() && (#[trigger] links[k]).category_id == category && links[k].site_id
            == site
}

/// The scope of the categories filed under `parent`: the roots when `parent`
/// is `None`.
pub open spec fn category_scope(rows: Seq<Category>, parent: Option<i64>) -> Seq<bool> {
    Seq::new(rows.len(), |i: int| rows[i].parent_id == parent)
}

/// The sort orders of the categories, row by row.
pub open spec fn category_orders(rows: Seq<Category>) -> Seq<i64> {
    Seq::new(rows.len(), |i: int| rows[i].sort_order)
}

/// The ids of the categories, row by row.
pub open spec fn category_ids(rows: Seq<Category>) -> Seq<i64> {
    Seq::new(rows.len(), |i: int| rows[i].id)
}

/// The categories with the sort orders of the column `orders` in place of
/// their own.
pub open spec fn with_category_orders(rows: Seq<Category>, orders: Seq<i64>) -> Seq<Category> {
    Seq::new(rows.len(), |i: int| Category { sort_order: orders[i], ..rows[i] })
}

/// The ids of the sites, row by row.
pub open spec fn site_ids(rows: Seq<Site>) -> Seq<i64> {
    Seq::new(rows.len(), |i: int| rows[i].id)
}

/// The sites with the sort orders of the column `orders` in place of their
/// own.
pub open spec fn with_site_orders(rows: Seq<Site>, orders: Seq<i64>) -> Seq<Site> {
    Seq::new(rows.len(), |i: int| Site { sort_order: orders[i], ..rows[i] })
}

/// The scope of the sites filed under `category`.
pub open spec fn site_scope(rows: Seq<Site>, links: Seq<CategorySite>, category: i64) -> Seq<bool> {
    Seq::new(rows.len(), |i: int| is_filed(links, category, rows[i].id))
}

/// The sort orders of the sites, row by row.
pub open spec fn site_orders(rows: Seq<Site>) -> Seq<i64> {
    Seq::new(rows.len(), |i: int| rows[i].sort_order)
}

impl Store {
    /// The store is consistent: ids and user names identify their rows, and
    /// no id, in a row or in an association, is above the last one handed
    /// out.
    pub open spec fn wf(&self) -> bool {
        &&& distinct_category_ids(self.categories@)
        &&& distinct_site_ids(self.sites@)
        &&& distinct_usernames(self.users@)
        &&& forall|i: int|
            0 <= i < self.categories@.len() ==> (#[trigger] self.categories@[i]).id
                <= self.last_category_id
        &&& forall|i: int|
            0 <= i < self.sites@.len() ==> (#[trigger] self.sites@[i]).id <= self.last_site_id
        &&& forall|k: int|
            0 <= k < self.category_sites@.len() ==> (#[trigger] self.category_sites@[k]).site_id
                <= self.last_site_id
        &&& self.categories@.len() <= self.last_category_id
        &&& self.sites@.len() <= self.last_site_id
    }

    /// A store without rows. Every scope of it is empty, and so contiguous.
    pub fn new() -> (store: Store)
        ensures
            store.wf(),
            forall|parent: Option<i64>|
                crate::scope::contiguous(
                    #[trigger] category_scope(store.categories@, parent),
                    category_orders(store.categories@),
                ),
            forall|category: i64|
                crate::scope::contiguous(
                    #[trigger] site_scope(store.sites@, store.category_sites@, category),
                    site_orders(store.sites@),
                ),
            store.categories@.len() == 0,
            store.sites@.len() == 0,
            store.category_sites@.len() == 0,
            store.users@.len() == 0,
            store.last_category_id == 0,
            store.last_site_id == 0,
    {
        let store = Store {
            categories: Vec::new(),
            sites: Vec::new(),
            category_sites: Vec::new(),
            users: Vec::new(),
            last_category_id: 0,
            last_site_id: 0,
        };
        proof {
            assert forall|parent: Option<i64>|
                crate::scope::contiguous(
                    #[trigger] category_scope(store.categories@, parent),
                    category_orders(store.categories@),
                ) by {
                assert(crate::scope::count(category_scope(store.categories@, parent), 0) == 0);
            }
            assert forall|category: i64|
                crate::scope::contiguous(
                    #[trigger] site_scope(store.sites@, store.category_sites@, category),
                    site_orders(store.sites@),
                ) by {
                assert(crate::scope::count(
                    site_scope(store.sites@, store.category_sites@, category),
                    0,
                ) == 0);
            }
        }
        store
    }

    /// Finds the row of the category with this id.
    pub fn find_category(&self, id: i64) -> (r: Option<usize>)
        ensures
            match r {
                Some(i) => i < self.categories@.len() && self.categories@[i as int].id == id,
                None => !has_category(self.categories@, id),
            },
    {
        let mut i: usize = 0;
        while i < self.categories.len()
            invariant
                i <= self.categories@.len(),
                forall|j: int| 0 <= j < i ==> (#[trigger] self.categories@[j]).id != id,
            decreases self.categories@.len() - i,
        {
            if self.categories[i].id == id {
                return Some(i);
            }
            i += 1;
        }
        None
    }

    /// Finds the row of the site with this id.
    pub fn find_site(&self, id: i64) -> (r: Option<usize>)
        ensures
            match r {
                Some(i) => i < self.sites@.len() && self.sites@[i as int].id == id,
                None => !has_site(self.sites@, id),
            },
    {
        let mut i: usize = 0;
        while i < self.sites.len()
            invariant
                i <= self.sites@.len(),
                forall|j: int| 0 <= j < i ==> (#[trigger] self.sites@[j]).id != id,
            decreases self.sites@.len() - i,
        {
            if self.sites[i].id == id {
                return Some(i);
            }
            i += 1;
        }
        None
    }

    /// Finds the row of the account with this user name.
    pub fn find_user(&self, username: &str) -> (r: Option<usize>)
        ensures
            match r {
                Some(i) => i < self.users@.len() && self.users@[i as int].username@ == username@,
                None => !has_user(self.users@, username@),
            },
    {
        let mut i: usize = 0;
        while i < self.users.len()
            invariant
                i <= self.users@.len(),
                forall|j: int| 0 <= j < i ==> (#[trigger] self.users@[j]).username@ != username@,
            decreases self.users@.len() - i,
        {
            if same_text(self.users[i].username.as_str(), username) {
                return Some(i);
            }
            i += 1;
        }
        None
    }

    /// Tells whether a category with this name exists.
    pub fn category_named(&self, name: &str) -> (r: bool)
        ensures
            r == name_taken(self.categories@, name@),
    {
        let mut i: usize = 0;
        while i < self.categories.len()
            invariant
                i <= self.categories@.len(),
                forall|j: int| 0 <= j < i ==> (#[trigger] self.categories@[j]).name@ != name@,
            decreases self.categories@.len() - i,
        {
            if same_text(self.categories[i].name.as_str(), name) {
                return true;
            }
            i += 1;
        }
        false
    }

    /// Tells whether any site is filed under the category.
    pub fn category_in_use(&self, category: i64) -> (r: bool)
        ensures
            r == in_use(self.category_sites@, category),
    {
        let mut k: usize = 0;
        while k < self.category_sites.len()
            invariant
                k <= self.category_sites@.len(),
                forall|j: int|
                    0 <= j < k ==> (#[trigger] self.category_sites@[j]).category_id != category,
            decreases self.category_sites@.len() - k,
        {
            if self.category_sites[k].category_id == category {
                return true;
            }
            k += 1;
        }
        false
    }

    /// Tells whether the site is filed under the category.
    pub fn site_filed_under(&self, category: i64, site: i64) -> (r: bool)
        ensures
            r == is_filed(self.category_sites@, category, site),
    {
        let mut k: usize = 0;
        while k < self.category_sites.len()
            invariant
                k <= self.category_sites@.len(),
                forall|j: int|
                    0 <= j < k ==> !((#[trigger] self.category_sites@[j]).category_id == category
                        && self.category_sites@[j].site_id == site),
            decreases self.category_sites@.len() - k,
        {
            if self.category_sites[k].category_id == category && self.category_sites[k].site_id
                == site {
                return true;
            }
            k += 1;
        }
        false
    }

    /// The scope of the categories filed under `parent`, as a column.
    pub fn category_members(&self, parent: Option<i64>) -> (member: Vec<bool>)
        ensures
            member@ == category_scope(self.categories@, parent),
    {
        let mut member: Vec<bool> = Vec::new();
        let mut i: usize = 0;
        while i < self.categories.len()
            invariant
                i <= self.categories@.len(),
                member@.len() == i,
                forall|j: int|
                    0 <= j < i ==> member@[j] == ((#[trigger] self.categories@[j]).parent_id
                        == parent),
            decreases self.categories@.len() - i,
        {
            let inside = match (self.categories[i].parent_id, parent) {
                (Some(a), Some(b)) => a == b,
                (None, None) => true,
                _ => false,
            };
            member.push(inside);
            i += 1;
        }
        assert(member@ =~= category_scope(self.categories@, parent));
        member
    }

    /// The sort orders of the categories, as a column.
    pub fn category_sort_orders(&self) -> (orders: Vec<i64>)
        ensures
            orders@ == category_orders(self.categories@),
    {
        let mut orders: Vec<i64> = Vec::new();
        let mut i: usize = 0;
        while i < self.categories.len()
            invariant
                i <= self.categories@.len(),
                orders@.len() == i,
                forall|j: int| 0 <= j < i ==> orders@[j] == (#[trigger] self.categories@[j]).sort_order,
            decreases self.categories@.len() - i,
        {
            orders.push(self.categories[i].sort_order);
            i += 1;
        }
        assert(orders@ =~= category_orders(self.categories@));
        orders
    }

    /// The scope of the sites filed under `category`, as a column.
    pub fn site_members(&self, category: i64) -> (member: Vec<bool>)
        ensures
            member@ == site_scope(self.sites@, self.category_sites@, category),
    {
        let mut member: Vec<bool> = Vec::new();
        let mut i: usize = 0;
        while i < self.sites.len()
            invariant
                i <= self.sites@.len(),
                member@.len() == i,
                forall|j: int|
                    0 <= j < i ==> member@[j] == is_filed(
                        self.category_sites@,
                        category,
                        (#[trigger] self.sites@[j]).id,
                    ),
            decreases self.sites@.len() - i,
        {
            let inside = self.site_filed_under(category, self.sites[i].id);
            member.push(inside);
            i += 1;
        }
        assert(member@ =~= site_scope(self.sites@, self.category_sites@, category));
        member
    }

    /// The sort orders of the sites, as a column.
    pub fn site_sort_orders(&self) -> (orders: Vec<i64>)
        ensures
            orders@ == site_orders(self.sites@),
    {
        let mut orders: Vec<i64> = Vec::new();
        let mut i: usize = 0;
        while i < self.sites.len()
            invariant
                i <= self.sites@.len(),
                orders@.len() == i,
                forall|j: int| 0 <= j < i ==> orders@[j] == (#[trigger] self.sites@[j]).sort_order,
            decreases self.sites@.len() - i,
        {
            orders.push(self.sites[i].sort_order);
            i += 1;
        }
        assert(orders@ =~= site_orders(self.sites@));
        orders
    }

    /// The ids of the categories, as a column.
    pub fn category_id_column(&self) -> (ids: Vec<i64>)
        ensures
            ids@ == category_ids(self.categories@),
            self.wf() ==> ids@.no_duplicates(),
    {
        let mut ids: Vec<i64> = Vec::new();
        let mut i: usize = 0;
        while i < self.categories.len()
            invariant
                i <= self.categories@.len(),
                ids@.len() == i,
                forall|j: int| 0 <= j < i ==> ids@[j] == (#[trigger] self.categories@[j]).id,
            decreases self.categories@.len() - i,
        {
            ids.push(self.categories[i].id);
            i += 1;
        }
        assert(ids@ =~= category_ids(self.categories@));
        ids
    }

    /// The ids of the sites, as a column.
    pub fn site_id_column(&self) -> (ids: Vec<i64>)
        ensures
            ids@ == site_ids(self.sites@),
            self.wf() ==> ids@.no_duplicates(),
    {
        let mut ids: Vec<i64> = Vec::new();
        let mut i: usize = 0;
        while i < self.sites.len()
            invariant
                i <= self.sites@.len(),
                ids@.len() == i,
                forall|j: int| 0 <= j < i ==> ids@[j] == (#[trigger] self.sites@[j]).id,
            decreases self.sites@.len() - i,
        {
            ids.push(self.sites[i].id);
            i += 1;
        }
        assert(ids@ =~= site_ids(self.sites@));
        ids
    }

    /// Writes a column of sort orders into the categories.
    pub fn set_category_orders(&mut self, orders: &Vec<i64>)
        requires
            old(self).wf(),
            orders@.len() == old(self).categories@.len(),
        ensures
            final(self).wf(),
            final(self).categories@ == with_category_orders(old(self).categories@, orders@),
            final(self).sites == old(self).sites,
            final(self).category_sites == old(self).category_sites,
            final(self).users == old(self).users,
            final(self).last_category_id == old(self).last_category_id,
            final(self).last_site_id == old(self).last_site_id,
    {
        let mut i: usize = 0;
        while i < self.categories.len()
            invariant
                i <= self.categories@.len(),
                self.categories@.len() == old(self).categories@.len(),
                orders@.len() == self.categories@.len(),
                forall|j: int|
                    0 <= j < i ==> #[trigger] self.categories@[j] == with_category_orders(
                        old(self).categories@,
                        orders@,
                    )[j],
                forall|j: int|
                    i <= j < self.categories@.len() ==> #[trigger] self.categories@[j] == old(
                        self,
                    ).categories@[j],
                self.sites == old(self).sites,
                self.category_sites == old(self).category_sites,
                self.users == old(self).users,
                self.last_category_id == old(self).last_category_id,
                self.last_site_id == old(self).last_site_id,
            decreases self.categories@.len() - i,
        {
            self.categories[i].sort_order = orders[i];
            i += 1;
        }
        assert(self.categories@ =~= with_category_orders(old(self).categories@, orders@));
    }

    /// Writes a column of sort orders into the sites.
    pub fn set_site_orders(&mut self, orders: &Vec<i64>)
        requires
            old(self).wf(),
            orders@.len() == old(self).sites@.len(),
        ensures
            final(self).wf(),
            final(self).sites@ == with_site_orders(old(self).sites@, orders@),
            final(self).categories == old(self).categories,
            final(self).category_sites == old(self).category_sites,
            final(self).users == old(self).users,
            final(self).last_category_id == old(self).last_category_id,
            final(self).last_site_id == old(self).last_site_id,
    {
        let mut i: usize = 0;
        while i < self.sites.len()
            invariant
                i <= self.sites@.len(),
                self.sites@.len() == old(self).sites@.len(),
                orders@.len() == self.sites@.len(),
                forall|j: int|
                    0 <= j < i ==> #[trigger] self.sites@[j] == with_site_orders(
                        old(self).sites@,
                        orders@,
                    )[j],
                forall|j: int|
                    i <= j < self.sites@.len() ==> #[trigger] self.sites@[j] == old(self).sites@[j],
                self.categories == old(self).categories,
                self.category_sites == old(self).category_sites,
                self.users == old(self).users,
                self.last_category_id == old(self).last_category_id,
                self.last_site_id == old(self).last_site_id,
            decreases self.sites@.len() - i,
        {
            self.sites[i].sort_order = orders[i];
            i += 1;
        }
        assert(self.sites@ =~= with_site_orders(old(self).sites@, orders@));
    }

    /// Makes a store of the rows of the four tables. The last ids that were
    /// handed out are taken to be the largest ids that occur, and at least
    /// the number of rows.
    ///
    /// There is no store when two categories or two sites share an id, two
    /// accounts share a user name, or a table has more rows than there are
    /// ids.
    pub fn from_tables(
        categories: Vec<Category>,
        sites: Vec<Site>,
        category_sites: Vec<CategorySite>,
        users: Vec<User>,
    ) -> (r: Option<Store>)
        ensures
            match r {
                Some(store) => {
                    &&& store.wf()
                    &&& store.categories == categories
                    &&& store.sites == sites
                    &&& store.category_sites == category_sites
                    &&& store.users == users
                },
                None => !(distinct_category_ids(categories@) && distinct_site_ids(sites@)
                    && distinct_usernames(users@) && categories@.len() <= i64::MAX && sites@.len()
                    <= i64::MAX),
            },
    {
        if categories.len() as u64 > i64::MAX as u64 || sites.len() as u64 > i64::MAX as u64 {
            return None;
        }
        let mut store = Store {
            categories,
            sites,
            category_sites,
            users,
            last_category_id: 0,
            last_site_id: 0,
        };
        let category_ids = store.category_id_column();
        let site_ids = store.site_id_column();
        let mut linked: Vec<i64> = Vec::new();
        let mut k: usize = 0;
        while k < store.category_sites.len()
            invariant
                k <= store.category_sites@.len(),
                linked@.len() == k,
                forall|j: int|
                    0 <= j < k ==> linked@[j] == (#[trigger] store.category_sites@[j]).site_id,
            decreases store.category_sites@.len() - k,
        {
            linked.push(store.category_sites[k].site_id);
            k += 1;
        }
        let last_category_id = largest(&category_ids, store.categories.len() as i64);
        let last_site_id = largest(&linked, largest(&site_ids, store.sites.len() as i64));
        store.last_category_id = last_category_id;
        store.last_site_id = last_site_id;
        proof {
            assert forall|i: int| 0 <= i < store.categories@.len() implies (
            #[trigger] store.categories@[i]).id <= store.last_category_id by {
                assert(category_ids@[i] <= last_category_id);
            }
            assert forall|i: int| 0 <= i < store.sites@.len() implies (#[trigger] store.sites@[i]).id
                <= store.last_site_id by {
                assert(site_ids@[i] <= last_site_id);
            }
            assert forall|k: int| 0 <= k < store.category_sites@.len() implies (
            #[trigger] store.category_sites@[k]).site_id <= store.last_site_id by {
                assert(linked@[k] <= last_site_id);
            }
        }
        if store.is_consistent() {
            Some(store)
        } else {
            None
        }
    }

    /// Tells whether the store is consistent.
    pub fn is_consistent(&self) -> (r: bool)
        ensures
            r == self.wf(),
    {
        let category_ids = self.category_id_column();
        let site_ids = self.site_id_column();
        let mut linked: Vec<i64> = Vec::new();
        let mut k: usize = 0;
        while k < self.category_sites.len()
            invariant
                k <= self.category_sites@.len(),
                linked@.len() == k,
                forall|j: int| 0 <= j < k ==> linked@[j] == (#[trigger] self.category_sites@[j]).site_id,
            decreases self.category_sites@.len() - k,
        {
            linked.push(self.category_sites[k].site_id);
            k += 1;
        }
        let mut distinct_names = true;
        let mut a: usize = 0;
        while a < self.users.len()
            invariant
                a <= self.users@.len(),
                distinct_names <==> forall|i: int, j: int|
                    0 <= i < a && 0 <= j < self.users@.len() && i != j ==> (
                    #[trigger] self.users@[i]).username@ != (#[trigger] self.users@[j]).username@,
            decreases self.users@.len() - a,
        {
            let mut b: usize = 0;
            let mut clash = false;
            while b < self.users.len()
                invariant
                    b <= self.users@.len(),
                    a < self.users@.len(),
                    clash <==> exists|j: int|
                        0 <= j < b && j != a && (#[trigger] self.users@[j]).username@
                            == self.users@[a as int].username@,
                decreases self.users@.len() - b,
            {
                if b != a && same_text(
                    self.users[b].username.as_str(),
                    self.users[a].username.as_str(),
                ) {
                    clash = true;
                }
                b += 1;
            }
            if clash {
                distinct_names = false;
            }
            a += 1;
        }
        let r = distinct(&category_ids) && distinct(&site_ids) && distinct_names && at_most(
            &category_ids,
            self.last_category_id,
        ) && at_most(&site_ids, self.last_site_id) && at_most(&linked, self.last_site_id)
            && fits(self.categories.len(), self.last_category_id) && fits(
            self.sites.len(),
            self.last_site_id,
        );
        proof {
            assert(category_ids@.no_duplicates() <==> distinct_category_ids(self.categories@)) by {
                if category_ids@.no_duplicates() {
                    assert forall|i: int, j: int|
                        0 <= i < self.categories@.len() && 0 <= j < self.categories@.len() && i
                            != j implies (#[trigger] self.categories@[i]).id != (
                    #[trigger] self.categories@[j]).id by {
                        assert(category_ids@[i] != category_ids@[j]);
                    }
                }
            }
            assert(site_ids@.no_duplicates() <==> distinct_site_ids(self.sites@)) by {
                if site_ids@.no_duplicates() {
                    assert forall|i: int, j: int|
                        0 <= i < self.sites@.len() && 0 <= j < self.sites@.len() && i
                            != j implies (#[trigger] self.sites@[i]).id != (
                    #[trigger] self.sites@[j]).id by {
                        assert(site_ids@[i] != site_ids@[j]);
                    }
                }
            }
            assert((forall|i: int| 0 <= i < category_ids@.len() ==> category_ids@[i]
                <= self.last_category_id) <==> (forall|i: int|
                0 <= i < self.categories@.len() ==> (#[trigger] self.categories@[i]).id
                    <= self.last_category_id)) by {
                if forall|i: int|
                    0 <= i < self.categories@.len() ==> (#[trigger] self.categories@[i]).id
                        <= self.last_category_id {
                    assert forall|i: int| 0 <= i < category_ids@.len() implies category_ids@[i]
                        <= self.last_category_id by {
                        assert(self.categories@[i].id <= self.last_category_id);
                    }
                } else {
                    let i = choose|i: int|
                        0 <= i < self.categories@.len() && !((#[trigger] self.categories@[i]).id
                            <= self.last_category_id);
                    assert(category_ids@[i] > self.last_category_id);
                }
            }
            assert((forall|i: int| 0 <= i < site_ids@.len() ==> site_ids@[i] <= self.last_site_id)
                <==> (forall|i: int|
                0 <= i < self.sites@.len() ==> (#[trigger] self.sites@[i]).id
                    <= self.last_site_id)) by {
                if forall|i: int|
                    0 <= i < self.sites@.len() ==> (#[trigger] self.sites@[i]).id
                        <= self.last_site_id {
                    assert forall|i: int| 0 <= i < site_ids@.len() implies site_ids@[i]
                        <= self.last_site_id by {
                        assert(self.sites@[i].id <= self.last_site_id);
                    }
                } else {
                    let i = choose|i: int|
                        0 <= i < self.sites@.len() && !((#[trigger] self.sites@[i]).id
                            <= self.last_site_id);
                    assert(site_ids@[i] > self.last_site_id);
                }
            }
            assert((forall|i: int| 0 <= i < linked@.len() ==> linked@[i] <= self.last_site_id)
                <==> (forall|k: int|
                0 <= k < self.category_sites@.len() ==> (#[trigger] self.category_sites@[k]).site_id
                    <= self.last_site_id)) by {
                if forall|k: int|
                    0 <= k < self.category_sites@.len() ==> (
                    #[trigger] self.category_sites@[k]).site_id <= self.last_site_id {
                    assert forall|i: int| 0 <= i < linked@.len() implies linked@[i]
                        <= self.last_site_id by {
                        assert(self.category_sites@[i].site_id <= self.last_site_id);
                    }
                } else {
                    let k = choose|k: int|
                        0 <= k < self.category_sites@.len() && !((
                        #[trigger] self.category_sites@[k]).site_id <= self.last_site_id);
                    assert(linked@[k] > self.last_site_id);
                }
            }
            assert(distinct_names <==> distinct_usernames(self.users@));
        }
        r
    }
}

/// The largest of `floor` and the ids.
pub fn largest(ids: &Vec<i64>, floor: i64) -> (top: i64)
    ensures
        top >= floor,
        forall|i: int| 0 <= i < ids@.len() ==> ids@[i] <= top,
        top == floor || ids@.contains(top),
{
    let mut top = floor;
    let mut i: usize = 0;
    while i < ids.len()
        invariant
            i <= ids@.len(),
            top >= floor,
            forall|j: int| 0 <= j < i ==> ids@[j] <= top,
            top == floor || ids@.contains(top),
        decreases ids@.len() - i,
    {
        if ids[i] > top {
            top = ids[i];
            assert(ids@[i as int] == top);
        }
        i += 1;
    }
    top
}

/// Tells whether no id occurs twice.
pub fn distinct(ids: &Vec<i64>) -> (r: bool)
    ensures
        r == ids@.no_duplicates(),
{
    let mut a: usize = 0;
    while a < ids.len()
        invariant
            a <= ids@.len(),
            forall|i: int, j: int| 0 <= i < a && 0 <= j < ids@.len() && i != j ==> ids@[i] != ids@[j],
        decreases ids@.len() - a,
    {
        let mut b: usize = 0;
        while b < ids.len()
            invariant
                b <= ids@.len(),
                a < ids@.len(),
                forall|j: int| 0 <= j < b && j != a ==> ids@[j] != ids@[a as int],
            decreases ids@.len() - b,
        {
            if b != a && ids[b] == ids[a] {
                return false;
            }
            b += 1;
        }
        a += 1;
    }
    true
}

/// Tells whether no id lies above the bound.
pub fn at_most(ids: &Vec<i64>, bound: i64) -> (r: bool)
    ensures
        r == forall|i: int| 0 <= i < ids@.len() ==> ids@[i] <= bound,
{
    let mut i: usize = 0;
    while i < ids.len()
        invariant
            i <= ids@.len(),
            forall|j: int| 0 <= j < i ==> ids@[j] <= bound,
        decreases ids@.len() - i,
    {
        if ids[i] > bound {
            return false;
        }
        i += 1;
    }
    true
}

/// Tells whether a table of `len` rows can have `last` as its largest id.
pub fn fits(len: usize, last: i64) -> (r: bool)
    ensures
        r == (len <= last),
{
    last >= 0 && len as u64 <= last as u64
}

} // verus!
