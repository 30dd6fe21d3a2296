//! The association of a site with the category it is filed under.

use vstd::prelude::*;

verus! {

/// One row of the join table: site `site_id` belongs to category
/// `category_id`.
#[derive(Debug, Clone, Copy, PartialEq, Eq)]
pub struct CategorySite {
    pub category_id: i64,
    pub site_id: i64,
}

} // verus!
