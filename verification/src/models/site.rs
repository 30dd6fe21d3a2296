//! A bookmarked site: one row of the site table.

use vstd::prelude::*;

verus! {

/// A site as it is stored. `sort_order` places the site among the sites of
/// the category it is filed under; `visit_count` only ever grows. The two
/// timestamps are seconds since the Unix epoch.
#[derive(Debug, PartialEq, Eq)]
pub struct Site {
    pub id: i64,
    pub name: String,
    pub url: String,
    pub description: String,
    pub icon: String,
    pub sort_order: i64,
    pub visit_count: i64,
    pub created_at: i64,
    pub updated_at: i64,
}

impl Clone for Site {
    fn clone(&self) -> (copy: Self)
        ensures
            copy == *self,
    {
        Site {
            id: self.id,
            name: self.name.clone(),
            url: self.url.clone(),
            description: self.description.clone(),
            icon: self.icon.clone(),
            sort_order: self.sort_order,
            visit_count: self.visit_count,
            created_at: self.created_at,
            updated_at: self.updated_at,
        }
    }
}

} // verus!
