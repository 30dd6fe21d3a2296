//! A bookmark category: one row of the category table.

use vstd::prelude::*;

verus! {

/// A category as it is stored. `parent_id` is `None` for a root; `sort_order`
/// places the category among the categories that share its parent. The two
/// timestamps are seconds since the Unix epoch.
#[derive(Debug, PartialEq, Eq)]
pub struct Category {
    pub id: i64,
    pub name: String,
    pub description: String,
    pub icon: String,
    pub sort_order: i64,
    pub parent_id: Option<i64>,
    pub created_at: i64,
    pub updated_at: i64,
}

impl Clone for Category {
    fn clone(&self) -> (copy: Self)
        ensures
            copy == *self,
    {
        Category {
            id: self.id,
            name: self.name.clone(),
            description: self.description.clone(),
            icon: self.icon.clone(),
            sort_order: self.sort_order,
            parent_id: self.parent_id,
            created_at: self.created_at,
            updated_at: self.updated_at,
        }
    }
}

} // verus!
