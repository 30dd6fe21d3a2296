//! The bodies of the requests on categories.

use vstd::prelude::*;

verus! {

/// A partial update. A field that is absent, or present but empty, leaves
/// the stored value as it is; `parent_id`, where present, moves the category.
#[derive(Debug)]
pub struct UpdateCategory<'r> {
    pub name: Option<&'r str>,
    pub description: Option<&'r str>,
    pub icon: Option<&'r str>,
    pub parent_id: Option<i64>,
}

/// A new category, a root when `parent_id` is `None`.
#[derive(Debug)]
pub struct CreateCategory<'r> {
    pub name: &'r str,
    pub description: &'r str,
    pub icon: &'r str,
    pub parent_id: Option<i64>,
}

/// A drag-and-drop move: `active` goes to the place of `over`. For a move
/// among categories `parent_id` names the scope.
#[derive(Debug)]
pub struct SortCategory {
    pub active: i64,
    pub over: Option<i64>,
    pub parent_id: Option<i64>,
}

} // verus!
