//! Categories as they are listed: flat, or nested into a tree.

use crate::models::category;
use vstd::prelude::*;

verus! {

/// A category in a listing, with the categories nested under it where the
/// listing is a tree and it has any.
#[derive(Debug, PartialEq, Eq)]
pub struct Category {
    pub id: i64,
    pub name: String,
    pub description: String,
    pub icon: String,
    pub parent_id: Option<i64>,
    pub children: Option<Vec<Category>>,
}

/// The mathematical content of a listed category and of everything nested
/// under it.
pub struct Node {
    pub id: i64,
    pub name: Seq<char>,
    pub description: Seq<char>,
    pub icon: Seq<char>,
    pub parent_id: Option<i64>,
    pub children: Option<Seq<Node>>,
}

/// The content of `c` and, level by level, of what is nested under it.
pub open spec fn content_of(c: Category) -> Node
    decreases c,
{
    Node {
        id: c.id,
        name: c.name@,
        description: c.description@,
        icon: c.icon@,
        parent_id: c.parent_id,
        children: match c.children {
            None => None,
            Some(v) => Some(
                Seq::new(
                    v@.len(),
                    |i: int|
                        if 0 <= i < v@.len() {
                            content_of(v@[i])
                        } else {
                            arbitrary()
                        },
                ),
            ),
        },
    }
}

impl View for Category {
    type V = Node;

    open spec fn view(&self) -> Node {
        content_of(*self)
    }
}

/// The contents of a list of listed categories.
pub open spec fn views(list: Seq<Category>) -> Seq<Node> {
    Seq::new(list.len(), |i: int| list[i]@)
}

/// The content of a listed category is that of its fields, and the content
/// of its children that of each child in turn.
pub proof fn lemma_view_of(c: Category)
    ensures
        c@.id == c.id,
        c@.name == c.name@,
        c@.description == c.description@,
        c@.icon == c.icon@,
        c@.parent_id == c.parent_id,
        c@.children == match c.children {
            None => None,
            Some(v) => Some(views(v@)),
        },
{
    if c.children is Some {
        let v = c.children->0;
        assert(c@.children->0 =~= views(v@));
    }
}

impl From<category::Category> for Category {
    fn from(category: category::Category) -> (r: Self) {
        Self {
            id: category.id,
            name: category.name,
            description: category.description,
            icon: category.icon,
            parent_id: category.parent_id,
            children: None,
        }
    }
}

impl vstd::std_specs::convert::FromSpecImpl<category::Category> for Category {
    open spec fn obeys_from_spec() -> bool {
        true
    }

    open spec fn from_spec(category: category::Category) -> Self {
        Category {
            id: category.id,
            name: category.name,
            description: category.description,
            icon: category.icon,
            parent_id: category.parent_id,
            children: None,
        }
    }
}

} // verus!
