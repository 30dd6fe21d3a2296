//! The bodies of the requests on sites.

use vstd::prelude::*;

verus! {

/// A new site and the category it is filed under.
#[derive(Debug)]
pub struct CreateSite<'r> {
    pub name: &'r str,
    pub url: &'r str,
    pub description: &'r str,
    pub icon: &'r str,
    pub category: i64,
}

/// A partial update. A field that is absent, or present but empty, leaves
/// the stored value as it is; `category`, where present, refiles the site.
#[derive(Debug)]
pub struct UpdateSite<'r> {
    pub name: Option<&'r str>,
    pub url: Option<&'r str>,
    pub description: Option<&'r str>,
    pub icon: Option<&'r str>,
    pub category: Option<i64>,
}

} // verus!
