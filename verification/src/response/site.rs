//! Sites as they are listed.

use crate::models::site::Site as SiteModel;
use vstd::prelude::*;

verus! {

/// A site without its bookkeeping columns.
#[derive(Debug, PartialEq, Eq)]
pub struct Site {
    pub id: i64,
    pub name: String,
    pub url: String,
    pub description: String,
    pub icon: String,
    pub visit_count: i64,
}

/// A site together with the name of the category it is filed under.
#[derive(Debug, PartialEq, Eq)]
pub struct SiteWithCategory {
    pub id: i64,
    pub name: String,
    pub url: String,
    pub description: String,
    pub icon: String,
    pub category: String,
    pub visit_count: i64,
}

impl From<SiteModel> for Site {
    fn from(site: SiteModel) -> (r: Self) {
        Self {
            id: site.id,
            name: site.name,
            url: site.url,
            description: site.description,
            icon: site.icon,
            visit_count: site.visit_count,
        }
    }
}

impl vstd::std_specs::convert::FromSpecImpl<SiteModel> for Site {
    open spec fn obeys_from_spec() -> bool {
        true
    }

    open spec fn from_spec(site: SiteModel) -> Self {
        Site {
            id: site.id,
            name: site.name,
            url: site.url,
            description: site.description,
            icon: site.icon,
            visit_count: site.visit_count,
        }
    }
}

} // verus!
