//! The rules of the listings: which rows a search keeps, and which of them
//! a page shows.

use crate::errors::{ErrorView, ServiceError};
use crate::text::{contains, occurs_in, owned};
use vstd::prelude::*;

verus! {

/// A row with this name and description is kept by the search: always when
/// nothing is searched for, else when the text that is searched for occurs
/// in the name or in the description.
pub open spec fn is_found(name: Seq<char>, description: Seq<char>, search: Option<&str>) -> bool {
    match search {
        None => true,
        Some(text) => occurs_in(text@, name) || occurs_in(text@, description),
    }
}

/// Tells whether the search keeps a row with this name and description.
pub fn found(name: &str, description: &str, search: Option<&str>) -> (r: bool)
    ensures
        r == is_found(name@, description@, search),
{
    match search {
        None => true,
        Some(text) => contains(name, text) || contains(description, text),
    }
}

/// Where page number `page` of pages of `size` entries begins in a list of
/// `len` entries: after `page * size` entries, or at the end of the list when
/// it is shorter than that.
pub open spec fn page_start(len: int, page: int, size: int) -> int {
    if page * size < len {
        page * size
    } else {
        len
    }
}

/// Where that page ends: `size` entries after its beginning, or at the end
/// of the list.
pub open spec fn page_end(len: int, page: int, size: int) -> int {
    if page_start(len, page, size) + size < len {
        page_start(len, page, size) + size
    } else {
        len
    }
}

/// The entries of `list` on page number `page` when a page holds `size`
/// entries. Pages are counted from zero.
pub open spec fn page_of<T>(list: Seq<T>, page: int, size: int) -> Seq<T> {
    list.subrange(page_start(list.len() as int, page, size), page_end(list.len() as int, page, size))
}

/// Cuts one page out of a list.
///
/// Fails with `BadRequest` when the page number or the page size is
/// negative. A page beyond the end of the list is empty.
pub fn paginate<T>(list: Vec<T>, page: i64, size: i64) -> (r: Result<Vec<T>, ServiceError>)
    ensures
        match r {
            Ok(shown) => page >= 0 && size >= 0 && shown@ == page_of(
                list@,
                page as int,
                size as int,
            ),
            Err(e) => (page < 0 || size < 0) && e@ == ErrorView::BadRequest(
                "Invalid page or size"@,
            ),
        },
{
    if page < 0 || size < 0 {
        return Err(ServiceError::BadRequest(owned("Invalid page or size")));
    }
    let len = list.len();
    let wide_page: u128 = page as u128;
    let wide_size: u128 = size as u128;
    assert(wide_page * wide_size <= 0x7fff_ffff_ffff_ffff * 0x7fff_ffff_ffff_ffff) by (nonlinear_arith)
        requires
            wide_page <= 0x7fff_ffff_ffff_ffff,
            wide_size <= 0x7fff_ffff_ffff_ffff,
    ;
    let offset: u128 = wide_page * wide_size;
    let start: usize = if offset < len as u128 {
        offset as usize
    } else {
        len
    };
    let end: usize = if wide_size < (len - start) as u128 {
        start + size as usize
    } else {
        len
    };
    let mut rest = list;
    rest.truncate(end);
    let shown = rest.split_off(start);
    assert(shown@ =~= page_of(list@, page as int, size as int));
    Ok(shown)
}

} // verus!
