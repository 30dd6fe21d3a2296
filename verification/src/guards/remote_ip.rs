//! The address that a request came from, as the proxy in front of the
//! service reports it.

use crate::text::owned;
use vstd::prelude::*;

verus! {

/// The address of the client, where the proxy told it.
#[derive(Debug)]
pub struct Ip(pub(crate) Option<String>);

impl Ip {
    /// The address, where there is one.
    pub closed spec fn address(&self) -> Option<Seq<char>> {
        match self.0 {
            Some(text) => Some(text@),
            None => None,
        }
    }

    /// Reads the address off the value of the `CF-Connecting-IP` header. A
    /// request without that header has no address; it is let in all the
    /// same.
    pub fn from_header(header: Option<&str>) -> (ip: Ip)
        ensures
            match header {
                Some(value) => ip.address() == Some(value@),
                None => ip.address().is_none(),
            },
    {
        match header {
            Some(value) => Ip(Some(owned(value))),
            None => Ip(None),
        }
    }

    /// Hands the address out.
    pub fn into_inner(self) -> (address: Option<String>)
        ensures
            match address {
                Some(text) => self.address() == Some(text@),
                None => self.address().is_none(),
            },
    {
        self.0
    }
}

} // verus!
