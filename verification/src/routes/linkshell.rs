//! Query parameters of a linkshell lookup: a paged resource, so the
//! page joins the id in the cache key.

use crate::routes::DIGEST_INIT;
use crate::routes::mix;
use crate::routes::spec_mix;
use vstd::prelude::*;

verus! {

#[derive(Debug, Clone, Copy, PartialEq, Eq, Structural, Hash)]
pub struct LinkshellData {
    pub page: u64,
}

/// The digest of a linkshell lookup's parameters.
pub open spec fn spec_linkshell_hash(d: LinkshellData) -> u64 {
    spec_mix(DIGEST_INIT, d.page)
}

impl LinkshellData {
    /// The parameter digest that joins the id in the cache key.
    pub fn as_hash(&self) -> (h: u64)
        ensures
            h == spec_linkshell_hash(*self),
    {
        mix(DIGEST_INIT, self.page)
    }
}

} // verus!
