//! Query parameters of the search-style lookups.  Each carries the
//! optional filters its upstream search accepts, and digests them
//! into the parameter half of its cache key, so equal queries share
//! a cache entry and differing queries do not collide by key.

use crate::routes::DIGEST_INIT;
use crate::routes::mix_opt_str;
use crate::routes::mix_opt_u64;
use crate::routes::spec_mix_opt_str;
use crate::routes::spec_mix_opt_u64;
use vstd::prelude::*;

verus! {

/// The view of an optional string: its characters, if present.
pub open spec fn opt_chars(o: Option<String>) -> Option<Seq<char>> {
    match o {
        Some(s) => Some(s@),
        None => None,
    }
}

#[derive(Debug, Hash)]
pub struct CharacterSearchData {
    pub page: Option<u64>,
    pub name: Option<String>,
    pub world: Option<String>,
    pub data_center: Option<String>,
    pub race: Option<String>,
    pub clan: Option<String>,
    pub grand_company: Option<String>,
}

/// The digest of a character search's parameters, folding every
/// filter in declaration order.
pub open spec fn spec_character_search_hash(d: CharacterSearchData) -> u64 {
    spec_mix_opt_str(
        spec_mix_opt_str(
            spec_mix_opt_str(
                spec_mix_opt_str(
                    spec_mix_opt_str(
                        spec_mix_opt_str(
                            spec_mix_opt_u64(DIGEST_INIT, d.page),
                            opt_chars(d.name),
                        ),
                        opt_chars(d.world),
                    ),
                    opt_chars(d.data_center),
                ),
                opt_chars(d.race),
            ),
            opt_chars(d.clan),
        ),
        opt_chars(d.grand_company),
    )
}

impl CharacterSearchData {
    /// The parameter digest that forms the search's cache key.
    pub fn as_hash(&self) -> (h: u64)
        ensures
            h == spec_character_search_hash(*self),
    {
        let h = mix_opt_u64(DIGEST_INIT, &self.page);
        let h = mix_opt_str(h, &self.name);
        let h = mix_opt_str(h, &self.world);
        let h = mix_opt_str(h, &self.data_center);
        let h = mix_opt_str(h, &self.race);
        let h = mix_opt_str(h, &self.clan);
        mix_opt_str(h, &self.grand_company)
    }
}

#[derive(Debug, Hash)]
pub struct FreeCompanySearchData {
    pub page: Option<u64>,
    pub name: Option<String>,
    pub world: Option<String>,
    pub data_center: Option<String>,
    pub grand_company: Option<String>,
}

/// The digest of a free-company search's parameters.
pub open spec fn spec_free_company_search_hash(d: FreeCompanySearchData) -> u64 {
    spec_mix_opt_str(
        spec_mix_opt_str(
            spec_mix_opt_str(
                spec_mix_opt_str(spec_mix_opt_u64(DIGEST_INIT, d.page), opt_chars(d.name)),
                opt_chars(d.world),
            ),
            opt_chars(d.data_center),
        ),
        opt_chars(d.grand_company),
    )
}

impl FreeCompanySearchData {
    /// The parameter digest that forms the search's cache key.
    pub fn as_hash(&self) -> (h: u64)
        ensures
            h == spec_free_company_search_hash(*self),
    {
        let h = mix_opt_u64(DIGEST_INIT, &self.page);
        let h = mix_opt_str(h, &self.name);
        let h = mix_opt_str(h, &self.world);
        let h = mix_opt_str(h, &self.data_center);
        mix_opt_str(h, &self.grand_company)
    }
}

#[derive(Debug, Hash)]
pub struct LinkshellSearchData {
    pub page: Option<u64>,
    pub name: Option<String>,
    pub world: Option<String>,
    pub data_center: Option<String>,
}

/// The digest of a linkshell search's parameters.
pub open spec fn spec_linkshell_search_hash(d: LinkshellSearchData) -> u64 {
    spec_mix_opt_str(
        spec_mix_opt_str(
            spec_mix_opt_str(spec_mix_opt_u64(DIGEST_INIT, d.page), opt_chars(d.name)),
            opt_chars(d.world),
        ),
        opt_chars(d.data_center),
    )
}

impl LinkshellSearchData {
    /// The parameter digest that forms the search's cache key.
    pub fn as_hash(&self) -> (h: u64)
        ensures
            h == spec_linkshell_search_hash(*self),
    {
        let h = mix_opt_u64(DIGEST_INIT, &self.page);
        let h = mix_opt_str(h, &self.name);
        let h = mix_opt_str(h, &self.world);
        mix_opt_str(h, &self.data_center)
    }
}

} // verus!
