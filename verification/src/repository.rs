//! The handle for the upstream REST data source. The requests themselves are
//! I/O and live with the caller; the core only carries the configured base
//! address.

use vstd::prelude::*;

verus! {

/// Where the worker and job collections are served from.
#[derive(Debug)]
pub struct RestRepositoryImpl {
    pub base_url: String,
}

impl RestRepositoryImpl {
    pub fn new(base_url: String) -> (r: RestRepositoryImpl)
        ensures
            r.base_url == base_url,
    {
        RestRepositoryImpl { base_url }
    }
}

} // verus!
