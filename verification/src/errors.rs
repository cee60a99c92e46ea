//! The service-level error markers: a request naming an unknown entity, and a
//! failure of the upstream data source. The transport layer decides how each
//! is reported on the wire.

use vstd::prelude::*;

verus! {

/// The caller asked about a worker or job that does not exist.
#[derive(Debug)]
pub struct BadRequestError {}

impl BadRequestError {
    pub fn new() -> (r: BadRequestError)
        ensures
            r == (BadRequestError {  }),
    {
        BadRequestError {  }
    }
}

/// The upstream data source failed or returned something unreadable.
#[derive(Debug)]
pub struct ServerError {}

impl ServerError {
    pub fn new() -> (r: ServerError)
        ensures
            r == (ServerError {  }),
    {
        ServerError {  }
    }
}

} // verus!
