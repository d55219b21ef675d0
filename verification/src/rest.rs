//! The parameters of the requests of the REST interface.

use vstd::prelude::*;

verus! {

/// The most block identifiers that one request is answered with.
pub const MAX_COUNT: usize = 100;

/// The parameters of a request for the identifiers of the blocks that
/// follow a block.
#[derive(Debug)]
pub struct QueryParams {
    pub count: Option<usize>,
}

/// How many identifiers a request is answered with: as many as it asks for,
/// one if it does not say, and never more than `MAX_COUNT`.
pub open spec fn spec_count(count: Option<usize>) -> usize {
    let asked = match count {
        Some(n) => n,
        None => 1,
    };
    if asked <= MAX_COUNT {
        asked
    } else {
        MAX_COUNT
    }
}

impl QueryParams {
    /// How many identifiers the request is answered with.
    pub fn get_count(&self) -> (r: usize)
        ensures
            r == spec_count(self.count),
    {
        let asked = match self.count {
            Some(n) => n,
            None => 1,
        };
        if asked <= MAX_COUNT {
            asked
        } else {
            MAX_COUNT
        }
    }
}

} // verus!
