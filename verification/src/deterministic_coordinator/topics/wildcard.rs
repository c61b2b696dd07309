//! Topics that match several others.
use vstd::prelude::*;

verus! {

pub const COORD_DONE_WILDCARD: &'static str = "sim/coord/*/done";

} // verus!
