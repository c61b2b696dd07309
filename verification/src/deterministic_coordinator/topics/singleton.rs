//! Topics that exist once.
use vstd::prelude::*;

verus! {

pub const COORD_ALIVE: &'static str = "sim/coord/alive";

pub const NETWORK_CONTROL: &'static str = "sim/network/control";

} // verus!
