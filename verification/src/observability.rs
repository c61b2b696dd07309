//! Marking what is recorded with the time of the simulation.
use vstd::prelude::*;

verus! {

/// What knows the time of the simulation.
pub trait VTimeProvider {
    fn current_vtime_ns(&self) -> u64;
}

/// A simulation whose time does not pass.
#[derive(Debug, Clone, Copy, PartialEq, Eq)]
pub struct DummyVTimeProvider;

impl VTimeProvider for DummyVTimeProvider {
    fn current_vtime_ns(&self) -> (r: u64)
        ensures
            r == 0,
    {
        0
    }
}

/// The time with which something is marked: none before the simulation starts. A time beyond the
/// range of signed numbers wraps around.
pub open spec fn mark_of(vtime_ns: u64) -> Option<i64> {
    if vtime_ns == 0 {
        None
    } else if vtime_ns <= i64::MAX {
        Some(vtime_ns as i64)
    } else {
        Some((vtime_ns - 0x1_0000_0000_0000_0000) as i64)
    }
}

/// The time with which something is marked.
pub fn vtime_mark(vtime_ns: u64) -> (r: Option<i64>)
    ensures
        r == mark_of(vtime_ns),
{
    if vtime_ns == 0 {
        None
    } else if vtime_ns <= i64::MAX as u64 {
        Some(vtime_ns as i64)
    } else {
        let above: u64 = vtime_ns - 0x8000_0000_0000_0000;
        Some(above as i64 + i64::MIN)
    }
}

} // verus!
