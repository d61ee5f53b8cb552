//! Sets of events on file descriptors.

use vstd::prelude::*;

verus! {

/// The descriptor can be read.
pub const EVENT_IN: u32 = 0x1;

/// The descriptor can be written.
pub const EVENT_OUT: u32 = 0x4;

/// The other side has hung up.
pub const EVENT_HANG_UP: u32 = 0x10;

/// The other side will not write any more.
pub const EVENT_READ_HANG_UP: u32 = 0x2000;

/// Only changes are reported.
pub const EVENT_EDGE_TRIGGERED: u32 = 0x8000_0000;

/// A set of events.
#[derive(Clone, Copy, Debug, PartialEq, Eq, Structural)]
pub struct EventSet {
    pub bits: u32,
}

impl EventSet {
    /// Every event of `mask` is in the set.
    pub open spec fn has(self, mask: u32) -> bool {
        self.bits & mask == mask
    }

    pub fn new(bits: u32) -> (r: EventSet)
        ensures
            r.bits == bits,
    {
        EventSet { bits }
    }

    /// Whether every event of `mask` is in the set.
    pub fn contains(&self, mask: u32) -> (r: bool)
        ensures
            r == self.has(mask),
    {
        self.bits & mask == mask
    }

    /// Whether the set holds no event.
    pub fn is_empty(&self) -> (r: bool)
        ensures
            r == (self.bits == 0),
    {
        self.bits == 0
    }
}

} // verus!
