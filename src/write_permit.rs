use vstd::prelude::*;

verus! {

/// What a writer that holds a reservation may do, given the store's current
/// capacity.
#[derive(Debug, Clone, Copy, PartialEq, Eq, Structural)]
pub enum WritePermit {
    /// The reserved slots lie inside the current capacity.
    JustWrite,
    /// The reservation reaches the capacity boundary: this writer grows the
    /// store, then writes.
    GrowThenWrite,
    /// The reservation lies past the boundary: another writer must grow first.
    Spin,
}

/// The permit for one reserved index.
pub open spec fn permit_for_one(capacity: int, idx: int) -> WritePermit {
    if idx < capacity {
        WritePermit::JustWrite
    } else if idx == capacity {
        WritePermit::GrowThenWrite
    } else {
        WritePermit::Spin
    }
}

/// The permit for the reserved range `begin_idx..=last_idx`.
pub open spec fn permit_for_many(capacity: int, begin_idx: int, last_idx: int) -> WritePermit {
    if last_idx < capacity {
        WritePermit::JustWrite
    } else if begin_idx > capacity {
        WritePermit::Spin
    } else {
        WritePermit::GrowThenWrite
    }
}

impl WritePermit {
    /// Classifies the reservation of the single index `idx` against `capacity`.
    pub fn for_one(capacity: usize, idx: usize) -> (r: Self)
        ensures
            r == permit_for_one(capacity as int, idx as int),
    {
        if idx < capacity {
            WritePermit::JustWrite
        } else if idx == capacity {
            WritePermit::GrowThenWrite
        } else {
            WritePermit::Spin
        }
    }

    /// Classifies the reservation of the indices `begin_idx..=last_idx`
    /// against `capacity`.
    pub fn for_many(capacity: usize, begin_idx: usize, last_idx: usize) -> (r: Self)
        ensures
            r == permit_for_many(capacity as int, begin_idx as int, last_idx as int),
    {
        if last_idx < capacity {
            WritePermit::JustWrite
        } else if begin_idx > capacity {
            WritePermit::Spin
        } else {
            WritePermit::GrowThenWrite
        }
    }

    /// The same classification as `for_one`.
    pub fn new(capacity: usize, idx: usize) -> (r: Self)
        ensures
            r == permit_for_one(capacity as int, idx as int),
    {
        Self::for_one(capacity, idx)
    }
}

} // verus!
