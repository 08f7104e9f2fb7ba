//! The version authority.
//!
//! Transactions observe monotonically increasing version numbers; an epoch
//! counter is bumped whenever the core state is rebuilt, so that a cache
//! built for one (version, epoch) pair can never be mistaken for a later
//! generation even if version numbers were ever recycled.

use vstd::prelude::*;

verus! {

/// Identifies the logical snapshot of all inputs a transaction observes.
/// Never decreases; never reused.
#[derive(Debug, Clone, Copy, PartialEq, Eq, Hash, Structural)]
pub struct VersionNumber {
    pub value: u64,
}

/// Generation counter incremented whenever the core state is rebuilt.
#[derive(Debug, Clone, Copy, PartialEq, Eq, Hash, Structural)]
pub struct VersionEpoch {
    pub value: u64,
}

/// Issues version numbers to new transactions and tracks the current epoch.
pub struct VersionTracker {
    current: VersionNumber,
    epoch: VersionEpoch,
}

impl VersionTracker {
    pub closed spec fn spec_current(self) -> VersionNumber {
        self.current
    }

    pub closed spec fn spec_epoch(self) -> VersionEpoch {
        self.epoch
    }

    pub fn new() -> (r: VersionTracker)
        ensures
            r.spec_current() == (VersionNumber { value: 0 }),
            r.spec_epoch() == (VersionEpoch { value: 0 }),
    {
        VersionTracker { current: VersionNumber { value: 0 }, epoch: VersionEpoch { value: 0 } }
    }

    pub fn current_version(&self) -> (r: VersionNumber)
        ensures
            r == self.spec_current(),
    {
        self.current
    }

    pub fn current_epoch(&self) -> (r: VersionEpoch)
        ensures
            r == self.spec_epoch(),
    {
        self.epoch
    }

    /// Hands out the next version number; versions strictly increase.
    pub fn next(&mut self) -> (r: VersionNumber)
        requires
            old(self).spec_current().value < u64::MAX,
        ensures
            r.value == old(self).spec_current().value + 1,
            final(self).spec_current() == r,
            final(self).spec_epoch() == old(self).spec_epoch(),
    {
        self.current = VersionNumber { value: self.current.value + 1 };
        self.current
    }

    /// Invalidates the current cache generation wholesale: any cache built
    /// for the previous epoch is stale from here on.
    pub fn bump_epoch(&mut self) -> (r: VersionEpoch)
        requires
            old(self).spec_epoch().value < u64::MAX,
        ensures
            r.value == old(self).spec_epoch().value + 1,
            final(self).spec_epoch() == r,
            final(self).spec_current() == old(self).spec_current(),
    {
        self.epoch = VersionEpoch { value: self.epoch.value + 1 };
        self.epoch
    }
}

} // verus!
