//! Permit accounting for the shared connection pool: every outbound call
//! holds one permit for its duration, and the number of permits out at once
//! never exceeds the configured capacity.
//!
//! This type is the bookkeeping of that bound. The surrounding process maps
//! each grant here to one in-flight request, so the invariant `in_flight <=
//! capacity` is the concurrency bound of the whole run.

use vstd::prelude::*;

verus! {

/// How many outbound calls may be in flight at once by default.
pub const DEFAULT_PERMITS: usize = 8;

/// A fixed-capacity pool of permits; one permit per in-flight call.
pub struct PermitPool {
    capacity: usize,
    in_flight: usize,
}

impl PermitPool {
    pub closed spec fn spec_capacity(&self) -> int {
        self.capacity as int
    }

    pub closed spec fn spec_in_flight(&self) -> int {
        self.in_flight as int
    }

    /// The concurrency bound: never more permits out than the capacity.
    pub open spec fn wf(&self) -> bool {
        self.spec_in_flight() <= self.spec_capacity()
    }

    pub fn new(capacity: usize) -> (r: PermitPool)
        ensures
            r.wf(),
            r.spec_capacity() == capacity,
            r.spec_in_flight() == 0,
    {
        PermitPool { capacity, in_flight: 0 }
    }

    /// Grants a permit exactly when one is free; a grant never pushes the
    /// count past the capacity.
    pub fn try_acquire(&mut self) -> (granted: bool)
        requires
            old(self).wf(),
        ensures
            final(self).wf(),
            final(self).spec_capacity() == old(self).spec_capacity(),
            granted == (old(self).spec_in_flight() < old(self).spec_capacity()),
            granted ==> final(self).spec_in_flight() == old(self).spec_in_flight() + 1,
            !granted ==> final(self).spec_in_flight() == old(self).spec_in_flight(),
    {
        if self.in_flight < self.capacity {
            self.in_flight = self.in_flight + 1;
            true
        } else {
            false
        }
    }

    /// Returns a permit to the pool; one call per grant, on every exit path.
    pub fn release(&mut self)
        requires
            old(self).wf(),
            old(self).spec_in_flight() > 0,
        ensures
            final(self).wf(),
            final(self).spec_capacity() == old(self).spec_capacity(),
            final(self).spec_in_flight() == old(self).spec_in_flight() - 1,
    {
        self.in_flight = self.in_flight - 1;
    }

    pub fn capacity(&self) -> (r: usize)
        ensures
            r == self.spec_capacity(),
    {
        self.capacity
    }

    pub fn in_flight(&self) -> (r: usize)
        ensures
            r == self.spec_in_flight(),
    {
        self.in_flight
    }
}

} // verus!
