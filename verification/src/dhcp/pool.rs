//! The range of addresses that may be handed out.

use std::collections::HashSet;
use vstd::prelude::*;

verus! {

broadcast use vstd::std_specs::hash::group_hash_axioms;

/// A range of addresses, and those of them that are taken.
pub struct IpPool {
    pub start: u32,
    pub end: u32,
    pub allocated: HashSet<u32>,
}

impl IpPool {
    /// The address lies in the range.
    pub open spec fn has(&self, ip: u32) -> bool {
        self.start <= ip <= self.end
    }

    /// The address can be handed out: in the range, not taken, not in quarantine.
    pub open spec fn free(&self, declined: Set<u32>, ip: u32) -> bool {
        self.has(ip) && !self.allocated@.contains(ip) && !declined.contains(ip)
    }

    /// Only addresses of the range are taken.
    pub open spec fn well_formed(&self) -> bool {
        forall|ip: u32| #[trigger] self.allocated@.contains(ip) ==> self.has(ip)
    }

    /// The pool of the addresses from `start` to `end`, both included, with none taken.
    pub fn new(start: u32, end: u32) -> (r: IpPool)
        ensures
            r.start == start,
            r.end == end,
            r.allocated@ == Set::<u32>::empty(),
            r.well_formed(),
    {
        IpPool { start, end, allocated: HashSet::new() }
    }

    /// Whether the address lies in the range.
    pub fn contains(&self, ip: u32) -> (r: bool)
        ensures
            r == self.has(ip),
    {
        self.start <= ip && ip <= self.end
    }

    /// Takes the lowest address that can be handed out; `declined` are those in quarantine.
    pub fn next_available(&mut self, declined: &HashSet<u32>) -> (r: Option<u32>)
        ensures
            final(self).start == old(self).start,
            final(self).end == old(self).end,
            match r {
                Some(ip) => {
                    &&& old(self).free(declined@, ip)
                    &&& forall|j: u32| #[trigger] old(self).free(declined@, j) ==> ip <= j
                    &&& final(self).allocated@ == old(self).allocated@.insert(ip)
                },
                None => {
                    &&& forall|j: u32| !#[trigger] old(self).free(declined@, j)
                    &&& final(self).allocated@ == old(self).allocated@
                },
            },
            old(self).well_formed() ==> final(self).well_formed(),
    {
        let mut next: u64 = self.start as u64;
        while next <= self.end as u64
            invariant
                *self == *old(self),
                self.start <= next,
                next <= u32::MAX + 1,
                forall|j: u32| #[trigger] self.free(declined@, j) ==> next <= j,
            decreases u32::MAX + 1 - next,
        {
            let ip: u32 = next as u32;
            if !self.allocated.contains(&ip) && !declined.contains(&ip) {
                self.allocated.insert(ip);
                return Some(ip);
            }
            assert(!self.free(declined@, ip));
            next += 1;
        }
        None
    }

    /// Takes the address, where it lies in the range.
    pub fn mark_allocated(&mut self, ip: u32)
        ensures
            final(self).start == old(self).start,
            final(self).end == old(self).end,
            final(self).allocated@ == (if old(self).has(ip) {
                old(self).allocated@.insert(ip)
            } else {
                old(self).allocated@
            }),
            old(self).well_formed() ==> final(self).well_formed(),
    {
        if self.start <= ip && ip <= self.end {
            self.allocated.insert(ip);
        }
    }

    /// Gives the address back.
    pub fn release(&mut self, ip: u32)
        ensures
            final(self).start == old(self).start,
            final(self).end == old(self).end,
            final(self).allocated@ == old(self).allocated@.remove(ip),
            old(self).well_formed() ==> final(self).well_formed(),
    {
        self.allocated.remove(&ip);
    }
}

} // verus!
