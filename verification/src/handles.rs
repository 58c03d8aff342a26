//! Shared-ownership accounting for socket descriptors.
//!
//! A descriptor may be referenced at the same time by the reactor's
//! tracking table and by a continuation's captured state, so it uses
//! reference-counted shared ownership: the ledger here records how many
//! owners currently share each open descriptor. A descriptor is released —
//! and only then may actually be closed at the operating-system level —
//! when its last owner drops its share. Dropping one share while another
//! owner still holds one leaves the descriptor open for that owner.

use std::collections::HashMap;
use vstd::prelude::*;

verus! {

broadcast use vstd::std_specs::hash::group_hash_axioms;

/// The ledger: for each open descriptor, the number of owners sharing it.
pub struct HandleTable {
    counts: HashMap<i32, u64>,
}

impl HandleTable {
    /// Number of owners currently sharing `fd`; zero when it is not open.
    pub closed spec fn share_count(self, fd: i32) -> u64 {
        if self.counts@.contains_key(fd) {
            self.counts@[fd]
        } else {
            0u64
        }
    }

    /// A descriptor is open while at least one owner holds a share of it.
    pub open spec fn is_open(self, fd: i32) -> bool {
        self.share_count(fd) >= 1
    }

    /// Internal consistency: no entry records zero owners.
    pub closed spec fn wf(self) -> bool {
        forall|fd: i32| #[trigger] self.counts@.contains_key(fd) ==> self.counts@[fd] >= 1
    }

    /// An empty ledger: nothing is open.
    pub fn new() -> (r: Self)
        ensures
            r.wf(),
            forall|fd: i32| r.share_count(fd) == 0,
    {
        HandleTable { counts: HashMap::new() }
    }

    /// Adopt a descriptor that no owner holds yet, with a single share.
    pub fn register(&mut self, fd: i32)
        requires
            old(self).wf(),
            !old(self).is_open(fd),
        ensures
            final(self).wf(),
            final(self).share_count(fd) == 1,
            forall|f: i32| f != fd ==> final(self).share_count(f) == old(self).share_count(f),
    {
        self.counts.insert(fd, 1);
    }

    /// Record one more owner of an open descriptor.
    pub fn retain(&mut self, fd: i32)
        requires
            old(self).wf(),
            old(self).is_open(fd),
            old(self).share_count(fd) < u64::MAX,
        ensures
            final(self).wf(),
            final(self).share_count(fd) == old(self).share_count(fd) + 1,
            forall|f: i32| f != fd ==> final(self).share_count(f) == old(self).share_count(f),
    {
        let cur: u64 = match self.counts.get(&fd) {
            Some(c) => *c,
            None => unreached(),
        };
        self.counts.insert(fd, cur + 1);
    }

    /// Drop one owner's share of an open descriptor. Returns true exactly
    /// when that was the last share: the descriptor is then released and
    /// may be closed at the operating-system level. While another owner
    /// still holds a share, the descriptor stays open for that owner.
    pub fn release(&mut self, fd: i32) -> (released: bool)
        requires
            old(self).wf(),
            old(self).is_open(fd),
        ensures
            final(self).wf(),
            released <==> old(self).share_count(fd) == 1,
            final(self).share_count(fd) == old(self).share_count(fd) - 1,
            released ==> !final(self).is_open(fd),
            old(self).share_count(fd) >= 2 ==> !released && final(self).is_open(fd),
            forall|f: i32| f != fd ==> final(self).share_count(f) == old(self).share_count(f),
    {
        let cur: u64 = match self.counts.get(&fd) {
            Some(c) => *c,
            None => unreached(),
        };
        if cur == 1 {
            self.counts.remove(&fd);
            true
        } else {
            self.counts.insert(fd, cur - 1);
            false
        }
    }
}

} // verus!
