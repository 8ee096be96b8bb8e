use vstd::prelude::*;

verus! {

/// The inflated, recursive object monitor: the owning thread (if any)
/// and how many times it has acquired the lock.  The blocking itself —
/// waiting until the owner clears — is the caller's loop around
/// `lock`; this type is the state it decides on.
pub struct ObjectMonitor {
    pub owner: Option<u64>,
    pub recursion: u64,
}

impl ObjectMonitor {
    /// The monitor invariant: it is owned exactly while the recursion
    /// count is positive.
    pub open spec fn wf(self) -> bool {
        self.recursion > 0 <==> self.owner is Some
    }

    /// What one lock attempt by `thread` yields: the acquired state, or
    /// nothing when the attempt must wait for another owner.
    pub open spec fn spec_lock_step(self, thread: u64) -> Option<ObjectMonitor> {
        if self.owner is None {
            Some(ObjectMonitor { owner: Some(thread), recursion: 1 })
        } else if self.owner == Some(thread) {
            Some(ObjectMonitor { owner: self.owner, recursion: (self.recursion + 1) as u64 })
        } else {
            None
        }
    }

    /// The state after the owner releases once.
    pub open spec fn spec_unlock_step(self) -> ObjectMonitor {
        if self.recursion > 1 {
            ObjectMonitor { owner: self.owner, recursion: (self.recursion - 1) as u64 }
        } else {
            ObjectMonitor { owner: None, recursion: 0 }
        }
    }

    /// A fresh, unowned monitor.
    pub fn new() -> (r: ObjectMonitor)
        ensures
            r.owner is None,
            r.recursion == 0,
            r.wf(),
    {
        ObjectMonitor { owner: None, recursion: 0 }
    }

    /// Acquire the monitor for `thread`.  Returns whether the lock was
    /// taken: an unowned monitor is taken with count 1, a re-entry by
    /// the owner raises the count, and any other owner means the caller
    /// must wait and retry.
    pub fn lock(&mut self, thread: u64) -> (acquired: bool)
        requires
            old(self).wf(),
            old(self).recursion < u64::MAX,
        ensures
            final (self).wf(),
            match old(self).spec_lock_step(thread) {
                Some(m) => acquired && *final (self) == m,
                None => !acquired && *final (self) == *old(self),
            },
            acquired ==> final (self).owner == Some(thread),
    {
        match self.owner {
            None => {
                self.owner = Some(thread);
                self.recursion = 1;
                true
            },
            Some(holder) => {
                if holder == thread {
                    self.recursion = self.recursion + 1;
                    true
                } else {
                    false
                }
            },
        }
    }

    /// Acquire without waiting: the same decision as `lock`, with a
    /// `false` answer standing where `lock`'s caller would wait.
    pub fn try_lock(&mut self, thread: u64) -> (acquired: bool)
        requires
            old(self).wf(),
            old(self).recursion < u64::MAX,
        ensures
            final (self).wf(),
            match old(self).spec_lock_step(thread) {
                Some(m) => acquired && *final (self) == m,
                None => !acquired && *final (self) == *old(self),
            },
    {
        self.lock(thread)
    }

    /// Release one acquisition by the owner.  On the last release the
    /// monitor becomes unowned (and the caller wakes one waiter).
    pub fn unlock(&mut self, thread: u64)
        requires
            old(self).wf(),
            old(self).owner == Some(thread),
        ensures
            final (self).wf(),
            *final (self) == old(self).spec_unlock_step(),
            old(self).recursion > 1 ==> final (self).owner == Some(thread)
                && final (self).recursion == old(self).recursion - 1,
            old(self).recursion <= 1 ==> final (self).owner is None
                && final (self).recursion == 0,
    {
        if self.recursion > 1 {
            self.recursion = self.recursion - 1;
        } else {
            self.owner = None;
            self.recursion = 0;
        }
    }

    /// Whether some thread currently owns the monitor.
    pub fn check_lock(&self) -> (r: bool)
        ensures
            r == (self.owner is Some),
    {
        self.owner.is_some()
    }
}

impl Default for ObjectMonitor {
    /// The default monitor: unowned.
    fn default() -> (r: ObjectMonitor)
        ensures
            r.owner is None,
            r.recursion == 0,
            r.wf(),
    {
        ObjectMonitor::new()
    }
}

/// Mutual exclusion: while one thread owns the monitor, a lock attempt
/// by any other thread cannot acquire it.
pub proof fn lemma_only_owner_acquires(m: ObjectMonitor, other: u64)
    requires
        m.wf(),
        m.owner is Some,
        m.owner != Some(other),
    ensures
        m.spec_lock_step(other) is None,
{
}

/// The recursion count reflects nested acquisitions exactly: locking and
/// then unlocking returns the monitor to precisely its prior state.
pub proof fn lemma_lock_unlock_round_trip(m: ObjectMonitor, thread: u64)
    requires
        m.wf(),
        m.recursion < u64::MAX,
        m.spec_lock_step(thread) is Some,
    ensures
        m.spec_lock_step(thread).unwrap().spec_unlock_step() == m,
{
}

} // verus!
