use vstd::prelude::*;

verus! {

/// Top bit of the counter word: set while a close request is pending.
pub const CLOSE_MASK: u64 = 0x8000_0000_0000_0000;

/// A heap that a collector can walk: it can list the direct address of
/// every object it holds and clear all of their mark bits.
pub trait VisitHeap {
    /// The direct addresses of the objects in this heap.
    spec fn spec_entries(&self) -> Seq<u64>;

    /// Whether the object at `entry` currently carries a mark.
    spec fn spec_is_marked(&self, entry: u64) -> bool;

    /// List every object's direct address.
    fn iter_entries(&self) -> (r: Vec<u64>)
        ensures
            r@ == self.spec_entries(),
    ;

    /// Clear the mark bit of every object, leaving the objects in place.
    fn unmark_heap(&mut self)
        ensures
            final (self).spec_entries() == old(self).spec_entries(),
            forall|e: u64| !final (self).spec_is_marked(e),
    ;
}

/// The safepoint gate: one word holding a close-requested bit (the top
/// bit) and a count of active readers (the remaining bits).  Mutators
/// hold a reader slot while they touch the heap; a collector closes the
/// gate and waits for the count to drain to zero.
pub struct AccessCounter {
    pub counter: u64,
}

impl AccessCounter {
    /// Whether a close request is currently pending.
    pub open spec fn close_requested(self) -> bool {
        self.counter >= CLOSE_MASK
    }

    /// The number of readers currently inside.
    pub open spec fn count(self) -> u64 {
        if self.close_requested() {
            (self.counter - CLOSE_MASK) as u64
        } else {
            self.counter
        }
    }

    /// The raw word, for stating laws about transitions.
    pub open spec fn word(self) -> u64 {
        self.counter
    }

    /// The counter after a close request is granted: same readers, close bit set.
    pub open spec fn spec_closed(self) -> AccessCounter {
        AccessCounter { counter: (self.counter + CLOSE_MASK) as u64 }
    }

    /// The counter after the close bit is released: same readers, bit clear.
    pub open spec fn spec_released(self) -> AccessCounter {
        AccessCounter { counter: (self.counter - CLOSE_MASK) as u64 }
    }

    /// The counter after one reader enters.
    pub open spec fn spec_entered(self) -> AccessCounter {
        AccessCounter { counter: (self.counter + 1) as u64 }
    }

    /// The counter after one reader leaves.
    pub open spec fn spec_exited(self) -> AccessCounter {
        AccessCounter { counter: (self.counter - 1) as u64 }
    }

    /// One attempt of the savepoint-aware entry: refused outright while a
    /// close is requested, and refused when the count would overflow.
    pub open spec fn spec_savepoint_step(self) -> Option<AccessCounter> {
        if self.close_requested() {
            None
        } else if self.count() < (CLOSE_MASK - 1) as u64 {
            Some(self.spec_entered())
        } else {
            None
        }
    }

    /// A fresh, open counter with no readers.
    pub fn new() -> (r: AccessCounter)
        ensures
            !r.close_requested(),
            r.count() == 0,
    {
        AccessCounter { counter: 0 }
    }

    /// Request that this counter be closed.  Only one closer may own the
    /// close bit at a time, so a pending request must have been released
    /// before another is made.
    pub fn request_close(&mut self)
        requires
            !old(self).close_requested(),
        ensures
            *final (self) == old(self).spec_closed(),
            final (self).close_requested(),
            final (self).count() == old(self).count(),
    {
        self.counter = self.counter + CLOSE_MASK;
    }

    /// Release a close request.  Only the closer that owns the bit calls this.
    pub fn release_close_request(&mut self)
        requires
            old(self).close_requested(),
        ensures
            *final (self) == old(self).spec_released(),
            !final (self).close_requested(),
            final (self).count() == old(self).count(),
    {
        self.counter = self.counter - CLOSE_MASK;
    }

    /// Wait until the counter is completely closed: close bit set and no
    /// reader left inside.  It does not initiate the close.
    pub fn block_until_closed(&self)
        requires
            self.close_requested(),
            self.count() == 0,
        ensures
            self.word() == CLOSE_MASK,
    {
    }

    /// Gain entry as a reader.  While a close is requested this call
    /// waits, so it is asked for only on an open counter.
    pub fn blocking_enter(&mut self)
        requires
            !old(self).close_requested(),
            old(self).count() < CLOSE_MASK - 1,
        ensures
            Some(*final (self)) == old(self).spec_savepoint_step(),
            !final (self).close_requested(),
            final (self).count() == old(self).count() + 1,
    {
        self.counter = self.counter + 1;
    }

    /// Gain entry even while a close is requested, provided at least one
    /// reader is still inside; a closed and drained counter must be
    /// respected, so that case waits and is asked for only when absent.
    pub fn forced_entry(&mut self)
        requires
            !(old(self).close_requested() && old(self).count() == 0),
            old(self).count() < CLOSE_MASK - 1,
        ensures
            *final (self) == old(self).spec_entered(),
            final (self).close_requested() == old(self).close_requested(),
            final (self).count() == old(self).count() + 1,
    {
        self.counter = self.counter + 1;
    }

    /// Leave the counter after finishing work.
    pub fn exit_counter(&mut self)
        requires
            old(self).count() >= 1,
        ensures
            *final (self) == old(self).spec_exited(),
            final (self).close_requested() == old(self).close_requested(),
            final (self).count() == old(self).count() - 1,
    {
        self.counter = self.counter - 1;
    }

    /// Close the counter, handing back the closer's token.
    pub fn close_counter(&mut self) -> (g: CloseGuard)
        requires
            !old(self).close_requested(),
        ensures
            *final (self) == old(self).spec_closed(),
            final (self).count() == old(self).count(),
    {
        self.request_close();
        CloseGuard {}
    }

    /// Enter as a reader, savepoint-aware: the preferred entry.  Running
    /// two overlapping entries of this kind on one thread can deadlock
    /// against that thread's own close request; nested entries use
    /// `increment` instead.
    pub fn increment_or_savepoint(&mut self) -> (g: IncrementGuard)
        requires
            !old(self).close_requested(),
            old(self).count() < CLOSE_MASK - 1,
        ensures
            Some(*final (self)) == old(self).spec_savepoint_step(),
            final (self).count() == old(self).count() + 1,
    {
        self.blocking_enter();
        IncrementGuard {}
    }

    /// Enter as a reader even under a pending close, for nested entries.
    pub fn increment(&mut self) -> (g: IncrementGuard)
        requires
            !(old(self).close_requested() && old(self).count() == 0),
            old(self).count() < CLOSE_MASK - 1,
        ensures
            *final (self) == old(self).spec_entered(),
            final (self).close_requested() == old(self).close_requested(),
            final (self).count() == old(self).count() + 1,
    {
        self.forced_entry();
        IncrementGuard {}
    }
}

impl Default for AccessCounter {
    /// The default counter: open, with no readers.
    fn default() -> (r: AccessCounter)
        ensures
            !r.close_requested(),
            r.count() == 0,
    {
        AccessCounter::new()
    }
}

/// Token held by a reader between entry and exit.
pub struct IncrementGuard {}

/// Token held by the closer between the close request and its release.
pub struct CloseGuard {}

impl CloseGuard {
    /// Wait until the counter the close was requested on is fully closed.
    pub fn block_until_closed(&self, counter: &AccessCounter)
        requires
            counter.close_requested(),
            counter.count() == 0,
        ensures
            counter.word() == CLOSE_MASK,
    {
        counter.block_until_closed()
    }
}

/// While a close is requested, the savepoint-aware entry can never
/// succeed: no reader slips in between the close and its release.
pub proof fn lemma_no_savepoint_entry_while_closed(c: AccessCounter)
    requires
        c.close_requested(),
    ensures
        c.spec_savepoint_step() is None,
{
}

/// Closing a counter and then releasing the close returns it to exactly
/// the word it held before: same readers, close bit clear.
pub proof fn lemma_close_release_round_trip(c: AccessCounter)
    requires
        !c.close_requested(),
    ensures
        c.spec_closed().spec_released() == c,
        c.spec_closed().close_requested(),
        c.spec_closed().count() == c.count(),
{
}

/// Entering and then leaving restores the counter word exactly.
pub proof fn lemma_enter_exit_round_trip(c: AccessCounter)
    requires
        c.count() < CLOSE_MASK - 1,
    ensures
        c.spec_entered().spec_exited() == c,
{
}

} // verus!
