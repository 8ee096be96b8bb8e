use vstd::prelude::*;
use vstd::arithmetic::div_mod::{lemma_mod_multiples_basic, lemma_add_mod_noop};
use crate::layout::lemma_mod_of_multiple;

verus! {

// Regions of the hotspot mark word.
pub const LOCK_BITS: u64 = 0b0000_0011;
pub const BIASED_BITS: u64 = 0b0000_0100;
pub const AGE_BITS: u64 = 0b0111_1000;

// Lock states, encoded in the low two bits of the word.
pub const LOCKED: u64 = 0b00;
pub const UNLOCKED: u64 = 0b01;
pub const MONITOR: u64 = 0b10;
pub const MARKED: u64 = 0b11;

// A whole word equal to zero is the transient inflation sentinel.
pub const INFLATING: u64 = 0;

/// Per-object mark state: one bit of a packed word that a collector
/// sets while tracing and clears when the cycle ends.  The word's other
/// bits belong to other uses, so the mark operations touch the low bit
/// alone and preserve the rest exactly.
pub trait MarkWord {
    /// The whole word the mark bit lives in.
    spec fn spec_word(&self) -> u64;

    /// Whether the mark bit — the word's low bit — is currently set.
    spec fn spec_marked(&self) -> bool;

    /// Get if mark is currently set.
    fn is_marked(&self) -> (r: bool)
        ensures
            r == self.spec_marked(),
            r == (self.spec_word() % 2 == 1),
    ;

    /// Enable the mark on this object and return if it was set prior.
    /// Every bit of the word above the mark is preserved.
    fn set_mark(&mut self) -> (r: bool)
        ensures
            final (self).spec_marked(),
            r == old(self).spec_marked(),
            final (self).spec_word() == (if old(self).spec_marked() {
                old(self).spec_word() as int
            } else {
                old(self).spec_word() + 1
            }),
    ;

    /// Remove the mark.  Every bit of the word above the mark is
    /// preserved, so a second removal leaves the word identical.
    fn unmark(&mut self)
        ensures
            !final (self).spec_marked(),
            final (self).spec_word() == old(self).spec_word() - old(self).spec_word() % 2,
    ;
}

/// The plain mark word: a single bit in a machine word, used while the
/// richer lock-carrying word is not needed.
pub struct TestMark {
    pub mark: u64,
}

impl TestMark {
    /// A fresh, unmarked word.
    pub fn new() -> (r: TestMark)
        ensures
            r.mark == 0,
            !r.spec_marked(),
    {
        TestMark { mark: 0 }
    }
}

impl Default for TestMark {
    /// The default word: unmarked.
    fn default() -> (r: TestMark)
        ensures
            r.mark == 0,
            !r.spec_marked(),
    {
        TestMark::new()
    }
}

impl MarkWord for TestMark {
    open spec fn spec_word(&self) -> u64 {
        self.mark
    }

    open spec fn spec_marked(&self) -> bool {
        self.mark % 2 == 1
    }

    fn is_marked(&self) -> (r: bool) {
        self.mark % 2 == 1
    }

    fn set_mark(&mut self) -> (r: bool) {
        if self.mark % 2 == 1 {
            true
        } else {
            self.mark = self.mark + 1;
            false
        }
    }

    fn unmark(&mut self) {
        self.mark = self.mark - self.mark % 2;
    }
}

/// A snapshot of a hotspot mark word, for reading its fields.
#[derive(Clone, Copy, PartialEq, Eq, Structural, Debug)]
pub struct HotspotMarkBits {
    pub bits: u64,
}

impl HotspotMarkBits {
    /// Whether this word is the transient inflation sentinel.
    pub fn inflating(self) -> (r: bool)
        ensures
            r == (self.bits == INFLATING),
    {
        self.bits == INFLATING
    }

    /// The word rewritten to the inflation sentinel.
    pub fn inflate(self) -> (r: HotspotMarkBits)
        ensures
            r.bits == INFLATING,
    {
        HotspotMarkBits { bits: INFLATING }
    }

    /// The pointer carried by a thin-locked or inflated word: everything
    /// above the two lock bits.
    pub fn ptr(self) -> (r: u64)
        ensures
            r == self.bits - self.bits % 4,
            r % 4 == 0,
    {
        proof {
            let b = self.bits as int;
            assert((b - b % 4) % 4 == 0) by (nonlinear_arith)
                requires b >= 0;
        }
        self.bits - self.bits % 4
    }

    /// The smallest power of two that covers every sub-field of the word
    /// below the pointer payload; pointers stored in the word must be
    /// aligned at least this much.
    pub fn min_alignment() -> (r: u64)
        ensures
            r == 128,
    {
        let usage: u64 = LOCK_BITS | AGE_BITS;
        proof {
            assert(LOCK_BITS | AGE_BITS == 123u64) by (bit_vector);
        }
        let mut p: u64 = 1;
        while p < usage
            invariant
                usage == 123,
                p == 1 || p == 2 || p == 4 || p == 8 || p == 16 || p == 32 || p == 64
                    || p == 128,
            decreases 128 - p,
        {
            p = p * 2;
        }
        p
    }
}

/// A per-thread stack of displaced mark words, used by thin locking.  A
/// thin-locked object's mark word points at the record entry that holds
/// its displaced word; recursive acquisitions push an indicator entry
/// whose stored word is zero.
pub trait LockRecord {
    /// The displaced words currently stored, oldest first.
    spec fn spec_words(&self) -> Seq<u64>;

    /// The base address of the record.
    spec fn spec_base(&self) -> u64;

    /// Entry `i` lives at the base plus one word per earlier entry.
    spec fn spec_entry_addr(&self, i: int) -> u64;

    /// Entries are word-aligned, start above the null page, and fit in
    /// the address space.
    spec fn lr_wf(&self) -> bool;

    /// Store a displaced word; returns the address of its entry, which is
    /// aligned to at least 8 so its low two bits read as `locked`.
    fn store(&mut self, value: u64) -> (r: u64)
        requires
            old(self).lr_wf(),
            old(self).spec_base() + 8 * old(self).spec_words().len() + 8 <= u64::MAX,
        ensures
            final (self).lr_wf(),
            final (self).spec_base() == old(self).spec_base(),
            final (self).spec_words() == old(self).spec_words().push(value),
            r == old(self).spec_entry_addr(old(self).spec_words().len() as int),
            r % 8 == 0,
            r % 4 == 0,
            r >= 8,
    ;

    /// Give back the most recent entry, identified by its address.
    fn forfeit(&mut self, ptr: u64)
        requires
            old(self).lr_wf(),
            old(self).spec_words().len() >= 1,
            ptr == old(self).spec_entry_addr(old(self).spec_words().len() - 1),
        ensures
            final (self).lr_wf(),
            final (self).spec_base() == old(self).spec_base(),
            final (self).spec_words() == old(self).spec_words().drop_last(),
    ;
}

/// The concrete lock record: a base address and the stack of stored words.
pub struct LockRecordStack {
    pub base: u64,
    pub words: Vec<u64>,
}

impl LockRecordStack {
    /// A fresh, empty record rooted at `base`.
    pub fn new(base: u64) -> (r: LockRecordStack)
        requires
            base % 8 == 0,
            base >= 8,
        ensures
            r.lr_wf(),
            r.spec_base() == base,
            r.spec_words() == Seq::<u64>::empty(),
    {
        LockRecordStack { base, words: Vec::new() }
    }

    /// Whether `ptr` is the address of one of this record's entries.
    pub fn holds_entry(&self, ptr: u64) -> (r: bool)
        requires
            self.lr_wf(),
        ensures
            r == exists|i: int|
                0 <= i < self.spec_words().len() && self.spec_entry_addr(i) == ptr,
    {
        let n: usize = self.words.len();
        let mut i: usize = 0;
        let mut found: bool = false;
        while i < n
            invariant
                n == self.spec_words().len(),
                self.lr_wf(),
                0 <= i <= n,
                found == exists|j: int| 0 <= j < i && self.spec_entry_addr(j) == ptr,
            decreases n - i,
        {
            let addr_i: u64 = self.base + 8 * (i as u64);
            proof {
                assert(self.spec_entry_addr(i as int) == addr_i);
            }
            if addr_i == ptr {
                found = true;
                proof {
                    assert(exists|j: int|
                        0 <= j < i + 1 && self.spec_entry_addr(j) == ptr) by {
                        assert(self.spec_entry_addr(i as int) == ptr);
                    }
                }
            }
            i = i + 1;
        }
        found
    }

    /// The most recently stored word.
    pub fn top_word(&self) -> (r: u64)
        requires
            self.lr_wf(),
            self.spec_words().len() >= 1,
        ensures
            r == self.spec_words().last(),
    {
        self.words[self.words.len() - 1]
    }
}

impl LockRecord for LockRecordStack {
    open spec fn spec_words(&self) -> Seq<u64> {
        self.words@
    }

    open spec fn spec_base(&self) -> u64 {
        self.base
    }

    open spec fn spec_entry_addr(&self, i: int) -> u64 {
        (self.base + 8 * i) as u64
    }

    open spec fn lr_wf(&self) -> bool {
        &&& self.base % 8 == 0
        &&& self.base >= 8
        &&& self.base + 8 * self.words@.len() <= u64::MAX
    }

    fn store(&mut self, value: u64) -> (r: u64) {
        let addr: u64 = self.base + 8 * (self.words.len() as u64);
        self.words.push(value);
        proof {
            lemma_mod_multiples_basic(old(self).words@.len() as int, 8);
            lemma_add_mod_noop(
                old(self).base as int,
                8 * old(self).words@.len() as int,
                8,
            );
            lemma_mod_of_multiple(addr as int, 4, 8);
        }
        addr
    }

    fn forfeit(&mut self, ptr: u64) {
        let _ = self.words.pop();
    }
}

/// What one attempt to lock an object's mark word did, and what the
/// caller must do next.
#[derive(Clone, Copy, PartialEq, Eq, Structural, Debug)]
pub enum LockAction {
    /// The thin lock was taken: the word now points at our record entry.
    AcquiredThin,
    /// We already held the thin lock; an indicator entry was pushed.
    AcquiredRecursive,
    /// Another owner holds the thin lock: the word was set to the
    /// inflation sentinel, and the caller must install a monitor.
    BeginInflate,
    /// The word is inflated: acquire the monitor at this address.
    EnterMonitor { monitor: u64 },
    /// The word was transiently held (inflating, or marked by a
    /// collector): reload and try again.
    Retry,
}

/// What an unlock did.
#[derive(Clone, Copy, PartialEq, Eq, Structural, Debug)]
pub enum UnlockAction {
    /// The displaced word was restored; the thin lock is free.
    ReleasedThin,
    /// An indicator entry was popped; we still hold the thin lock.
    ReleasedRecursive,
    /// The word is inflated: release the monitor at this address.
    ExitMonitor { monitor: u64 },
}

/// The hotspot-style mark word: mark, lock state and pointer payload
/// packed into one machine word.
pub struct HotspotMark {
    pub mark: u64,
}

impl HotspotMark {
    /// The low two bits: the lock state.
    pub open spec fn lock_bits(self) -> u64 {
        self.mark % 4
    }

    /// The word is the transient inflation sentinel.
    pub open spec fn is_inflating(self) -> bool {
        self.mark == INFLATING
    }

    /// No one holds the object.
    pub open spec fn is_unlocked(self) -> bool {
        self.lock_bits() == UNLOCKED
    }

    /// A thread's lock record entry is stored in the word.
    pub open spec fn is_thin_locked(self) -> bool {
        self.lock_bits() == LOCKED && !self.is_inflating()
    }

    /// An inflated monitor's address is stored in the word.
    pub open spec fn is_monitor(self) -> bool {
        self.lock_bits() == MONITOR
    }

    /// A collector transiently owns the word.
    pub open spec fn is_gc_marked(self) -> bool {
        self.lock_bits() == MARKED
    }

    /// The pointer payload: the word above the two lock bits.
    pub open spec fn ptr_payload(self) -> u64 {
        (self.mark - self.mark % 4) as u64
    }

    /// A fresh word: unlocked, unmarked, no payload.
    pub fn new() -> (r: HotspotMark)
        ensures
            r.mark == UNLOCKED,
            r.is_unlocked(),
    {
        HotspotMark { mark: UNLOCKED }
    }

    /// One attempt to lock the object, following the word's state:
    /// unlocked words take the thin lock by displacing the prior word
    /// into the lock record; a thin lock we already hold recurses by
    /// pushing an indicator; a thin lock held through another record
    /// begins inflation; an inflated word directs the caller to its
    /// monitor; a transient word asks for a retry.
    pub fn lock(&mut self, lock_record: &mut LockRecordStack) -> (act: LockAction)
        requires
            old(lock_record).lr_wf(),
            old(lock_record).base + 8 * old(lock_record).words@.len() + 8 <= u64::MAX,
        ensures
            final (lock_record).lr_wf(),
            final (lock_record).base == old(lock_record).base,
            old(self).is_inflating() ==> {
                &&& act == LockAction::Retry
                &&& *final (self) == *old(self)
                &&& final (lock_record).words@ == old(lock_record).words@
            },
            old(self).is_gc_marked() ==> {
                &&& act == LockAction::Retry
                &&& *final (self) == *old(self)
                &&& final (lock_record).words@ == old(lock_record).words@
            },
            old(self).is_unlocked() ==> {
                &&& act == LockAction::AcquiredThin
                &&& final (lock_record).words@ == old(lock_record).words@.push(
                    old(self).mark,
                )
                &&& final (self).mark == old(lock_record).spec_entry_addr(
                    old(lock_record).words@.len() as int,
                )
                &&& final (self).is_thin_locked()
            },
            old(self).is_thin_locked() ==> {
                if exists|i: int|
                    0 <= i < old(lock_record).words@.len()
                        && old(lock_record).spec_entry_addr(i) == old(self).mark {
                    &&& act == LockAction::AcquiredRecursive
                    &&& final (lock_record).words@ == old(lock_record).words@.push(0)
                    &&& *final (self) == *old(self)
                } else {
                    &&& act == LockAction::BeginInflate
                    &&& final (self).is_inflating()
                    &&& final (lock_record).words@ == old(lock_record).words@
                }
            },
            old(self).is_monitor() ==> {
                &&& act == (LockAction::EnterMonitor { monitor: old(self).ptr_payload() })
                &&& *final (self) == *old(self)
                &&& final (lock_record).words@ == old(lock_record).words@
            },
    {
        let prev_mark: u64 = self.mark;
        if prev_mark == INFLATING {
            return LockAction::Retry;
        }
        let bits: u64 = prev_mark % 4;
        if bits == UNLOCKED {
            // Store the current mark; the entry address ends in 00, so
            // writing it leaves the word in the `locked` state.
            let obj_ptr: u64 = lock_record.store(prev_mark);
            self.mark = obj_ptr;
            LockAction::AcquiredThin
        } else if bits == LOCKED {
            if lock_record.holds_entry(prev_mark) {
                // Recursive acquisition: an indicator entry, no change
                // to the word.
                let _ = lock_record.store(0);
                LockAction::AcquiredRecursive
            } else {
                // Another record owns the thin lock: begin inflation.
                self.mark = INFLATING;
                LockAction::BeginInflate
            }
        } else if bits == MONITOR {
            LockAction::EnterMonitor { monitor: prev_mark - bits }
        } else {
            // A collector transiently holds the word; it releases it
            // before the safepoint ends.
            LockAction::Retry
        }
    }

    /// Finish an inflation this thread began: store the monitor's
    /// address in the word.
    pub fn install_monitor(&mut self, monitor: u64)
        requires
            old(self).is_inflating(),
            monitor % 4 == 0,
            monitor >= 4,
            monitor + MONITOR <= u64::MAX,
        ensures
            final (self).mark == monitor + MONITOR,
            final (self).is_monitor(),
            final (self).ptr_payload() == monitor,
    {
        proof {
            let m = monitor as int;
            assert((m + 2) % 4 == 2) by (nonlinear_arith)
                requires m >= 0 && m % 4 == 0;
        }
        self.mark = monitor + MONITOR;
    }

    /// Reverse one `lock` step: pop the newest record entry and restore
    /// the displaced word, or hand the caller to the monitor.
    pub fn unlock(&mut self, lock_record: &mut LockRecordStack) -> (act: UnlockAction)
        requires
            old(lock_record).lr_wf(),
            old(self).is_thin_locked() || old(self).is_monitor(),
            old(self).is_thin_locked() ==> {
                &&& old(lock_record).words@.len() >= 1
                &&& (old(lock_record).words@.last() != 0 ==> old(self).mark == old(
                    lock_record,
                ).spec_entry_addr(old(lock_record).words@.len() - 1))
            },
        ensures
            final (lock_record).lr_wf(),
            final (lock_record).base == old(lock_record).base,
            old(self).is_monitor() ==> {
                &&& act == (UnlockAction::ExitMonitor { monitor: old(self).ptr_payload() })
                &&& *final (self) == *old(self)
                &&& final (lock_record).words@ == old(lock_record).words@
            },
            old(self).is_thin_locked() ==> {
                if old(lock_record).words@.last() == 0 {
                    &&& act == UnlockAction::ReleasedRecursive
                    &&& *final (self) == *old(self)
                    &&& final (lock_record).words@ == old(lock_record).words@.drop_last()
                } else {
                    &&& act == UnlockAction::ReleasedThin
                    &&& final (self).mark == old(lock_record).words@.last()
                    &&& final (lock_record).words@ == old(lock_record).words@.drop_last()
                }
            },
    {
        let bits: u64 = self.mark % 4;
        if bits == MONITOR {
            UnlockAction::ExitMonitor { monitor: self.mark - bits }
        } else {
            let top: u64 = lock_record.top_word();
            let addr: u64 = lock_record.base + 8 * (lock_record.words.len() as u64 - 1);
            lock_record.forfeit(addr);
            if top == 0 {
                UnlockAction::ReleasedRecursive
            } else {
                self.mark = top;
                UnlockAction::ReleasedThin
            }
        }
    }
}

} // verus!
