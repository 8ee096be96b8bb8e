use vstd::prelude::*;
use vstd::arithmetic::div_mod::{
    lemma_fundamental_div_mod, lemma_fundamental_div_mod_converse_div,
    lemma_fundamental_div_mod_converse_mod, lemma_mod_bound,
};
use vstd::arithmetic::mul::lemma_mul_inequality;
use core::marker::PhantomData;
use crate::ptr::GcPtr;

verus! {

/// Number of slots in one reference-table block: a multiple of the page
/// size, as in the table this models.
pub const BLOCK_SIZE: usize = 4096;

/// Cap on the number of blocks, keeping every slot identifier well
/// inside the machine word on any supported target.
pub const MAX_BLOCKS: usize = 0x4_0000;

/// A slot holds one machine word: either the direct address of a live
/// object, or the encoded link to the next free slot.  Nothing in the
/// word itself tells the two apart — a slot is free exactly when the
/// free list reaches it.  A link is the successor's identifier plus one,
/// with zero standing for the end of the list.
pub open spec fn spec_link(id: int) -> u64 {
    (id + 1) as u64
}

/// One fixed-size block of slots.  Blocks are appended and never freed,
/// so slot identifiers stay stable for the table's lifetime.
pub struct RefTableBlock {
    pub first_id: usize,
    pub slots: Vec<u64>,
}

impl RefTableBlock {
    /// A block's shape: full-length, remembering its own base identifier.
    pub open spec fn block_wf(self) -> bool {
        self.slots@.len() == BLOCK_SIZE
    }

    /// A fresh block whose slots are chained to each other in order: each
    /// links to its neighbour, and the last carries the end-of-list link.
    pub fn new(first_id: usize) -> (r: RefTableBlock)
        requires
            first_id + BLOCK_SIZE < usize::MAX,
        ensures
            r.block_wf(),
            r.first_id == first_id,
            forall|j: int|
                0 <= j < BLOCK_SIZE - 1 ==> #[trigger] r.slots@[j] == spec_link(
                    first_id + j + 1,
                ),
            r.slots@[BLOCK_SIZE - 1] == 0,
    {
        let mut slots: Vec<u64> = Vec::new();
        let mut j: usize = 0;
        while j < BLOCK_SIZE - 1
            invariant
                first_id + BLOCK_SIZE < usize::MAX,
                0 <= j <= BLOCK_SIZE - 1,
                slots@.len() == j,
                forall|k: int|
                    0 <= k < j ==> #[trigger] slots@[k] == spec_link(first_id + k + 1),
            decreases BLOCK_SIZE - j,
        {
            slots.push((first_id + j + 2) as u64);
            j = j + 1;
        }
        slots.push(0);
        RefTableBlock { first_id, slots }
    }

    /// Rechain the block's tail onto `new_end` — the table's current
    /// head link — and return the link to this block's first slot, which
    /// becomes the new head.
    pub fn add_to_chain(&mut self, new_end: u64) -> (r: u64)
        requires
            old(self).block_wf(),
            old(self).first_id + BLOCK_SIZE < usize::MAX,
        ensures
            final (self).block_wf(),
            final (self).first_id == old(self).first_id,
            final (self).slots@ == old(self).slots@.update(BLOCK_SIZE - 1, new_end),
            r == spec_link(old(self).first_id as int),
    {
        let last: usize = BLOCK_SIZE - 1;
        self.slots[last] = new_end;
        self.first_id as u64 + 1
    }
}

/// The handle indirection table: an append-only sequence of fixed-size
/// blocks of slots, plus the head of a free list threaded through the
/// free slots themselves.  The ghost sequence `free` is the list that
/// the head and the links trace out: it contains exactly the free
/// slots, each once; every other slot is occupied.
pub struct RefTable<T> {
    pub blocks: Vec<RefTableBlock>,
    pub empty: u64,
    pub free: Ghost<Seq<usize>>,
    pub marker: PhantomData<T>,
}

impl<T> RefTable<T> {
    /// Total number of slots across all blocks.
    pub open spec fn n_slots(self) -> int {
        self.blocks@.len() * BLOCK_SIZE
    }

    /// The word currently stored in slot `id`.
    pub open spec fn slot_word(self, id: int) -> u64 {
        self.blocks@[id / (BLOCK_SIZE as int)].slots@[id % (BLOCK_SIZE as int)]
    }

    /// Every block is full-length and knows its base identifier.
    pub open spec fn blocks_wf(self) -> bool {
        &&& self.blocks@.len() <= MAX_BLOCKS
        &&& forall|k: int|
            0 <= k < self.blocks@.len() ==> (#[trigger] self.blocks@[k]).block_wf()
        &&& forall|k: int|
            0 <= k < self.blocks@.len() ==> (#[trigger] self.blocks@[k]).first_id == k
                * BLOCK_SIZE
    }

    /// The free list is exactly what the head and the stored links trace
    /// out: every entry is a real slot, no slot appears twice, the head
    /// matches the first entry, and each entry's word links to the next.
    pub open spec fn free_wf(self) -> bool {
        &&& forall|i: int| 0 <= i < self.free@.len() ==> #[trigger] self.free@[i] < self.n_slots()
        &&& forall|i: int, j: int|
            0 <= i < self.free@.len() && 0 <= j < self.free@.len() && i != j
                ==> self.free@[i] != self.free@[j]
        &&& self.empty == if self.free@.len() == 0 {
            0u64
        } else {
            spec_link(self.free@[0] as int)
        }
        &&& forall|i: int|
            0 <= i < self.free@.len() ==> #[trigger] self.slot_word(self.free@[i] as int) == (
            if i + 1 < self.free@.len() {
                spec_link(self.free@[i + 1] as int)
            } else {
                0u64
            })
    }

    /// The table invariant.
    pub open spec fn wf(self) -> bool {
        self.blocks_wf() && self.free_wf()
    }

    /// Whether slot `id` is free, i.e. on the free list.
    pub open spec fn spec_is_free(self, id: int) -> bool {
        exists|i: int| 0 <= i < self.free@.len() && self.free@[i] == id
    }

    /// A fresh table: one block, all of whose slots are free, in order.
    pub fn new() -> (r: RefTable<T>)
        ensures
            r.wf(),
            r.blocks@.len() == 1,
            r.free@.len() == BLOCK_SIZE,
            forall|i: int| 0 <= i < BLOCK_SIZE ==> #[trigger] r.free@[i] == i,
    {
        let first_block = RefTableBlock::new(0);
        let r = RefTable {
            blocks: vec![first_block],
            empty: 1,
            free: Ghost(Seq::new(BLOCK_SIZE as nat, |i: int| i as usize)),
            marker: PhantomData,
        };
        proof {
            assert forall|i: int| 0 <= i < r.free@.len() implies #[trigger] r.slot_word(
                r.free@[i] as int,
            ) == (if i + 1 < r.free@.len() {
                spec_link(r.free@[i + 1] as int)
            } else {
                0u64
            }) by {
                lemma_slot_coords(i, 0);
            }
        }
        r
    }

    /// Read the word stored in slot `id`.
    pub fn read_slot(&self, id: usize) -> (r: u64)
        requires
            self.blocks_wf(),
            id < self.n_slots(),
        ensures
            r == self.slot_word(id as int),
    {
        proof {
            lemma_slot_id_bounds(id as int, self.blocks@.len() as int);
        }
        let b: usize = id / BLOCK_SIZE;
        let s: usize = id % BLOCK_SIZE;
        self.blocks[b].slots[s]
    }

    /// Write a word into slot `id`, leaving every other slot unchanged.
    fn write_slot(&mut self, id: usize, w: u64)
        requires
            old(self).blocks_wf(),
            id < old(self).n_slots(),
        ensures
            final (self).blocks_wf(),
            final (self).blocks@.len() == old(self).blocks@.len(),
            final (self).empty == old(self).empty,
            final (self).free@ == old(self).free@,
            final (self).slot_word(id as int) == w,
            forall|j: int|
                0 <= j < old(self).n_slots() && j != id ==> #[trigger] final (self).slot_word(j)
                    == old(self).slot_word(j),
    {
        proof {
            lemma_slot_id_bounds(id as int, self.blocks@.len() as int);
        }
        let b: usize = id / BLOCK_SIZE;
        let s: usize = id % BLOCK_SIZE;
        self.blocks[b].slots[s] = w;
        proof {
            assert forall|j: int|
                0 <= j < old(self).n_slots() && j != id implies self.slot_word(j) == old(
                self,
            ).slot_word(j) by {
                lemma_slot_id_bounds(j, self.blocks@.len() as int);
                lemma_fundamental_div_mod(j, BLOCK_SIZE as int);
                lemma_fundamental_div_mod(id as int, BLOCK_SIZE as int);
            }
        }
    }

    /// Grow the table by one block.  The new block's slots are chained
    /// among themselves, its tail is linked onto the current head, and
    /// the head moves to the new block's first slot, so the whole block
    /// is prepended to the free list.  Existing slots are untouched.
    pub fn attempt_add_new_ref_block(&mut self)
        requires
            old(self).wf(),
            old(self).blocks@.len() + 1 <= MAX_BLOCKS,
        ensures
            final (self).wf(),
            final (self).blocks@.len() == old(self).blocks@.len() + 1,
            final (self).n_slots() == old(self).n_slots() + BLOCK_SIZE,
            final (self).free@ == Seq::new(
                BLOCK_SIZE as nat,
                |i: int| (old(self).n_slots() + i) as usize,
            ) + old(self).free@,
            forall|id: int|
                0 <= id < old(self).n_slots() ==> #[trigger] final (self).slot_word(id) == old(
                    self,
                ).slot_word(id),
    {
        proof {
            lemma_n_slots_bound(*self);
            lemma_mul_inequality(
                self.blocks@.len() as int,
                MAX_BLOCKS as int - 1,
                BLOCK_SIZE as int,
            );
        }
        let old_len: usize = self.blocks.len();
        let old_n: usize = old_len * BLOCK_SIZE;
        let mut new_block = RefTableBlock::new(old_n);
        let new_root: u64 = new_block.add_to_chain(self.empty);
        self.empty = new_root;
        self.blocks.push(new_block);
        self.free = Ghost(
            Seq::new(BLOCK_SIZE as nat, |i: int| (old_n + i) as usize) + self.free@,
        );
        proof {
            let t0 = *old(self);
            let f2 = self.free@;
            let n0 = t0.n_slots();
            // Old slots keep their block and word.
            assert forall|id: int| 0 <= id < n0 implies #[trigger] self.slot_word(id)
                == t0.slot_word(id) by {
                lemma_slot_id_bounds(id, t0.blocks@.len() as int);
            }
            // Every new free entry is chained to its successor, and the
            // block's tail carries the old head.
            assert forall|i: int| 0 <= i < f2.len() implies #[trigger] self.slot_word(
                f2[i] as int,
            ) == (if i + 1 < f2.len() {
                spec_link(f2[i + 1] as int)
            } else {
                0u64
            }) by {
                if i < BLOCK_SIZE {
                    lemma_slot_coords(i, old_len as int);
                    assert(f2[i] == n0 + i);
                    assert(self.slot_word(f2[i] as int) == self.blocks@[old_len as int].slots@[i]);
                } else {
                    assert(f2[i] == t0.free@[i - BLOCK_SIZE]);
                    lemma_slot_id_bounds(f2[i] as int, t0.blocks@.len() as int);
                }
            }
        }
    }

    /// Pop the head of the free list, growing the table first when the
    /// list is empty.  The slot returned is detached: it is no longer
    /// free, and nothing will hand it out again until it is freed.  No
    /// existing slot's word is rewritten.
    pub fn claim_slot(&mut self) -> (r: OpenRefSlot<T>)
        requires
            old(self).wf(),
            old(self).blocks@.len() + 1 <= MAX_BLOCKS,
        ensures
            final (self).wf(),
            r.slot < final (self).n_slots(),
            !final (self).spec_is_free(r.slot as int),
            forall|id: int|
                0 <= id < old(self).n_slots() ==> #[trigger] final (self).slot_word(id) == old(
                    self,
                ).slot_word(id),
            old(self).free@.len() > 0 ==> {
                &&& r.slot == old(self).free@[0]
                &&& final (self).free@ == old(self).free@.skip(1)
                &&& final (self).blocks@.len() == old(self).blocks@.len()
            },
            old(self).free@.len() == 0 ==> {
                &&& r.slot == old(self).n_slots()
                &&& final (self).free@ == Seq::new(
                    (BLOCK_SIZE - 1) as nat,
                    |i: int| (old(self).n_slots() + 1 + i) as usize,
                )
                &&& final (self).blocks@.len() == old(self).blocks@.len() + 1
            },
    {
        proof {
            lemma_n_slots_bound(*self);
        }
        if self.empty == 0 {
            proof {
                if self.free@.len() > 0 {
                    assert(self.empty == spec_link(self.free@[0] as int));
                }
            }
            self.attempt_add_new_ref_block();
        }
        let ghost tmid = *self;
        proof {
            lemma_n_slots_bound(tmid);
            assert(tmid.free@.len() > 0);
            assert(tmid.free@[0] < tmid.n_slots());
        }
        let head: u64 = self.empty;
        let id: usize = (head - 1) as usize;
        proof {
            assert(id == tmid.free@[0]);
        }
        let next: u64 = self.read_slot(id);
        self.empty = next;
        self.free = Ghost(self.free@.skip(1));
        proof {
            let fpost = self.free@;
            // The rest of the chain is untouched: each remaining entry
            // still links to its successor, one position along.
            assert forall|i: int| 0 <= i < fpost.len() implies #[trigger] self.slot_word(
                fpost[i] as int,
            ) == (if i + 1 < fpost.len() {
                spec_link(fpost[i + 1] as int)
            } else {
                0u64
            }) by {
                assert(fpost[i] == tmid.free@[i + 1]);
                assert(tmid.slot_word(tmid.free@[i + 1] as int) == (if i + 2 < tmid.free@.len() {
                    spec_link(tmid.free@[i + 2] as int)
                } else {
                    0u64
                }));
            }
            // The claimed slot is no longer on the list.
            assert forall|i: int| 0 <= i < fpost.len() implies fpost[i] != id by {
                assert(fpost[i] == tmid.free@[i + 1]);
            }
            // Words of pre-existing slots were never rewritten.
            assert forall|id2: int| 0 <= id2 < old(self).n_slots() implies #[trigger] self
                .slot_word(id2) == old(self).slot_word(id2) by {
                assert(tmid.slot_word(id2) == old(self).slot_word(id2));
            }
            if old(self).free@.len() == 0 {
                assert(self.free@ =~= Seq::new(
                    (BLOCK_SIZE - 1) as nat,
                    |i: int| (old(self).n_slots() + 1 + i) as usize,
                ));
            }
        }
        OpenRefSlot { slot: id, marker: PhantomData }
    }

    /// Link the given slots back into the free list as one prepended
    /// segment.  Only the collector calls this, at a safepoint: the
    /// slots must be real, distinct, and currently occupied, and no
    /// handle to them may be used afterwards.
    pub fn free_slots(&mut self, slots: &Vec<usize>)
        requires
            old(self).wf(),
            forall|i: int| 0 <= i < slots@.len() ==> #[trigger] slots@[i] < old(self).n_slots(),
            forall|i: int, j: int|
                0 <= i < slots@.len() && 0 <= j < slots@.len() && i != j ==> slots@[i]
                    != slots@[j],
            forall|i: int| 0 <= i < slots@.len() ==> !old(self).spec_is_free(slots@[i] as int),
        ensures
            final (self).wf(),
            final (self).blocks@.len() == old(self).blocks@.len(),
            final (self).free@ == slots@ + old(self).free@,
            forall|id: int|
                0 <= id < old(self).n_slots() && (forall|k: int|
                    0 <= k < slots@.len() ==> slots@[k] != id) ==> #[trigger] final (self).slot_word(
                    id,
                ) == old(self).slot_word(id),
    {
        let n: usize = slots.len();
        if n == 0 {
            proof {
                assert(slots@ + self.free@ =~= self.free@);
            }
            return ;
        }
        proof {
            lemma_n_slots_bound(*self);
        }
        let mut i: usize = 0;
        while i + 1 < n
            invariant
                0 <= i < n,
                n == slots@.len(),
                self.blocks_wf(),
                self.blocks@.len() == old(self).blocks@.len(),
                self.empty == old(self).empty,
                self.free@ == old(self).free@,
                old(self).wf(),
                forall|k: int| 0 <= k < n ==> #[trigger] slots@[k] < old(self).n_slots(),
                forall|k: int, l: int|
                    0 <= k < n && 0 <= l < n && k != l ==> slots@[k] != slots@[l],
                forall|k: int| 0 <= k < n ==> !old(self).spec_is_free(slots@[k] as int),
                forall|j: int|
                    0 <= j < i ==> #[trigger] self.slot_word(slots@[j] as int) == spec_link(
                        slots@[j + 1] as int,
                    ),
                forall|id: int|
                    0 <= id < old(self).n_slots() && (forall|k: int|
                        0 <= k < i ==> slots@[k] != id) ==> #[trigger] self.slot_word(id)
                        == old(self).slot_word(id),
            decreases n - i,
        {
            proof {
                lemma_n_slots_bound(*self);
            }
            let next_link: u64 = slots[i + 1] as u64 + 1;
            let target: usize = slots[i];
            self.write_slot(target, next_link);
            i = i + 1;
        }
        let ghost tmid = *self;
        let last: usize = slots[n - 1];
        let old_head: u64 = self.empty;
        self.write_slot(last, old_head);
        let ghost t3 = *self;
        self.empty = slots[0] as u64 + 1;
        self.free = Ghost(slots@ + self.free@);
        proof {
            let t0 = *old(self);
            let f2 = self.free@;
            // Words of slots outside the freed set are untouched: the
            // loop only wrote freed slots, and so did the final write.
            assert forall|id: int|
                0 <= id < t0.n_slots() && (forall|k: int|
                    0 <= k < slots@.len() ==> slots@[k] != id) implies #[trigger] self.slot_word(
                id,
            ) == t0.slot_word(id) by {
                assert(slots@[n - 1] != id);
                assert(tmid.slot_word(id) == t0.slot_word(id));
                assert(t3.slot_word(id) == tmid.slot_word(id));
                assert(self.slot_word(id) == t3.slot_word(id));
            }
            // The new list is chained correctly: the freed slots link to
            // one another, the last of them to the old head, and the old
            // chain is intact behind it.
            assert forall|i2: int| 0 <= i2 < f2.len() implies #[trigger] self.slot_word(
                f2[i2] as int,
            ) == (if i2 + 1 < f2.len() {
                spec_link(f2[i2 + 1] as int)
            } else {
                0u64
            }) by {
                if i2 < n - 1 {
                    assert(f2[i2] == slots@[i2]);
                    assert(slots@[i2] != slots@[n - 1]);
                    assert(tmid.slot_word(slots@[i2] as int) == spec_link(slots@[i2 + 1] as int));
                    assert(t3.slot_word(slots@[i2] as int) == tmid.slot_word(slots@[i2] as int));
                    assert(self.slot_word(slots@[i2] as int) == t3.slot_word(slots@[i2] as int));
                } else if i2 == n - 1 {
                    assert(f2[i2] == slots@[i2]);
                    assert(t3.slot_word(slots@[n - 1] as int) == old_head);
                    if t0.free@.len() > 0 {
                        assert(f2[i2 + 1] == t0.free@[0]);
                    }
                } else {
                    assert(f2[i2] == t0.free@[i2 - n]);
                    assert(!t0.spec_is_free(slots@[n - 1] as int));
                    assert(slots@[n - 1] != f2[i2]);
                    assert(tmid.slot_word(f2[i2] as int) == t0.slot_word(f2[i2] as int));
                    assert(t3.slot_word(f2[i2] as int) == tmid.slot_word(f2[i2] as int));
                    assert(self.slot_word(f2[i2] as int) == t3.slot_word(f2[i2] as int));
                    assert(t0.slot_word(t0.free@[i2 - n] as int) == (if i2 - n + 1
                        < t0.free@.len() {
                        spec_link(t0.free@[i2 - n + 1] as int)
                    } else {
                        0u64
                    }));
                }
            }
        }
    }
}

/// A slot freshly claimed from the table: detached from the free list,
/// not yet holding an object.  Assigning it writes the object's direct
/// address into the slot and hands back the handle.
pub struct OpenRefSlot<T> {
    pub slot: usize,
    pub marker: PhantomData<T>,
}

impl<T> OpenRefSlot<T> {
    /// Write the object's direct address into the claimed slot and turn
    /// it into a handle.  At most once per claimed slot; no other slot,
    /// and none of the free list, is touched.
    pub fn assign(self, table: &mut RefTable<T>, ptr: u64) -> (h: GcPtr<T>)
        requires
            old(table).wf(),
            self.slot < old(table).n_slots(),
            !old(table).spec_is_free(self.slot as int),
        ensures
            final (table).wf(),
            h.slot == self.slot,
            final (table).slot_word(self.slot as int) == ptr,
            final (table).blocks@.len() == old(table).blocks@.len(),
            final (table).free@ == old(table).free@,
            final (table).empty == old(table).empty,
            forall|id: int|
                0 <= id < old(table).n_slots() && id != self.slot ==> #[trigger] final (table).slot_word(
                    id,
                ) == old(table).slot_word(id),
    {
        table.write_slot(self.slot, ptr);
        proof {
            let f = table.free@;
            assert forall|i: int| 0 <= i < f.len() implies #[trigger] table.slot_word(f[i] as int)
                == (if i + 1 < f.len() {
                spec_link(f[i + 1] as int)
            } else {
                0u64
            }) by {
                assert(f[i] != self.slot);
                assert(old(table).slot_word(f[i] as int) == (if i + 1 < f.len() {
                    spec_link(f[i + 1] as int)
                } else {
                    0u64
                }));
            }
        }
        GcPtr { slot: self.slot, marker: PhantomData }
    }
}

/// A link followed `steps` times from `link`: each step reads the slot
/// the link designates and continues with the word stored there.
pub open spec fn spec_follow<T>(t: RefTable<T>, link: u64, steps: nat) -> u64
    decreases steps,
{
    if steps == 0 {
        link
    } else if link == 0 {
        0
    } else {
        spec_follow(t, t.slot_word(link as int - 1), (steps - 1) as nat)
    }
}

/// Following the free list's links from position `j` for `k` steps lands
/// on position `j + k` of the list.
pub proof fn lemma_follow_from<T>(t: RefTable<T>, j: int, k: nat)
    requires
        t.wf(),
        0 <= j,
        j + k < t.free@.len(),
    ensures
        spec_follow(t, spec_link(t.free@[j] as int), k) == spec_link(t.free@[j + k] as int),
    decreases k,
{
    if k > 0 {
        assert(t.slot_word(t.free@[j] as int) == spec_link(t.free@[j + 1] as int));
        lemma_follow_from(t, j + 1, (k - 1) as nat);
    }
}

/// Every free slot is reachable from the free-list head by following the
/// stored links: the slot at position `i` is reached in exactly `i`
/// steps.  Together with the list's freedom from duplicates, each free
/// slot is reached exactly once.
pub proof fn lemma_free_reachable<T>(t: RefTable<T>, i: int)
    requires
        t.wf(),
        0 <= i < t.free@.len(),
    ensures
        spec_follow(t, t.empty, i as nat) == spec_link(t.free@[i] as int),
{
    lemma_follow_from(t, 0, i as nat);
}

/// A slot already claimed is never handed out again before it is freed:
/// a claimed slot is off the free list, and every claim returns a slot
/// that was still on it, so the two always differ.
pub proof fn lemma_claimed_slots_distinct<T>(t: RefTable<T>, s1: int, s2: int)
    requires
        !t.spec_is_free(s1),
        t.spec_is_free(s2),
    ensures
        s1 != s2,
{
}

/// The table never exceeds 2^30 slots, so every identifier and link
/// fits comfortably in a machine word on any supported target.
pub proof fn lemma_n_slots_bound<T>(t: RefTable<T>)
    requires
        t.blocks_wf(),
    ensures
        t.n_slots() <= 0x4000_0000,
{
    lemma_mul_inequality(t.blocks@.len() as int, MAX_BLOCKS as int, BLOCK_SIZE as int);
}

/// Decompose a slot identifier into block and offset.
pub proof fn lemma_slot_id_bounds(id: int, n: int)
    requires
        0 <= id < n * BLOCK_SIZE,
        n >= 0,
    ensures
        0 <= id / (BLOCK_SIZE as int) < n,
        0 <= id % (BLOCK_SIZE as int) < BLOCK_SIZE,
        id == (id / (BLOCK_SIZE as int)) * BLOCK_SIZE + id % (BLOCK_SIZE as int),
{
    lemma_fundamental_div_mod(id, BLOCK_SIZE as int);
    lemma_mod_bound(id, BLOCK_SIZE as int);
    let q = id / (BLOCK_SIZE as int);
    if q >= n {
        lemma_mul_inequality(n, q, BLOCK_SIZE as int);
    }
    if q < 0 {
        lemma_mul_inequality(q, -1, BLOCK_SIZE as int);
    }
}

/// A slot at `k * BLOCK_SIZE + j` lies in block `k` at offset `j`.
pub proof fn lemma_slot_coords(j: int, k: int)
    requires
        0 <= j < BLOCK_SIZE,
        k >= 0,
    ensures
        (k * BLOCK_SIZE + j) / (BLOCK_SIZE as int) == k,
        (k * BLOCK_SIZE + j) % (BLOCK_SIZE as int) == j,
{
    lemma_fundamental_div_mod_converse_div(k * BLOCK_SIZE + j, BLOCK_SIZE as int, k, j);
    lemma_fundamental_div_mod_converse_mod(k * BLOCK_SIZE + j, BLOCK_SIZE as int, k, j);
}

} // verus!
