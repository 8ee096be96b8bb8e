use vstd::prelude::*;
use crate::block::AllocationBlock;
use crate::layout::{
    ObjLayout, MAX_LAYOUT_SIZE, spec_round_up, lemma_align_eight_valid, lemma_align_divides,
    lemma_mod_of_multiple, lemma_valid_align_pos, valid_align,
};
use crate::{offset_for_align, spec_offset_for_align};

verus! {

/// Bytes consumed by a sequence of allocations: for each, the padding
/// inserted before it plus its widened, padded size.
pub open spec fn spec_used(allocs: Seq<(u64, u64)>) -> int
    decreases allocs.len(),
{
    if allocs.len() == 0 {
        0
    } else {
        spec_used(allocs.drop_last()) + allocs.last().0 + allocs.last().1
    }
}

/// The consumption of a sequence of allocations grows by the padding and
/// size of each allocation appended.
pub proof fn lemma_used_push(s: Seq<(u64, u64)>, x: (u64, u64))
    ensures
        spec_used(s.push(x)) == spec_used(s) + x.0 + x.1,
{
    assert(s.push(x).drop_last() =~= s);
}

/// Consumption is never negative.
pub proof fn lemma_used_nonneg(s: Seq<(u64, u64)>)
    ensures
        spec_used(s) >= 0,
    decreases s.len(),
{
    if s.len() > 0 {
        lemma_used_nonneg(s.drop_last());
    }
}

/// Consumption of one more prefix element adds that element's padding and size.
pub proof fn lemma_used_take_succ(s: Seq<(u64, u64)>, i: int)
    requires
        0 <= i < s.len(),
    ensures
        spec_used(s.take(i + 1)) == spec_used(s.take(i)) + s[i].0 + s[i].1,
{
    assert(s.take(i + 1).drop_last() =~= s.take(i));
    assert(s.take(i + 1).last() == s[i]);
}

/// Consumption grows with the prefix.
pub proof fn lemma_used_take_mono(s: Seq<(u64, u64)>, i: int, j: int)
    requires
        0 <= i <= j <= s.len(),
    ensures
        spec_used(s.take(i)) <= spec_used(s.take(j)),
    decreases j - i,
{
    if i < j {
        lemma_used_take_mono(s, i, j - 1);
        lemma_used_take_succ(s, j - 1);
    }
}

/// A whole sequence is its own prefix.
pub proof fn lemma_used_take_full(s: Seq<(u64, u64)>)
    ensures
        spec_used(s.take(s.len() as int)) == spec_used(s),
{
    assert(s.take(s.len() as int) =~= s);
}

/// The minimum alignment of a heap region's layout: a widened layout's
/// alignment is raised to at least this, and its size padded to align.
pub open spec fn spec_min_widened(layout: ObjLayout) -> ObjLayout {
    let a = if layout.align >= 8 {
        layout.align
    } else {
        8
    };
    ObjLayout { size: spec_round_up(layout.size, a) as u64, align: a }
}

/// Whether the widened layout still fits the address-space cap.
pub open spec fn spec_widen_fits(layout: ObjLayout) -> bool {
    spec_round_up(
        layout.size,
        if layout.align >= 8 {
            layout.align
        } else {
            8
        },
    ) <= MAX_LAYOUT_SIZE
}

/// A bump allocator over an owned memory block.  The cursor `remaining`
/// walks from the block's start towards its end; every allocation
/// advances it by the padding needed for alignment plus the widened
/// size, and records the object's start.
pub struct HeapRegion<R> {
    pub region: R,
    pub remaining: u64,
    pub objects: Vec<u64>,
    pub allocs: Ghost<Seq<(u64, u64)>>,
}

impl<R: AllocationBlock> HeapRegion<R> {
    /// The region invariant: the cursor stays inside the block, equals
    /// the start plus everything consumed so far, and every recorded
    /// object start sits exactly where its allocation placed it.
    pub open spec fn wf(self) -> bool {
        &&& self.region.block_wf()
        &&& self.region.spec_start() as int % 8 == 0
        &&& self.region.spec_start() + self.region.spec_len() <= u64::MAX
        &&& self.region.spec_start() <= self.remaining
        &&& self.remaining <= self.region.spec_start() + self.region.spec_len()
        &&& self.remaining == self.region.spec_start() + spec_used(self.allocs@)
        &&& self.objects@.len() == self.allocs@.len()
        &&& forall|i: int|
            0 <= i < self.allocs@.len() ==> #[trigger] self.objects@[i]
                == self.region.spec_start() + spec_used(self.allocs@.take(i))
                + self.allocs@[i].0
    }

    /// Bytes left between the cursor and the end of the block.
    pub open spec fn spec_remaining_space(self) -> int {
        self.region.spec_len() - (self.remaining - self.region.spec_start())
    }

    /// Everything the contents must be aligned to, at least: the word size.
    pub fn min_alignment() -> (r: u64)
        ensures
            r == 8,
    {
        8
    }

    /// Build a region over a block.  The block's start is word-aligned,
    /// so the cursor begins at the start itself.
    pub fn from_block(region: R) -> (r: HeapRegion<R>)
        requires
            region.block_wf(),
            region.spec_start() as int % 8 == 0,
            region.spec_start() + region.spec_len() <= u64::MAX,
        ensures
            r.wf(),
            r.region == region,
            r.remaining == region.spec_start(),
            r.objects@ == Seq::<u64>::empty(),
            r.allocs@ == Seq::<(u64, u64)>::empty(),
    {
        let start: u64 = region.start();
        HeapRegion {
            region,
            remaining: start,
            objects: Vec::new(),
            allocs: Ghost(Seq::empty()),
        }
    }

    /// Bytes still free in this region.
    pub fn remaining_space(&self) -> (r: u64)
        requires
            self.wf(),
        ensures
            r == self.spec_remaining_space(),
    {
        let start: u64 = self.region.start();
        let len: u64 = self.region.len();
        len - (self.remaining - start)
    }

    /// Allocate `layout` within this region: widen it to the region's
    /// minimum alignment, pad the size to align, pad the cursor to the
    /// alignment, and claim that many bytes.  Returns the object's start,
    /// or nothing exactly when the widened request does not fit in the
    /// space that is left.
    pub fn alloc_layout(&mut self, layout: ObjLayout) -> (r: Option<u64>)
        requires
            old(self).wf(),
            layout.valid(),
        ensures
            final (self).wf(),
            final (self).region == old(self).region,
            r is None <==> !spec_widen_fits(layout) || spec_min_widened(layout).size
                + spec_offset_for_align(old(self).remaining, spec_min_widened(layout).align)
                > old(self).spec_remaining_space(),
            match r {
                None => *final (self) == *old(self),
                Some(t) => ({
                    let w = spec_min_widened(layout);
                    let pad = spec_offset_for_align(old(self).remaining, w.align);
                    &&& t == old(self).remaining + pad
                    &&& t as int % w.align as int == 0
                    &&& t as int % layout.align as int == 0
                    &&& old(self).remaining <= t
                    &&& t + w.size <= old(self).region.spec_start()
                        + old(self).region.spec_len()
                    &&& final (self).remaining == t + w.size
                    &&& final (self).objects@ == old(self).objects@.push(t)
                    &&& final (self).allocs@ == old(self).allocs@.push((pad, w.size))
                }),
            },
    {
        proof {
            lemma_align_eight_valid();
        }
        let widened: ObjLayout = match layout.align_to(Self::min_alignment()) {
            None => {
                return None;
            },
            Some(l) => l.pad_to_align(),
        };
        proof {
            lemma_valid_align_pos(widened.align);
        }
        let pad: u64 = offset_for_align(self.remaining, widened.align);
        let space: u64 = self.remaining_space();
        if space < pad || space - pad < widened.size {
            return None;
        }
        let target: u64 = self.remaining + pad;
        self.remaining = target + widened.size;
        self.objects.push(target);
        proof {
            let ghost old_allocs = self.allocs@;
            lemma_used_push(old_allocs, (pad, widened.size));
        }
        self.allocs = Ghost(self.allocs@.push((pad, widened.size)));
        proof {
            let s = old(self).allocs@;
            let s2 = self.allocs@;
            lemma_used_push(s, (pad, widened.size));
            lemma_used_take_full(s);
            // Earlier objects sit where they already sat: the prefixes
            // they depend on are unchanged by the push.
            assert forall|i: int| 0 <= i < s.len() implies s2.take(i) =~= s.take(i) by {}
            assert(s2.take(s.len() as int) =~= s);
            // The new object's placement matches the invariant's formula.
            assert(self.objects@[s.len() as int] == target);
            // The requested alignment divides the widened alignment.
            lemma_align_divides(layout.align, widened.align);
            lemma_valid_align_pos(layout.align);
            lemma_mod_of_multiple(target as int, layout.align as int, widened.align as int);
        }
        Some(target)
    }
}

/// A heap that values can be pushed onto.  When space cannot be
/// allocated the value is handed back to the caller, who may trigger a
/// collection and retry.
pub trait Heap<T>: Sized {
    /// The heap's own invariant.
    spec fn heap_wf(&self) -> bool;

    /// Whether the heap currently has room for one more value.
    spec fn spec_can_push(&self) -> bool;

    /// The value stored at a direct address, if an object lives there.
    spec fn spec_value_at(&self, addr: u64) -> Option<T>;

    /// Create an initialized object on the heap by pushing a value; on
    /// success the result is the object's direct address.  If space can
    /// not be allocated, the value is returned to the caller unchanged.
    fn try_push_to_heap(&mut self, value: T) -> (r: Result<u64, T>)
        requires
            old(self).heap_wf(),
        ensures
            final (self).heap_wf(),
            match r {
                Ok(addr) => {
                    &&& old(self).spec_can_push()
                    &&& final (self).spec_value_at(addr) == Some(value)
                    &&& forall|a: u64|
                        a != addr ==> #[trigger] final (self).spec_value_at(a) == old(
                            self,
                        ).spec_value_at(a)
                },
                Err(v) => {
                    &&& !old(self).spec_can_push()
                    &&& v == value
                    &&& *final (self) == *old(self)
                },
            },
    ;
}

/// The region's accounting never exceeds its capacity: the bytes
/// consumed by all allocations — each widened, padded, and preceded by
/// its alignment padding — fit within the region's length.
pub proof fn lemma_region_within_capacity<R: AllocationBlock>(r: HeapRegion<R>)
    requires
        r.wf(),
    ensures
        spec_used(r.allocs@) <= r.region.spec_len(),
{
}

/// Distinct allocations from one region never overlap: an earlier
/// object's bytes end at or before a later object's start.
pub proof fn lemma_objects_disjoint<R: AllocationBlock>(r: HeapRegion<R>, i: int, j: int)
    requires
        r.wf(),
        0 <= i < j < r.objects@.len(),
    ensures
        r.objects@[i] + r.allocs@[i].1 <= r.objects@[j],
{
    let s = r.allocs@;
    lemma_used_take_succ(s, i);
    lemma_used_take_mono(s, i + 1, j);
}

/// Every allocated object lies inside its region, below the cursor.
pub proof fn lemma_object_in_region<R: AllocationBlock>(r: HeapRegion<R>, i: int)
    requires
        r.wf(),
        0 <= i < r.objects@.len(),
    ensures
        r.region.spec_start() <= r.objects@[i],
        r.objects@[i] + r.allocs@[i].1 <= r.remaining,
{
    let s = r.allocs@;
    lemma_used_nonneg(s.take(i));
    lemma_used_take_succ(s, i);
    lemma_used_take_mono(s, i + 1, s.len() as int);
    lemma_used_take_full(s);
}

} // verus!
