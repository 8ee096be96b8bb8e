use vstd::prelude::*;
use crate::block::OwnedMemoryBlock;
use crate::collect::VisitHeap;
use crate::layout::{ObjLayout, MAX_LAYOUT_SIZE, spec_round_up, valid_align, lemma_align_eight_valid, lemma_valid_align_pos, lemma_round_up_aligned};
use crate::mark::{MarkWord, TestMark};
use crate::region::{
    Heap, HeapRegion, lemma_object_in_region, spec_min_widened, spec_widen_fits,
};
use crate::{offset_for_align, spec_offset_for_align};

verus! {

/// Bytes taken by the fixed header stored before every object's data:
/// the allocation's layout, the mark word, and the trace dispatch.
pub const ANNOTATION_SIZE: u64 = 24;

/// Alignment of the header: one machine word.
pub const ANNOTATION_ALIGN: u64 = 8;

/// What a collector hands to `trace` implementations: it gathers the
/// slots of the handles an object owns.
pub struct TraceContext {
    pub visited: Vec<usize>,
}

impl TraceContext {
    /// A context that has visited nothing.
    pub fn new() -> (r: TraceContext)
        ensures
            r.visited@ == Seq::<usize>::empty(),
    {
        TraceContext { visited: Vec::new() }
    }

    /// Record one handle's slot.
    pub fn visit(&mut self, slot: usize)
        ensures
            final (self).visited@ == old(self).visited@.push(slot),
    {
        self.visited.push(slot);
    }
}

/// Implementors hand each handle they transitively own to the context.
pub trait Trace {
    /// Visit every handle this value owns.
    fn trace(&self, cxt: &mut TraceContext);
}

/// The fixed prefix written before every object: the full layout of the
/// allocation — header and data — and the object's mark word.
pub struct HeapAnnotation {
    pub layout: ObjLayout,
    pub mark: TestMark,
}

/// An annotated object as it sits in memory: the header first, then the
/// data it describes.
pub struct AnnotatedHeapData<T> {
    pub annotation: HeapAnnotation,
    pub data: T,
}

/// The alignment of a whole annotated allocation: the data's alignment,
/// raised to at least the header's.
pub open spec fn spec_wrap_align(d: ObjLayout) -> u64 {
    if d.align >= ANNOTATION_ALIGN {
        d.align
    } else {
        ANNOTATION_ALIGN
    }
}

/// Where the data begins, counted from the allocation's start: the
/// header, padded until the data's alignment is met.
pub open spec fn spec_data_offset(d: ObjLayout) -> int {
    spec_round_up(ANNOTATION_SIZE, d.align)
}

/// Header, padding and data together, before the final padding.
pub open spec fn spec_raw_size(d: ObjLayout) -> int {
    spec_data_offset(d) + d.size
}

/// Whether an annotated allocation for data of layout `d` fits the
/// address-space cap.
pub open spec fn spec_wrap_fits(d: ObjLayout) -> bool {
    &&& d.valid()
    &&& spec_raw_size(d) <= MAX_LAYOUT_SIZE
    &&& spec_round_up(spec_raw_size(d) as u64, spec_wrap_align(d)) <= MAX_LAYOUT_SIZE
}

/// The layout of a whole annotated allocation: header, padding, data,
/// padded to the raised alignment.
pub open spec fn spec_wrap_layout(d: ObjLayout) -> ObjLayout {
    ObjLayout {
        size: spec_round_up(spec_raw_size(d) as u64, spec_wrap_align(d)) as u64,
        align: spec_wrap_align(d),
    }
}

/// The wrapped layout is valid, word-aligned, at least a header long,
/// and is its own widening: the bump allocator takes it as it is.
pub proof fn lemma_wrap_layout_good(d: ObjLayout)
    requires
        spec_wrap_fits(d),
    ensures
        spec_wrap_layout(d).valid(),
        spec_wrap_layout(d).align >= 8,
        spec_wrap_layout(d).size >= ANNOTATION_SIZE,
        spec_widen_fits(spec_wrap_layout(d)),
        spec_min_widened(spec_wrap_layout(d)) == spec_wrap_layout(d),
{
    let w = spec_wrap_layout(d);
    lemma_valid_align_pos(d.align);
    lemma_align_eight_valid();
    assert(valid_align(w.align));
    lemma_round_up_aligned(spec_raw_size(d) as u64, spec_wrap_align(d));
    assert(w.size as int % w.align as int == 0);
}

/// The annotated entry that allocating `value` under data layout `d`
/// installs: the wrapped layout in the header, an unmarked word, and
/// the value itself.
pub open spec fn spec_new_entry<T>(d: ObjLayout, value: T) -> AnnotatedHeapData<T> {
    AnnotatedHeapData {
        annotation: HeapAnnotation { layout: spec_wrap_layout(d), mark: TestMark { mark: 0 } },
        data: value,
    }
}

/// The typed annotated heap: a bump region together with the annotated
/// objects living in it.  Every object carries the same data layout —
/// the heap is monomorphic in `T` — and its annotation records the full
/// wrapped layout, so a sweep can size objects without dispatching.
pub struct AnnotatedMixedHeap<T> {
    pub data_layout: ObjLayout,
    pub region: HeapRegion<OwnedMemoryBlock>,
    pub objects: Vec<(u64, AnnotatedHeapData<T>)>,
}

impl<T> AnnotatedMixedHeap<T> {
    /// The heap invariant: the region is sound, each recorded object
    /// sits at its allocation's data offset, its annotation carries the
    /// wrapped layout, each allocation is exactly one wrapped object,
    /// and no two objects share an address.
    pub open spec fn wf(self) -> bool {
        &&& self.region.wf()
        &&& spec_wrap_fits(self.data_layout)
        &&& self.objects@.len() == self.region.objects@.len()
        &&& forall|i: int|
            0 <= i < self.objects@.len() ==> (#[trigger] self.objects@[i]).0
                == self.region.objects@[i] + spec_data_offset(self.data_layout)
        &&& forall|i: int|
            0 <= i < self.objects@.len() ==> (#[trigger] self.objects@[i]).1.annotation.layout
                == spec_wrap_layout(self.data_layout)
        &&& forall|i: int|
            0 <= i < self.region.allocs@.len() ==> (#[trigger] self.region.allocs@[i]).1
                == spec_wrap_layout(self.data_layout).size
        &&& forall|i: int, j: int|
            0 <= i < self.objects@.len() && 0 <= j < self.objects@.len() && i != j
                ==> self.objects@[i].0 != self.objects@[j].0
    }

    /// Whether an object lives at direct address `addr`.
    pub open spec fn has_object(self, addr: u64) -> bool {
        exists|i: int| 0 <= i < self.objects@.len() && self.objects@[i].0 == addr
    }

    /// The index of the object at `addr`.
    pub open spec fn spec_index_of(self, addr: u64) -> int {
        choose|i: int| 0 <= i < self.objects@.len() && self.objects@[i].0 == addr
    }

    /// The value stored at `addr`.
    pub open spec fn spec_value(self, addr: u64) -> T {
        self.objects@[self.spec_index_of(addr)].1.data
    }

    /// The layout recorded in the annotation at `addr`.
    pub open spec fn spec_layout_of(self, addr: u64) -> ObjLayout {
        self.objects@[self.spec_index_of(addr)].1.annotation.layout
    }

    /// Whether the object at `addr` carries a mark.
    pub open spec fn spec_marked(self, addr: u64) -> bool {
        self.objects@[self.spec_index_of(addr)].1.annotation.mark.spec_marked()
    }

    /// Whether one more wrapped object fits the region.
    pub open spec fn spec_can_alloc(self) -> bool {
        spec_wrap_layout(self.data_layout).size + spec_offset_for_align(
            self.region.remaining,
            spec_wrap_layout(self.data_layout).align,
        ) <= self.region.spec_remaining_space()
    }

    /// The total layout of one annotated allocation for data of layout
    /// `data_layout`: what the typed allocation path hands to the bump
    /// allocator.
    pub fn wrap_layout(data_layout: ObjLayout) -> (r: ObjLayout)
        requires
            spec_wrap_fits(data_layout),
        ensures
            r == spec_wrap_layout(data_layout),
            r.valid(),
    {
        proof {
            lemma_valid_align_pos(data_layout.align);
            lemma_wrap_layout_good(data_layout);
        }
        let off: u64 = offset_for_align(ANNOTATION_SIZE, data_layout.align);
        let raw: u64 = ANNOTATION_SIZE + off + data_layout.size;
        let align: u64 = if data_layout.align >= ANNOTATION_ALIGN {
            data_layout.align
        } else {
            ANNOTATION_ALIGN
        };
        let pad: u64 = offset_for_align(raw, align);
        ObjLayout { size: raw + pad, align }
    }

    /// A typed heap over a fresh region.
    pub fn new(data_layout: ObjLayout, region: HeapRegion<OwnedMemoryBlock>) -> (r:
        AnnotatedMixedHeap<T>)
        requires
            region.wf(),
            region.objects@.len() == 0,
            region.allocs@.len() == 0,
            spec_wrap_fits(data_layout),
        ensures
            r.wf(),
            r.data_layout == data_layout,
            r.region == region,
            r.objects@.len() == 0,
    {
        AnnotatedMixedHeap { data_layout, region, objects: Vec::new() }
    }

    /// The index of the object at `addr`, found by search.
    fn find(&self, addr: u64) -> (r: Option<usize>)
        requires
            self.wf(),
        ensures
            match r {
                Some(i) => {
                    &&& self.has_object(addr)
                    &&& 0 <= i < self.objects@.len()
                    &&& self.objects@[i as int].0 == addr
                    &&& i == self.spec_index_of(addr)
                },
                None => !self.has_object(addr),
            },
    {
        let n: usize = self.objects.len();
        let mut i: usize = 0;
        while i < n
            invariant
                self.wf(),
                n == self.objects@.len(),
                0 <= i <= n,
                forall|j: int| 0 <= j < i ==> (#[trigger] self.objects@[j]).0 != addr,
            decreases n - i,
        {
            if self.objects[i].0 == addr {
                proof {
                    assert(self.objects@[i as int].0 == addr);
                    let k = self.spec_index_of(addr);
                    assert(0 <= k < self.objects@.len() && self.objects@[k].0 == addr);
                    if k != i {
                        assert(false);
                    }
                }
                return Some(i);
            }
            i = i + 1;
        }
        None
    }

    /// Push a value onto the heap: allocate a wrapped layout from the
    /// region, install the annotation, and return the data's direct
    /// address.  Exactly when the widened request exceeds the remaining
    /// space, the value comes back to the caller instead.
    pub fn alloc_object(&mut self, value: T) -> (r: Result<u64, T>)
        requires
            old(self).wf(),
        ensures
            final (self).wf(),
            final (self).data_layout == old(self).data_layout,
            final (self).region.region == old(self).region.region,
            match r {
                Err(v) => {
                    &&& v == value
                    &&& !old(self).spec_can_alloc()
                    &&& *final (self) == *old(self)
                },
                Ok(addr) => ({
                    let d = old(self).data_layout;
                    let w = spec_wrap_layout(d);
                    let pad = spec_offset_for_align(old(self).region.remaining, w.align);
                    let base = old(self).region.remaining + pad;
                    &&& old(self).spec_can_alloc()
                    &&& !old(self).has_object(addr)
                    &&& final (self).has_object(addr)
                    &&& final (self).spec_value(addr) == value
                    &&& final (self).spec_layout_of(addr) == w
                    &&& !final (self).spec_marked(addr)
                    &&& addr == base + spec_data_offset(d)
                    &&& final (self).region.region == old(self).region.region
                    &&& final (self).region.remaining == base + w.size
                    &&& final (self).region.objects@ == old(self).region.objects@.push(
                        base as u64,
                    )
                    &&& final (self).region.allocs@ == old(self).region.allocs@.push(
                        (pad, w.size),
                    )
                    &&& final (self).objects@ == old(self).objects@.push(
                        ((addr, spec_new_entry(d, value))),
                    )
                    &&& forall|a: u64|
                        a != addr ==> #[trigger] final (self).has_object(a) == old(self).has_object(a)
                    &&& forall|a: u64|
                        a != addr && old(self).has_object(a) ==> final (self).spec_value(a)
                            == old(self).spec_value(a) && final (self).spec_layout_of(a) == old(self).spec_layout_of(a) && final (self).spec_marked(a) == old(self).spec_marked(a)
                }),
            },
    {
        proof {
            lemma_wrap_layout_good(self.data_layout);
            lemma_valid_align_pos(self.data_layout.align);
        }
        let wrapped: ObjLayout = Self::wrap_layout(self.data_layout);
        let ghost t0 = *self;
        let base: u64 = match self.region.alloc_layout(wrapped) {
            None => {
                return Err(value);
            },
            Some(b) => b,
        };
        let off: u64 = offset_for_align(ANNOTATION_SIZE, self.data_layout.align);
        let addr: u64 = base + (ANNOTATION_SIZE + off);
        let entry = AnnotatedHeapData {
            annotation: HeapAnnotation { layout: wrapped, mark: TestMark::new() },
            data: value,
        };
        self.objects.push((addr, entry));
        proof {
            let n0 = t0.objects@.len() as int;
            // The new object's address is strictly above every earlier
            // one: earlier allocations end at or before the old cursor.
            assert forall|i: int| 0 <= i < n0 implies (#[trigger] t0.objects@[i]).0 != addr by {
                lemma_object_in_region(t0.region, i);
                assert(t0.region.allocs@[i].1 == spec_wrap_layout(t0.data_layout).size);
                assert(t0.objects@[i].0 == t0.region.objects@[i] + spec_data_offset(
                    t0.data_layout,
                ));
            }
            assert(!t0.has_object(addr));
            assert forall|i: int| 0 <= i < n0 implies self.objects@[i].0 != addr by {
                assert(self.objects@[i] == t0.objects@[i]);
            }
            assert(self.objects@[n0].0 == addr);
            assert(self.has_object(addr));
            // The index of any address is stable: addresses are distinct.
            assert forall|a: u64| a != addr implies #[trigger] self.has_object(a) == t0.has_object(
                a,
            ) by {
                if t0.has_object(a) {
                    let i = t0.spec_index_of(a);
                    assert(self.objects@[i].0 == a);
                }
                if self.has_object(a) {
                    let i = self.spec_index_of(a);
                    assert(0 <= i < self.objects@.len() && self.objects@[i].0 == a);
                    assert(i != n0);
                    assert(t0.objects@[i].0 == a);
                }
            }
            assert forall|a: u64| a != addr && t0.has_object(a) implies self.spec_value(a)
                == t0.spec_value(a) && self.spec_layout_of(a) == t0.spec_layout_of(a)
                && self.spec_marked(a) == t0.spec_marked(a) by {
                let i = t0.spec_index_of(a);
                assert(self.objects@[i].0 == a);
                let i2 = self.spec_index_of(a);
                assert(0 <= i2 < self.objects@.len() && self.objects@[i2].0 == a);
                if i2 == n0 {
                    assert(false);
                }
                if i2 != i {
                    assert(false);
                }
            }
            let inew = self.spec_index_of(addr);
            if inew != n0 {
                assert(self.objects@[inew].0 == addr);
                assert(false);
            }
        }
        Ok(addr)
    }

    /// A reference to the value stored at `addr`.
    pub fn get(&self, addr: u64) -> (r: &T)
        requires
            self.wf(),
            self.has_object(addr),
        ensures
            *r == self.spec_value(addr),
    {
        let i: usize = match self.find(addr) {
            Some(i) => i,
            None => {
                proof {
                    assert(false);
                }
                0
            },
        };
        &self.objects[i].1.data
    }

    /// The full layout of the allocation at `addr`, read from its
    /// annotation: a sweep sizes objects this way, without a dispatch.
    pub fn layout(&self, addr: u64) -> (r: ObjLayout)
        requires
            self.wf(),
            self.has_object(addr),
        ensures
            r == self.spec_layout_of(addr),
            r == spec_wrap_layout(self.data_layout),
    {
        let i: usize = match self.find(addr) {
            Some(i) => i,
            None => {
                proof {
                    assert(false);
                }
                0
            },
        };
        self.objects[i].1.annotation.layout
    }

    /// Set the mark on the object at `addr`, returning whether it was
    /// already marked.  Nothing else about the heap changes.
    pub fn set_mark(&mut self, addr: u64) -> (prior: bool)
        requires
            old(self).wf(),
            old(self).has_object(addr),
        ensures
            final (self).wf(),
            final (self).data_layout == old(self).data_layout,
            final (self).region == old(self).region,
            prior == old(self).spec_marked(addr),
            final (self).spec_marked(addr),
            forall|a: u64| #[trigger]
                final (self).has_object(a) == old(self).has_object(a),
            forall|a: u64|
                old(self).has_object(a) ==> #[trigger] final (self).spec_value(a) == old(
                    self,
                ).spec_value(a) && final (self).spec_layout_of(a) == old(self).spec_layout_of(a),
            forall|a: u64|
                a != addr && old(self).has_object(a) ==> #[trigger] final (self).spec_marked(a)
                    == old(self).spec_marked(a),
    {
        let i: usize = match self.find(addr) {
            Some(i) => i,
            None => {
                proof {
                    assert(false);
                }
                0
            },
        };
        let w: u64 = self.objects[i].1.annotation.mark.mark;
        let prior: bool = w % 2 == 1;
        if !prior {
            self.objects[i].1.annotation.mark.mark = w + 1;
        }
        proof {
            self.lemma_mark_update_preserves(*old(self), addr, i as int);
        }
        prior
    }

    /// Clear the mark on the object at `addr`.
    pub fn unmark(&mut self, addr: u64)
        requires
            old(self).wf(),
            old(self).has_object(addr),
        ensures
            final (self).wf(),
            final (self).data_layout == old(self).data_layout,
            final (self).region == old(self).region,
            !final (self).spec_marked(addr),
            forall|a: u64| #[trigger]
                final (self).has_object(a) == old(self).has_object(a),
            forall|a: u64|
                old(self).has_object(a) ==> #[trigger] final (self).spec_value(a) == old(
                    self,
                ).spec_value(a) && final (self).spec_layout_of(a) == old(self).spec_layout_of(a),
            forall|a: u64|
                a != addr && old(self).has_object(a) ==> #[trigger] final (self).spec_marked(a)
                    == old(self).spec_marked(a),
    {
        let i: usize = match self.find(addr) {
            Some(i) => i,
            None => {
                proof {
                    assert(false);
                }
                0
            },
        };
        let w: u64 = self.objects[i].1.annotation.mark.mark;
        self.objects[i].1.annotation.mark.mark = w - w % 2;
        proof {
            self.lemma_mark_update_preserves(*old(self), addr, i as int);
        }
    }

    /// After rewriting only the mark of the entry at index `i` — whose
    /// address is `addr` — everything but that one mark is as it was.
    proof fn lemma_mark_update_preserves(&self, prev: AnnotatedMixedHeap<T>, addr: u64, i: int)
        requires
            prev.wf(),
            prev.has_object(addr),
            0 <= i < prev.objects@.len(),
            prev.objects@[i].0 == addr,
            self.data_layout == prev.data_layout,
            self.region == prev.region,
            self.objects@.len() == prev.objects@.len(),
            forall|j: int|
                0 <= j < prev.objects@.len() && j != i ==> self.objects@[j] == prev.objects@[j],
            self.objects@[i].0 == prev.objects@[i].0,
            self.objects@[i].1.annotation.layout == prev.objects@[i].1.annotation.layout,
            self.objects@[i].1.data == prev.objects@[i].1.data,
        ensures
            self.wf(),
            forall|a: u64| #[trigger] self.has_object(a) == prev.has_object(a),
            forall|a: u64|
                prev.has_object(a) ==> #[trigger] self.spec_value(a) == prev.spec_value(a)
                    && self.spec_layout_of(a) == prev.spec_layout_of(a),
            forall|a: u64|
                a != addr && prev.has_object(a) ==> #[trigger] self.spec_marked(a)
                    == prev.spec_marked(a),
            self.spec_marked(addr) == self.objects@[i].1.annotation.mark.spec_marked(),
            self.spec_index_of(addr) == i,
    {
        assert forall|j: int| 0 <= j < self.objects@.len() implies (#[trigger] self.objects@[j]).0
            == prev.objects@[j].0 by {}
        assert forall|a: u64| #[trigger] self.has_object(a) == prev.has_object(a) by {
            if prev.has_object(a) {
                let k = prev.spec_index_of(a);
                assert(self.objects@[k].0 == a);
            }
            if self.has_object(a) {
                let k = self.spec_index_of(a);
                assert(prev.objects@[k].0 == a);
            }
        }
        assert forall|a: u64| prev.has_object(a) implies #[trigger] self.spec_value(a)
            == prev.spec_value(a) && self.spec_layout_of(a) == prev.spec_layout_of(a) by {
            let k = prev.spec_index_of(a);
            let k2 = self.spec_index_of(a);
            assert(self.objects@[k].0 == a);
            assert(0 <= k2 < self.objects@.len() && self.objects@[k2].0 == a);
            if k2 != k {
                assert(prev.objects@[k2].0 == a);
                assert(false);
            }
            if k2 == i {
                assert(self.spec_value(a) == prev.spec_value(a));
            }
        }
        assert forall|a: u64| a != addr && prev.has_object(a) implies #[trigger] self.spec_marked(
            a,
        ) == prev.spec_marked(a) by {
            let k = prev.spec_index_of(a);
            let k2 = self.spec_index_of(a);
            assert(self.objects@[k].0 == a);
            assert(0 <= k2 < self.objects@.len() && self.objects@[k2].0 == a);
            if k2 != k {
                assert(prev.objects@[k2].0 == a);
                assert(false);
            }
            assert(k != i);
        }
        let k2 = self.spec_index_of(addr);
        assert(self.objects@[i].0 == addr);
        assert(0 <= k2 < self.objects@.len() && self.objects@[k2].0 == addr);
        if k2 != i {
            assert(prev.objects@[k2].0 == addr);
            assert(false);
        }
    }

    /// Whether the object at `addr` is marked.
    pub fn is_marked(&self, addr: u64) -> (r: bool)
        requires
            self.wf(),
            self.has_object(addr),
        ensures
            r == self.spec_marked(addr),
    {
        let i: usize = match self.find(addr) {
            Some(i) => i,
            None => {
                proof {
                    assert(false);
                }
                0
            },
        };
        self.objects[i].1.annotation.mark.is_marked()
    }
}

impl<T: Trace> AnnotatedMixedHeap<T> {
    /// Invoke the trace function of the object at `addr`: the typed
    /// dispatch that a vtable performs for a type-erased reader.
    pub fn trace(&self, addr: u64, cxt: &mut TraceContext)
        requires
            self.wf(),
            self.has_object(addr),
    {
        let i: usize = match self.find(addr) {
            Some(i) => i,
            None => {
                proof {
                    assert(false);
                }
                0
            },
        };
        self.objects[i].1.data.trace(cxt);
    }
}

impl<T> VisitHeap for AnnotatedMixedHeap<T> {
    open spec fn spec_entries(&self) -> Seq<u64> {
        self.objects@.map_values(|o: (u64, AnnotatedHeapData<T>)| o.0)
    }

    open spec fn spec_is_marked(&self, entry: u64) -> bool {
        self.has_object(entry) && self.spec_marked(entry)
    }

    fn iter_entries(&self) -> (r: Vec<u64>) {
        let n: usize = self.objects.len();
        let mut entries: Vec<u64> = Vec::new();
        let mut i: usize = 0;
        while i < n
            invariant
                n == self.objects@.len(),
                0 <= i <= n,
                entries@.len() == i,
                forall|j: int| 0 <= j < i ==> #[trigger] entries@[j] == self.objects@[j].0,
            decreases n - i,
        {
            entries.push(self.objects[i].0);
            i = i + 1;
        }
        proof {
            assert(entries@ =~= self.spec_entries());
        }
        entries
    }

    fn unmark_heap(&mut self) {
        let n: usize = self.objects.len();
        let mut i: usize = 0;
        while i < n
            invariant
                n == self.objects@.len(),
                old(self).objects@.len() == n,
                0 <= i <= n,
                self.data_layout == old(self).data_layout,
                self.region == old(self).region,
                forall|j: int|
                    0 <= j < n ==> (#[trigger] self.objects@[j]).0 == old(self).objects@[j].0,
                forall|j: int|
                    0 <= j < n ==> (#[trigger] self.objects@[j]).1.annotation.layout == old(
                        self,
                    ).objects@[j].1.annotation.layout,
                forall|j: int|
                    0 <= j < n ==> (#[trigger] self.objects@[j]).1.data == old(
                        self,
                    ).objects@[j].1.data,
                forall|j: int|
                    0 <= j < i ==> !(#[trigger] self.objects@[j]).1.annotation.mark.spec_marked(),
            decreases n - i,
        {
            let w: u64 = self.objects[i].1.annotation.mark.mark;
            self.objects[i].1.annotation.mark.mark = w - w % 2;
            i = i + 1;
        }
        proof {
            assert(self.spec_entries() =~= old(self).spec_entries());
            assert forall|e: u64| !(#[trigger] self.spec_is_marked(e)) by {
                if self.has_object(e) {
                    let k = self.spec_index_of(e);
                    assert(0 <= k < self.objects@.len() && self.objects@[k].0 == e);
                    assert(!self.objects@[k].1.annotation.mark.spec_marked());
                }
            }
        }
    }
}

impl<T> Heap<T> for AnnotatedMixedHeap<T> {
    open spec fn heap_wf(&self) -> bool {
        self.wf()
    }

    open spec fn spec_can_push(&self) -> bool {
        self.spec_can_alloc()
    }

    open spec fn spec_value_at(&self, addr: u64) -> Option<T> {
        if self.has_object(addr) {
            Some(self.spec_value(addr))
        } else {
            None
        }
    }

    fn try_push_to_heap(&mut self, value: T) -> (r: Result<u64, T>) {
        self.alloc_object(value)
    }
}

} // verus!
