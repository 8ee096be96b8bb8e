use vstd::prelude::*;
use crate::block::{spec_carve, BlockArena, OwnedMemoryBlock};
use crate::collect::{AccessCounter, CLOSE_MASK};
use crate::layout::{
    ObjLayout, lemma_align_divides, lemma_align_eight_valid, lemma_mod_of_multiple,
    lemma_valid_align_pos, valid_align,
};
use crate::mark::{LockRecord, LockRecordStack};
use crate::ptr::GcPtr;
use crate::ref_table::{BLOCK_SIZE, MAX_BLOCKS, RefTable};
use crate::region::HeapRegion;
use crate::trace::{
    AnnotatedMixedHeap, spec_new_entry, spec_data_offset, spec_wrap_fits, spec_wrap_layout,
    lemma_wrap_layout_good,
};
use crate::spec_offset_for_align;
use crate::offset_for_align;
use vstd::arithmetic::power2::lemma2_to64;

verus! {

/// Bytes reserved for each thread's lock record.
pub const LOCK_RECORD_BYTES: u64 = 4096;

/// The root of one managed runtime: the shared reference table, the
/// arena that memory blocks are carved from, and the layouts that every
/// thread allocator is built with.
pub struct VirtualMachine<T> {
    pub ref_table: RefTable<T>,
    pub arena: BlockArena,
    pub tlab_layout: ObjLayout,
    pub data_layout: ObjLayout,
}

impl<T> VirtualMachine<T> {
    /// The machine invariant: a sound table, a live arena, and layouts
    /// every allocator can be built from.
    pub open spec fn wf(self) -> bool {
        &&& self.ref_table.wf()
        &&& self.arena.next >= 8
        &&& self.tlab_layout.valid()
        &&& self.tlab_layout.align >= 8
        &&& spec_wrap_fits(self.data_layout)
    }

    /// What building an allocator carves from the arena: the TLAB block,
    /// then the lock-record block, with the cursor after both — or
    /// nothing, exactly when the address space cannot hold them.
    pub open spec fn spec_allocator_carves(self) -> Option<(u64, u64, u64)> {
        match spec_carve(self.arena.next, self.tlab_layout) {
            None => None,
            Some(c1) => match spec_carve(c1.1, ObjLayout { size: LOCK_RECORD_BYTES, align: 8 }) {
                None => None,
                Some(c2) => Some((c1.0, c2.0, c2.1)),
            },
        }
    }

    /// Whether carving one more TLAB from the arena would give a region
    /// with room for at least one wrapped object of data layout `d`.
    pub open spec fn spec_refill_gives_room(self, d: ObjLayout) -> bool {
        match spec_carve(self.arena.next, self.tlab_layout) {
            Some(c) => spec_wrap_layout(d).size + spec_offset_for_align(
                c.0,
                spec_wrap_layout(d).align,
            ) <= self.tlab_layout.size,
            None => false,
        }
    }

    /// A fresh machine: one table block, nothing allocated.  Each TLAB
    /// will span `tlab_layout`; objects carry data of `data_layout`.
    pub fn new(tlab_layout: ObjLayout, data_layout: ObjLayout) -> (r: VirtualMachine<T>)
        requires
            tlab_layout.valid(),
            tlab_layout.align >= 8,
            spec_wrap_fits(data_layout),
        ensures
            r.wf(),
            r.tlab_layout == tlab_layout,
            r.data_layout == data_layout,
            r.arena.next == 8,
            r.ref_table.blocks@.len() == 1,
            r.ref_table.free@.len() == BLOCK_SIZE,
    {
        VirtualMachine {
            ref_table: RefTable::new(),
            arena: BlockArena::new(8),
            tlab_layout,
            data_layout,
        }
    }

    /// Build a thread allocator: a fresh TLAB carved from the arena, an
    /// open access counter, an empty lock record, and no retired TLABs.
    /// Fails exactly when the arena cannot hold the TLAB and the lock
    /// record, and then leaves the machine untouched.
    pub fn make_allocator(&mut self) -> (r: Option<ThreadAllocator<T>>)
        requires
            old(self).wf(),
        ensures
            final (self).wf(),
            final (self).ref_table == old(self).ref_table,
            final (self).tlab_layout == old(self).tlab_layout,
            final (self).data_layout == old(self).data_layout,
            match r {
                Some(a) => ({
                    let c = old(self).spec_allocator_carves();
                    &&& a.wf()
                    &&& a.tlab.data_layout == old(self).data_layout
                    &&& a.tlab.objects@.len() == 0
                    &&& !a.counter.close_requested()
                    &&& a.counter.count() == 0
                    &&& a.lock_record.spec_words() == Seq::<u64>::empty()
                    &&& a.retired@.len() == 0
                    &&& c is Some
                    &&& a.tlab.region.region.addr == c.unwrap().0
                    &&& a.tlab.region.region.layout == old(self).tlab_layout
                    &&& a.tlab.region.remaining == c.unwrap().0
                    &&& a.lock_record.spec_base() == c.unwrap().1
                    &&& final (self).arena.next == c.unwrap().2
                }),
                None => {
                    &&& *final (self) == *old(self)
                    &&& old(self).spec_allocator_carves() is None
                },
            },
    {
        proof {
            lemma_align_eight_valid();
            lemma_valid_align_pos(self.tlab_layout.align);
        }
        let saved_next: u64 = self.arena.next;
        let block: OwnedMemoryBlock = match OwnedMemoryBlock::new_in(
            self.tlab_layout,
            &mut self.arena,
        ) {
            None => {
                return None;
            },
            Some(b) => b,
        };
        proof {
            // The block's start is aligned to the TLAB alignment, which
            // the word size divides.
            lemma_align_divides(8, block.layout.align);
            lemma_mod_of_multiple(block.addr as int, 8, block.layout.align as int);
        }
        let region: HeapRegion<OwnedMemoryBlock> = HeapRegion::from_block(block);
        let tlab: AnnotatedMixedHeap<T> = AnnotatedMixedHeap::new(self.data_layout, region);
        let lr_layout = ObjLayout { size: LOCK_RECORD_BYTES, align: 8 };
        proof {
            lemma2_to64();
            assert(valid_align(8)) by {
                lemma_align_eight_valid();
            }
            assert(lr_layout.valid());
        }
        let lr_block: OwnedMemoryBlock = match OwnedMemoryBlock::new_in(
            lr_layout,
            &mut self.arena,
        ) {
            None => {
                // Hand the TLAB's range back: a failed build leaves the
                // machine exactly as it was.
                self.arena.next = saved_next;
                return None;
            },
            Some(b) => b,
        };
        let lock_record = LockRecordStack::new(lr_block.addr);
        Some(
            ThreadAllocator {
                tlab,
                counter: AccessCounter::new(),
                lock_record,
                retired: Vec::new(),
            },
        )
    }
}

/// One mutator thread's face of the runtime: its own TLAB, the TLABs it
/// has filled and retired, its access counter, and its lock record.  It
/// is not shared between threads.
pub struct ThreadAllocator<T> {
    pub tlab: AnnotatedMixedHeap<T>,
    pub counter: AccessCounter,
    pub lock_record: LockRecordStack,
    pub retired: Vec<AnnotatedMixedHeap<T>>,
}

impl<T> ThreadAllocator<T> {
    /// The allocator invariant: the current TLAB, every retired TLAB,
    /// and the lock record are sound.
    pub open spec fn wf(self) -> bool {
        &&& self.tlab.wf()
        &&& self.lock_record.lr_wf()
        &&& forall|i: int| 0 <= i < self.retired@.len() ==> (#[trigger] self.retired@[i]).wf()
    }

    /// Replace a full TLAB: carve a fresh one from the machine's arena,
    /// retire the current heap (its objects stay live in it), and start
    /// bumping in the new region.  Refuses — leaving allocator and
    /// machine untouched — exactly when the arena cannot supply a TLAB
    /// with room for even one wrapped object.
    pub fn refill_tlab(&mut self, vm: &mut VirtualMachine<T>) -> (ok: bool)
        requires
            old(self).wf(),
            old(vm).wf(),
        ensures
            final (self).wf(),
            final (vm).wf(),
            final (vm).ref_table == old(vm).ref_table,
            final (vm).tlab_layout == old(vm).tlab_layout,
            final (vm).data_layout == old(vm).data_layout,
            final (self).counter == old(self).counter,
            final (self).lock_record == old(self).lock_record,
            final (self).tlab.data_layout == old(self).tlab.data_layout,
            !ok ==> {
                &&& *final (self) == *old(self)
                &&& *final (vm) == *old(vm)
                &&& !old(vm).spec_refill_gives_room(old(self).tlab.data_layout)
            },
            ok ==> ({
                let c = spec_carve(old(vm).arena.next, old(vm).tlab_layout);
                &&& old(vm).spec_refill_gives_room(old(self).tlab.data_layout)
                &&& c is Some
                &&& final (self).retired@ == old(self).retired@.push(old(self).tlab)
                &&& final (self).tlab.objects@.len() == 0
                &&& final (self).tlab.region.objects@.len() == 0
                &&& final (self).tlab.region.region.addr == c.unwrap().0
                &&& final (self).tlab.region.region.layout == old(vm).tlab_layout
                &&& final (self).tlab.region.remaining == c.unwrap().0
                &&& final (self).tlab.spec_can_alloc()
                &&& final (vm).arena.next == c.unwrap().1
            }),
    {
        proof {
            lemma_wrap_layout_good(self.tlab.data_layout);
            lemma_valid_align_pos(self.tlab.data_layout.align);
            lemma_valid_align_pos(vm.tlab_layout.align);
        }
        let saved_next: u64 = vm.arena.next;
        let block: OwnedMemoryBlock = match OwnedMemoryBlock::new_in(
            vm.tlab_layout,
            &mut vm.arena,
        ) {
            None => {
                return false;
            },
            Some(b) => b,
        };
        let wrapped: ObjLayout = AnnotatedMixedHeap::<T>::wrap_layout(self.tlab.data_layout);
        let pad: u64 = offset_for_align(block.addr, wrapped.align);
        if pad > vm.tlab_layout.size || wrapped.size > vm.tlab_layout.size - pad {
            // The fresh region could not hold one object: give its
            // range back and report failure.
            vm.arena.next = saved_next;
            return false;
        }
        proof {
            lemma_align_eight_valid();
            lemma_align_divides(8, block.layout.align);
            lemma_mod_of_multiple(block.addr as int, 8, block.layout.align as int);
        }
        let region: HeapRegion<OwnedMemoryBlock> = HeapRegion::from_block(block);
        let mut fresh: AnnotatedMixedHeap<T> = AnnotatedMixedHeap::new(
            self.tlab.data_layout,
            region,
        );
        core::mem::swap(&mut self.tlab, &mut fresh);
        self.retired.push(fresh);
        true
    }

    /// Allocate a value: enter the access counter, push the value onto
    /// the TLAB — requesting a fresh TLAB from the machine when the
    /// current one is full — claim a slot from the shared table, write
    /// the object's direct address into it, and leave the counter.  The
    /// counter hold spans all steps, so no collection can observe the
    /// object while no handle yet reaches it.  Only when the TLAB is
    /// full and the machine cannot supply another does the value come
    /// back to the caller, who may trigger a collection and retry.
    pub fn allocate(&mut self, vm: &mut VirtualMachine<T>, value: T) -> (r: Result<GcPtr<T>, T>)
        requires
            old(self).wf(),
            old(vm).wf(),
            old(vm).ref_table.blocks@.len() + 1 <= MAX_BLOCKS,
            !old(self).counter.close_requested(),
            old(self).counter.count() < CLOSE_MASK - 1,
        ensures
            final (self).wf(),
            final (vm).wf(),
            final (self).counter == old(self).counter,
            final (self).lock_record == old(self).lock_record,
            final (self).tlab.data_layout == old(self).tlab.data_layout,
            final (vm).tlab_layout == old(vm).tlab_layout,
            final (vm).data_layout == old(vm).data_layout,
            match r {
                Err(v) => {
                    &&& v == value
                    &&& !old(self).tlab.spec_can_alloc()
                    &&& !old(vm).spec_refill_gives_room(old(self).tlab.data_layout)
                    &&& *final (self) == *old(self)
                    &&& *final (vm) == *old(vm)
                },
                Ok(h) => ({
                    let t0 = old(vm).ref_table;
                    let t1 = final (vm).ref_table;
                    let direct = t1.slot_word(h.slot as int);
                    let d = old(self).tlab.data_layout;
                    &&& t1.wf()
                    &&& h.slot < t1.n_slots()
                    &&& !t1.spec_is_free(h.slot as int)
                    &&& t1.blocks@.len() == (if t0.free@.len() == 0 {
                        t0.blocks@.len() + 1
                    } else {
                        t0.blocks@.len()
                    })
                    &&& t0.free@.len() > 0 ==> h.slot == t0.free@[0] && t1.free@
                        == t0.free@.skip(1)
                    &&& t0.free@.len() == 0 ==> h.slot == t0.n_slots() && t1.free@ == Seq::new(
                        (BLOCK_SIZE - 1) as nat,
                        |i: int| (t0.n_slots() + 1 + i) as usize,
                    )
                    &&& forall|id: int|
                        0 <= id < t0.n_slots() && id != h.slot ==> #[trigger] t1.slot_word(id)
                            == t0.slot_word(id)
                    &&& final (self).tlab.has_object(direct)
                    &&& final (self).tlab.spec_value(direct) == value
                    &&& final (self).tlab.spec_layout_of(direct) == spec_wrap_layout(d)
                    &&& !final (self).tlab.spec_marked(direct)
                    &&& if old(self).tlab.spec_can_alloc() {
                        let w = spec_wrap_layout(d);
                        let pad = spec_offset_for_align(old(self).tlab.region.remaining, w.align);
                        let base = old(self).tlab.region.remaining + pad;
                        &&& final (self).retired@ == old(self).retired@
                        &&& final (vm).arena == old(vm).arena
                        &&& direct == base + spec_data_offset(d)
                        &&& final (self).tlab.region.region == old(self).tlab.region.region
                        &&& final (self).tlab.region.remaining == base + w.size
                        &&& final (self).tlab.objects@ == old(self).tlab.objects@.push(
                            ((direct, spec_new_entry(d, value))),
                        )
                        &&& forall|a: u64|
                            a != direct ==> #[trigger] final (self).tlab.has_object(a) == old(
                                self,
                            ).tlab.has_object(a)
                        &&& forall|a: u64|
                            a != direct && old(self).tlab.has_object(a)
                                ==> #[trigger] final (self).tlab.spec_value(a) == old(
                                self,
                            ).tlab.spec_value(a)
                    } else {
                        let c = spec_carve(old(vm).arena.next, old(vm).tlab_layout);
                        &&& old(vm).spec_refill_gives_room(d)
                        &&& final (self).retired@ == old(self).retired@.push(old(self).tlab)
                        &&& final (self).tlab.objects@.len() == 1
                        &&& c is Some
                        &&& final (self).tlab.region.region.addr == c.unwrap().0
                        &&& final (self).tlab.region.region.layout == old(vm).tlab_layout
                        &&& final (vm).arena.next == c.unwrap().1
                    }
                }),
            },
    {
        let _entry_guard = self.counter.increment_or_savepoint();
        let direct: u64 = match self.tlab.alloc_object(value) {
            Ok(d) => d,
            Err(v) => {
                // The TLAB is full: request a new one from the machine
                // before giving the value back.
                if !self.refill_tlab(vm) {
                    self.counter.exit_counter();
                    return Err(v);
                }
                match self.tlab.alloc_object(v) {
                    Ok(d) => d,
                    Err(v2) => {
                        // A granted refill always has room for one
                        // wrapped object.
                        proof {
                            assert(false);
                        }
                        self.counter.exit_counter();
                        return Err(v2);
                    },
                }
            },
        };
        let open_slot = vm.ref_table.claim_slot();
        let handle: GcPtr<T> = open_slot.assign(&mut vm.ref_table, direct);
        self.counter.exit_counter();
        Ok(handle)
    }
}

} // verus!
