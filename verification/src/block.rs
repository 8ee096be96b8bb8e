use vstd::prelude::*;
use crate::layout::{ObjLayout, lemma_valid_align_pos, lemma_align_eight_valid, lemma_align_divides};
use crate::{offset_for_align, spec_offset_for_align};

verus! {

/// A contiguous range of owned memory that a heap region can bump over.
pub trait AllocationBlock {
    /// The first address of the range.
    spec fn spec_start(&self) -> u64;

    /// The length of the range in bytes.
    spec fn spec_len(&self) -> u64;

    /// The range starts above the null page and does not wrap.
    spec fn block_wf(&self) -> bool;

    /// The first address of the range.
    fn start(&self) -> (r: u64)
        ensures
            r == self.spec_start(),
    ;

    /// The length of the range in bytes.
    fn len(&self) -> (r: u64)
        ensures
            r == self.spec_len(),
    ;
}

/// The model of the backing allocator: it hands out disjoint address
/// ranges by advancing a cursor, the way a reserved address space is
/// carved up.
pub struct BlockArena {
    pub next: u64,
}

impl BlockArena {
    /// A fresh arena whose first range will start at or after `start`.
    pub fn new(start: u64) -> (r: BlockArena)
        requires
            start >= 8,
        ensures
            r.next == start,
            r.next >= 8,
    {
        BlockArena { next: start }
    }
}

/// What carving `layout` out of an arena whose cursor stands at `next`
/// yields: the block's start (the cursor rounded up to the alignment)
/// and the cursor after the block — or nothing, exactly when the range
/// would pass the end of the address space.
pub open spec fn spec_carve(next: u64, layout: ObjLayout) -> Option<(u64, u64)> {
    let pad = spec_offset_for_align(next, layout.align);
    if next + pad + layout.size <= u64::MAX {
        Some((((next + pad) as u64), ((next + pad + layout.size) as u64)))
    } else {
        None
    }
}

/// An owned block of memory: the address range it covers and the layout
/// it was allocated with.  The region built on top of it is its only
/// user, and the range is released with the block.
pub struct OwnedMemoryBlock {
    pub layout: ObjLayout,
    pub addr: u64,
}

impl OwnedMemoryBlock {
    /// A block whose range satisfies its layout, at a word-aligned
    /// address that meets the layout's alignment.
    pub fn new(layout: ObjLayout) -> (r: OwnedMemoryBlock)
        requires
            layout.valid(),
        ensures
            r.block_wf(),
            r.layout == layout,
            r.spec_len() == layout.size,
            r.spec_start() as int % layout.align as int == 0,
    {
        proof {
            lemma_valid_align_pos(layout.align);
            if layout.align < 8 {
                lemma_align_eight_valid();
                lemma_align_divides(layout.align, 8);
            }
        }
        let addr: u64 = if layout.align >= 8 {
            layout.align
        } else {
            8
        };
        OwnedMemoryBlock { layout, addr }
    }

    /// A block carved out of `arena`: the start is the arena cursor
    /// rounded up to the layout's alignment, and the cursor moves past
    /// the block, so successive blocks never overlap.  Fails only when
    /// the address space is exhausted.
    pub fn new_in(layout: ObjLayout, arena: &mut BlockArena) -> (r: Option<OwnedMemoryBlock>)
        requires
            layout.valid(),
            old(arena).next >= 8,
        ensures
            match r {
                Some(b) => {
                    &&& b.block_wf()
                    &&& b.layout == layout
                    &&& b.spec_len() == layout.size
                    &&& b.spec_start() as int % layout.align as int == 0
                    &&& b.spec_start() >= old(arena).next
                    &&& final (arena).next == b.spec_start() + layout.size
                    &&& final (arena).next >= 8
                    &&& Some((b.addr, final (arena).next)) == spec_carve(
                        old(arena).next,
                        layout,
                    )
                },
                None => {
                    &&& *final (arena) == *old(arena)
                    &&& spec_carve(old(arena).next, layout) is None
                },
            },
    {
        proof {
            lemma_valid_align_pos(layout.align);
        }
        let pad: u64 = offset_for_align(arena.next, layout.align);
        if arena.next > u64::MAX - pad {
            return None;
        }
        let addr: u64 = arena.next + pad;
        if addr > u64::MAX - layout.size {
            return None;
        }
        arena.next = addr + layout.size;
        Some(OwnedMemoryBlock { layout, addr })
    }
}

impl AllocationBlock for OwnedMemoryBlock {
    open spec fn spec_start(&self) -> u64 {
        self.addr
    }

    open spec fn spec_len(&self) -> u64 {
        self.layout.size
    }

    open spec fn block_wf(&self) -> bool {
        &&& self.layout.valid()
        &&& self.addr >= 8
        &&& self.addr + self.layout.size <= u64::MAX
        &&& self.addr as int % self.layout.align as int == 0
    }

    fn start(&self) -> (r: u64) {
        self.addr
    }

    fn len(&self) -> (r: u64) {
        self.layout.size
    }
}

} // verus!
