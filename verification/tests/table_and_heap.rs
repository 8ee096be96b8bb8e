use gc_core::block::{BlockArena, OwnedMemoryBlock};
use gc_core::layout::ObjLayout;
use gc_core::offset_for_align;
use gc_core::ref_table::{RefTable, BLOCK_SIZE};
use gc_core::region::HeapRegion;

#[test]
fn check_ptr_size() {
    // Verify that a table slot is the size of a pointer-sized word.
    // If it isn't it won't break anything, but it would be memory inefficient.
    assert_eq!(std::mem::size_of::<u64>(), std::mem::size_of::<usize>());
}

#[test]
fn offset_for_align_values() {
    assert_eq!(offset_for_align(0, 8), 0);
    assert_eq!(offset_for_align(1, 8), 7);
    assert_eq!(offset_for_align(8, 8), 0);
    assert_eq!(offset_for_align(24, 16), 8);
    assert_eq!(offset_for_align(5, 1), 0);
}

#[test]
fn layout_align_to_and_pad() {
    let l = ObjLayout { size: 10, align: 4 };
    let widened = l.align_to(8).unwrap();
    assert_eq!(widened.align, 8);
    assert_eq!(widened.size, 10);
    let padded = widened.pad_to_align();
    assert_eq!(padded.size, 16);
    assert_eq!(padded.align, 8);
}

#[test]
fn layout_align_to_overflow_fails() {
    // A size so large that rounding it up to a wider alignment would
    // pass the cap.
    let l = ObjLayout { size: 0x7fff_ffff_ffff_fffe, align: 1 };
    assert!(l.align_to(8).is_none());
}

#[test]
fn region_exact_fit_succeeds_one_byte_less_fails() {
    // A region whose remaining space is exactly the widened layout must
    // succeed.
    let layout = ObjLayout { size: 40, align: 8 };
    let block = OwnedMemoryBlock::new(ObjLayout { size: 40, align: 8 });
    let mut region: HeapRegion<OwnedMemoryBlock> = HeapRegion::from_block(block);
    assert_eq!(region.remaining_space(), 40);
    assert!(region.alloc_layout(layout).is_some());
    assert_eq!(region.remaining_space(), 0);

    // One byte less must fail, and leave the region untouched.
    let small = OwnedMemoryBlock::new(ObjLayout { size: 39, align: 8 });
    let mut region2: HeapRegion<OwnedMemoryBlock> = HeapRegion::from_block(small);
    assert!(region2.alloc_layout(layout).is_none());
    assert_eq!(region2.remaining_space(), 39);
}

#[test]
fn region_records_aligned_objects() {
    let block = OwnedMemoryBlock::new(ObjLayout { size: 256, align: 16 });
    let mut region: HeapRegion<OwnedMemoryBlock> = HeapRegion::from_block(block);
    let a = region.alloc_layout(ObjLayout { size: 8, align: 8 }).unwrap();
    let b = region.alloc_layout(ObjLayout { size: 24, align: 16 }).unwrap();
    assert_eq!(a % 8, 0);
    assert_eq!(b % 16, 0);
    // Widened sizes keep later objects clear of earlier ones.
    assert!(a + 8 <= b);
    assert_eq!(region.objects.len(), 2);
}

#[test]
fn arena_blocks_are_disjoint() {
    let mut arena = BlockArena::new(8);
    let first = OwnedMemoryBlock::new_in(ObjLayout { size: 100, align: 8 }, &mut arena).unwrap();
    let second = OwnedMemoryBlock::new_in(ObjLayout { size: 100, align: 8 }, &mut arena).unwrap();
    assert!(first.addr + 100 <= second.addr);
}

#[test]
fn arena_exhaustion_returns_none() {
    let mut arena = BlockArena::new(u64::MAX - 50);
    assert!(OwnedMemoryBlock::new_in(ObjLayout { size: 200, align: 8 }, &mut arena).is_none());
}

#[test]
fn fresh_table_claims_are_distinct() {
    let mut table: RefTable<u64> = RefTable::new();
    let a = table.claim_slot();
    let b = table.claim_slot();
    let c = table.claim_slot();
    assert_ne!(a.slot, b.slot);
    assert_ne!(b.slot, c.slot);
    assert_ne!(a.slot, c.slot);
}

#[test]
fn assign_then_direct_reads_back() {
    let mut table: RefTable<u64> = RefTable::new();
    let open = table.claim_slot();
    let handle = open.assign(&mut table, 0xabc0);
    assert_eq!(handle.direct_ptr(&table), 0xabc0);

    // Claims of other slots never rewrite an occupied slot.
    let other = table.claim_slot();
    let other_handle = other.assign(&mut table, 0xdef0);
    assert_eq!(handle.direct_ptr(&table), 0xabc0);
    assert_eq!(other_handle.direct_ptr(&table), 0xdef0);

    // Freeing other slots does not either.
    let third = table.claim_slot();
    let freed = vec![third.slot];
    table.free_slots(&freed);
    assert_eq!(handle.direct_ptr(&table), 0xabc0);
}

#[test]
fn freed_slots_are_claimed_again() {
    let mut table: RefTable<u64> = RefTable::new();
    let a = table.claim_slot();
    let a_slot = a.slot;
    let _ = a.assign(&mut table, 0x1000);
    let freed = vec![a_slot];
    table.free_slots(&freed);
    // The freed slot is prepended, so the next claim returns it.
    let b = table.claim_slot();
    assert_eq!(b.slot, a_slot);
}

#[test]
fn table_growth_after_block_size_claims() {
    // After exactly BLOCK_SIZE consecutive claims from a fresh table,
    // the next claim must trigger block growth and succeed.
    let mut table: RefTable<u64> = RefTable::new();
    for _ in 0..BLOCK_SIZE {
        let _ = table.claim_slot();
        assert_eq!(table.blocks.len(), 1);
    }
    let next = table.claim_slot();
    assert_eq!(table.blocks.len(), 2);
    assert_eq!(next.slot, BLOCK_SIZE);
}

#[test]
fn table_stress_all_claims_distinct() {
    // Eight claimants drawing 10_000 slots each from one table: the
    // union has 80_000 distinct slots and the table grew to exactly
    // the blocks that many slots need.
    let mut table: RefTable<u64> = RefTable::new();
    let mut per_claimant: Vec<Vec<usize>> = Vec::new();
    for _ in 0..8 {
        let mut mine: Vec<usize> = Vec::new();
        for _ in 0..10_000 {
            mine.push(table.claim_slot().slot);
        }
        per_claimant.push(mine);
    }
    let mut union: std::collections::HashSet<usize> = std::collections::HashSet::new();
    for mine in &per_claimant {
        for s in mine {
            assert!(union.insert(*s), "slot handed out twice");
        }
    }
    assert_eq!(union.len(), 80_000);
    let expected_blocks = (80_000 + BLOCK_SIZE - 1) / BLOCK_SIZE;
    assert_eq!(table.blocks.len(), expected_blocks);
}
