use gc_core::collect::{VisitHeap, CLOSE_MASK};
use gc_core::layout::ObjLayout;
use gc_core::trace::{AnnotatedMixedHeap, Trace, TraceContext};
use gc_core::vm::{ThreadAllocator, VirtualMachine};

fn small_vm(tlab_bytes: u64) -> VirtualMachine<u64> {
    VirtualMachine::new(
        ObjLayout { size: tlab_bytes, align: 8 },
        ObjLayout { size: 8, align: 8 },
    )
}

#[test]
fn single_thread_alloc_round_trip() {
    // Allocate ten values, run a collection cycle over the allocator's
    // counter and heap, and check every handle still resolves.
    let mut vm = small_vm(4096);
    let mut alloc: ThreadAllocator<u64> = vm.make_allocator().unwrap();
    let mut handles = Vec::new();
    for v in 0..10u64 {
        let h = alloc.allocate(&mut vm, v).expect("tlab has room");
        handles.push(h);
    }

    // The collector closes the allocator's counter, sweeps (everything
    // is reachable, so it only clears marks), and reopens.
    let close = alloc.counter.close_counter();
    close.block_until_closed(&alloc.counter);
    let entries = alloc.tlab.iter_entries();
    for e in &entries {
        alloc.tlab.set_mark(*e);
    }
    alloc.tlab.unmark_heap();
    alloc.counter.release_close_request();

    for (v, h) in handles.iter().enumerate() {
        let direct = h.direct_ptr(&vm.ref_table);
        assert_eq!(*alloc.tlab.get(direct), v as u64);
    }
}

#[test]
fn safepoint_coordination() {
    // With the counter closed and drained, the word reads exactly
    // "close bit, count zero"; reopening lets allocation proceed.
    let mut vm = small_vm(4096);
    let mut alloc: ThreadAllocator<u64> = vm.make_allocator().unwrap();
    let _h = alloc.allocate(&mut vm, 5).unwrap();

    let close = alloc.counter.close_counter();
    close.block_until_closed(&alloc.counter);
    assert_eq!(alloc.counter.counter, CLOSE_MASK);
    alloc.counter.release_close_request();
    assert_eq!(alloc.counter.counter, 0);

    let h2 = alloc.allocate(&mut vm, 6).unwrap();
    assert_eq!(*alloc.tlab.get(h2.direct_ptr(&vm.ref_table)), 6);
}

#[test]
fn allocation_failure_returns_value() {
    // A TLAB sized to hold exactly two wrapped u64 objects: each takes
    // a 24-byte header plus the 8-byte value.  With no replacement TLAB
    // available — the arena is exhausted — the third allocation hands
    // the value back unchanged.
    let mut vm = small_vm(64);
    let mut alloc: ThreadAllocator<u64> = vm.make_allocator().unwrap();
    assert!(alloc.allocate(&mut vm, 1).is_ok());
    assert!(alloc.allocate(&mut vm, 2).is_ok());
    vm.arena.next = u64::MAX - 8;
    assert_eq!(alloc.allocate(&mut vm, 3), Err(3));
    assert_eq!(alloc.retired.len(), 0);
}

#[test]
fn full_tlab_is_replaced_from_the_machine() {
    // A TLAB holding exactly two wrapped u64 objects: the third
    // allocation retires it, carves a fresh TLAB from the machine, and
    // succeeds there.
    let mut vm = small_vm(64);
    let mut alloc: ThreadAllocator<u64> = vm.make_allocator().unwrap();
    assert!(alloc.allocate(&mut vm, 1).is_ok());
    assert!(alloc.allocate(&mut vm, 2).is_ok());
    let h3 = alloc.allocate(&mut vm, 3).unwrap();
    assert_eq!(alloc.retired.len(), 1);
    assert_eq!(alloc.retired[0].objects.len(), 2);
    assert_eq!(alloc.tlab.objects.len(), 1);
    assert_eq!(*alloc.tlab.get(h3.direct_ptr(&vm.ref_table)), 3);
}

#[test]
fn explicit_refill_gives_a_fresh_tlab() {
    let mut vm = small_vm(64);
    let mut alloc: ThreadAllocator<u64> = vm.make_allocator().unwrap();
    assert!(alloc.allocate(&mut vm, 1).is_ok());
    assert!(alloc.refill_tlab(&mut vm));
    assert_eq!(alloc.retired.len(), 1);
    assert_eq!(alloc.tlab.objects.len(), 0);
    // An exhausted arena refuses the refill and changes nothing.
    vm.arena.next = u64::MAX - 8;
    assert!(!alloc.refill_tlab(&mut vm));
    assert_eq!(alloc.retired.len(), 1);
}

#[test]
fn allocate_releases_counter() {
    let mut vm = small_vm(64);
    let mut alloc: ThreadAllocator<u64> = vm.make_allocator().unwrap();
    let _ = alloc.allocate(&mut vm, 1);
    assert_eq!(alloc.counter.counter, 0);
    // Also across a TLAB refill and on the failure path.
    let _ = alloc.allocate(&mut vm, 2);
    let _ = alloc.allocate(&mut vm, 3);
    vm.arena.next = u64::MAX - 8;
    let _ = alloc.allocate(&mut vm, 4);
    assert_eq!(alloc.counter.counter, 0);
}

#[test]
fn zero_sized_values_get_unique_handles() {
    // Allocating a zero-sized type still produces a distinct handle —
    // and, in this heap, a distinct annotated object.
    let mut vm: VirtualMachine<()> = VirtualMachine::new(
        ObjLayout { size: 4096, align: 8 },
        ObjLayout { size: 0, align: 1 },
    );
    let mut alloc = vm.make_allocator().unwrap();
    let h1 = alloc.allocate(&mut vm, ()).unwrap();
    let h2 = alloc.allocate(&mut vm, ()).unwrap();
    assert_ne!(h1.slot, h2.slot);
    assert_ne!(h1.direct_ptr(&vm.ref_table), h2.direct_ptr(&vm.ref_table));
}

#[test]
fn annotation_layout_matches_wrap_layout() {
    // For every allocated object, the layout read back through the
    // annotation equals what wrap_layout computed for the data layout.
    let mut vm = small_vm(4096);
    let mut alloc: ThreadAllocator<u64> = vm.make_allocator().unwrap();
    let h = alloc.allocate(&mut vm, 9).unwrap();
    let direct = h.direct_ptr(&vm.ref_table);
    let expected = AnnotatedMixedHeap::<u64>::wrap_layout(ObjLayout { size: 8, align: 8 });
    assert_eq!(expected, ObjLayout { size: 32, align: 8 });
    assert_eq!(alloc.tlab.layout(direct), expected);
}

#[test]
fn sweep_clears_every_mark() {
    let mut vm = small_vm(4096);
    let mut alloc: ThreadAllocator<u64> = vm.make_allocator().unwrap();
    let mut directs = Vec::new();
    for v in 0..4u64 {
        let h = alloc.allocate(&mut vm, v).unwrap();
        directs.push(h.direct_ptr(&vm.ref_table));
    }
    let entries = alloc.tlab.iter_entries();
    assert_eq!(entries, directs);
    for e in &entries {
        assert!(!alloc.tlab.set_mark(*e));
        assert!(alloc.tlab.is_marked(*e));
    }
    alloc.tlab.unmark_heap();
    for e in &entries {
        assert!(!alloc.tlab.is_marked(*e));
    }
}

struct Pair {
    left: usize,
    right: usize,
}

impl Trace for Pair {
    fn trace(&self, cxt: &mut TraceContext) {
        cxt.visit(self.left);
        cxt.visit(self.right);
    }
}

#[test]
fn trace_dispatch_visits_owned_handles() {
    let mut vm: VirtualMachine<Pair> = VirtualMachine::new(
        ObjLayout { size: 4096, align: 8 },
        ObjLayout { size: 16, align: 8 },
    );
    let mut alloc = vm.make_allocator().unwrap();
    let h = alloc
        .allocate(&mut vm, Pair { left: 3, right: 8 })
        .ok()
        .unwrap();
    let direct = h.direct_ptr(&vm.ref_table);
    let mut cxt = TraceContext::new();
    alloc.tlab.trace(direct, &mut cxt);
    assert_eq!(cxt.visited, vec![3, 8]);
}
