//! The core of a tracing, relocating garbage-collected heap: a handle
//! indirection table with a free list threaded through its slots, a
//! bump allocator over owned memory blocks, a typed object header that
//! records layout and mark state, a hotspot-style lock word with
//! thin-lock and inflated-monitor states, and the access-counter gate a
//! collector closes to reach a safepoint.  Memory is modelled by plain
//! addresses and explicit stores, so every structure and transition is
//! stated and machine-checked.

use vstd::prelude::*;

pub mod block;
pub mod collect;
pub mod layout;
pub mod mark;
pub mod monitor;
pub mod ptr;
pub mod ref_table;
pub mod region;
pub mod trace;
pub mod vm;

verus! {

/// Smallest offset that must be added to `ptr` so that `ptr + offset`
/// is a multiple of `align`.
pub open spec fn spec_offset_for_align(ptr: u64, align: u64) -> u64
    recommends align >= 1,
{
    if ptr % align == 0 { 0 } else { (align - ptr % align) as u64 }
}

/// Padding needed to bring an address up to an alignment boundary.
pub fn offset_for_align(ptr: u64, align: u64) -> (r: u64)
    requires
        align >= 1,
    ensures
        r == spec_offset_for_align(ptr, align),
        r < align,
        (ptr + r) % align as int == 0,
{
    let rem = ptr % align;
    if rem == 0 {
        0
    } else {
        proof {
            let a = align as int;
            let p = ptr as int;
            assert((p + (a - p % a)) % a == 0) by (nonlinear_arith)
                requires a >= 1 && p >= 0;
        }
        align - rem
    }
}

} // verus!
