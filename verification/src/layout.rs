use vstd::prelude::*;
use vstd::arithmetic::power2::{pow2, lemma_pow2_adds, lemma_pow2_pos, lemma_pow2_strictly_increases, lemma2_to64, lemma2_to64_rest};
use vstd::arithmetic::div_mod::{lemma_mod_multiples_basic, lemma_fundamental_div_mod};
use vstd::arithmetic::mul::{lemma_mul_is_associative, lemma_mul_is_commutative};
use crate::spec_offset_for_align;
use crate::offset_for_align;

verus! {

/// Largest size a layout may reach once rounded up to its alignment,
/// mirroring the address-space cap that object layouts obey.
pub const MAX_LAYOUT_SIZE: u64 = 0x7fff_ffff_ffff_ffff;

/// An alignment is a power of two that fits in a machine word.
pub open spec fn valid_align(a: u64) -> bool {
    exists|k: nat| k <= 63 && a == pow2(k)
}

/// `x` rounded up to the next multiple of `a`.
pub open spec fn spec_round_up(x: u64, a: u64) -> int
    recommends a >= 1,
{
    x + spec_offset_for_align(x, a)
}

/// The size and alignment of an allocation request: the shape of a block
/// of memory, with the alignment always a power of two and the rounded
/// size bounded by the address space.
#[derive(Clone, Copy, PartialEq, Eq, Structural, Debug)]
pub struct ObjLayout {
    pub size: u64,
    pub align: u64,
}

impl ObjLayout {
    /// Well-formedness: what every layout handed to the allocator obeys.
    pub open spec fn valid(self) -> bool {
        &&& valid_align(self.align)
        &&& spec_round_up(self.size, self.align) <= MAX_LAYOUT_SIZE
    }

    /// The layout with alignment raised to at least `a`; the size is
    /// unchanged.  Fails only when the rounded size would no longer fit.
    pub fn align_to(self, a: u64) -> (r: Option<ObjLayout>)
        requires
            self.valid(),
            valid_align(a),
        ensures
            match r {
                Some(l) => {
                    &&& l.size == self.size
                    &&& l.align == if a >= self.align { a } else { self.align }
                    &&& l.valid()
                },
                None => spec_round_up(self.size, if a >= self.align { a } else { self.align })
                    > MAX_LAYOUT_SIZE,
            },
    {
        proof {
            lemma_valid_align_pos(a);
            lemma_valid_align_pos(self.align);
        }
        let align: u64 = if a >= self.align { a } else { self.align };
        let pad: u64 = offset_for_align(self.size, align);
        if self.size > MAX_LAYOUT_SIZE - pad {
            None
        } else {
            Some(ObjLayout { size: self.size, align })
        }
    }

    /// The layout with its size rounded up to a multiple of its alignment.
    pub fn pad_to_align(self) -> (r: ObjLayout)
        requires
            self.valid(),
        ensures
            r.align == self.align,
            r.size == spec_round_up(self.size, self.align),
            r.size as int % r.align as int == 0,
            r.valid(),
    {
        proof {
            lemma_valid_align_pos(self.align);
        }
        let pad: u64 = offset_for_align(self.size, self.align);
        ObjLayout { size: self.size + pad, align: self.align }
    }
}

/// Rounding up to an alignment lands on a multiple of it, within one
/// alignment of the starting point.
pub proof fn lemma_round_up_aligned(x: u64, a: u64)
    requires
        a >= 1,
    ensures
        spec_round_up(x, a) % a as int == 0,
        x <= spec_round_up(x, a) < x + a,
{
    let p = x as int;
    let al = a as int;
    if p % al != 0 {
        assert((p + (al - p % al)) % al == 0) by (nonlinear_arith)
            requires al >= 1 && p >= 0;
    }
}

/// A valid alignment is at least 1 and at most 2^63.
pub proof fn lemma_valid_align_pos(a: u64)
    requires
        valid_align(a),
    ensures
        1 <= a <= 0x8000_0000_0000_0000,
{
    let k = choose|k: nat| k <= 63 && a == pow2(k);
    lemma_pow2_pos(k);
    lemma2_to64_rest();
    if k < 63 {
        lemma_pow2_strictly_increases(k, 63);
    }
}

/// The word-size alignment, 8, is a valid alignment.
pub proof fn lemma_align_eight_valid()
    ensures
        valid_align(8),
{
    lemma2_to64();
    assert(8 == pow2(3));
}

/// Of two valid alignments, the smaller divides the larger.
pub proof fn lemma_align_divides(a: u64, b: u64)
    requires
        valid_align(a),
        valid_align(b),
        a <= b,
    ensures
        b as int % a as int == 0,
{
    let i = choose|i: nat| i <= 63 && a == pow2(i);
    let j = choose|j: nat| j <= 63 && b == pow2(j);
    lemma_pow2_pos(i);
    lemma_pow2_pos(j);
    if j < i {
        lemma_pow2_strictly_increases(j, i);
    }
    lemma_pow2_adds((j - i) as nat, i);
    lemma_mod_multiples_basic(pow2((j - i) as nat) as int, a as int);
}

/// An address that is a multiple of `b` is a multiple of any divisor `a` of `b`.
pub proof fn lemma_mod_of_multiple(x: int, a: int, b: int)
    requires
        a >= 1,
        b >= 1,
        x >= 0,
        x % b == 0,
        b % a == 0,
    ensures
        x % a == 0,
{
    lemma_fundamental_div_mod(x, b);
    lemma_fundamental_div_mod(b, a);
    let q = x / b;
    let p = b / a;
    assert(x == b * q);
    assert(b == a * p);
    lemma_mul_is_associative(a, p, q);
    assert(x == a * (p * q));
    lemma_mul_is_commutative(a, p * q);
    lemma_mod_multiples_basic(p * q, a);
}

} // verus!
