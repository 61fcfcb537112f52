//! Padding arithmetic shared by both writers.

use vstd::prelude::*;

verus! {

/// Number of filler bytes that follow `address` consumed bytes so that the
/// next write starts on a multiple of `alignment`.
pub open spec fn pad(address: nat, alignment: nat) -> nat
    recommends
        alignment > 0,
{
    ((alignment - address % alignment) % (alignment as int)) as nat
}

/// Padding never reaches the alignment, and an address followed by its
/// padding is a multiple of the alignment. Holds of every positive
/// alignment, a power of two or not.
pub proof fn lemma_pad_aligns(address: nat, alignment: nat)
    requires
        alignment > 0,
    ensures
        0 <= pad(address, alignment) < alignment,
        (address + pad(address, alignment)) % alignment == 0,
{
    let a = alignment as int;
    let r = (address as int) % a;
    if r == 0 {
        assert((a - r) % a == 0) by (nonlinear_arith)
            requires
                r == 0,
                a > 0,
        ;
    } else {
        assert((a - r) % a == a - r) by (nonlinear_arith)
            requires
                0 < r < a,
        ;
        assert((address as int + (a - r)) % a == 0) by (nonlinear_arith)
            requires
                r == (address as int) % a,
                0 < r < a,
        ;
    }
}

/// An address that is already aligned needs no padding, and only such an
/// address needs none.
pub proof fn lemma_pad_zero_iff_aligned(address: nat, alignment: nat)
    requires
        alignment > 0,
    ensures
        pad(address, alignment) == 0 <==> address % alignment == 0,
{
    let a = alignment as int;
    let r = (address as int) % a;
    if r == 0 {
        assert((a - r) % a == 0) by (nonlinear_arith)
            requires
                r == 0,
                a > 0,
        ;
    } else {
        assert((a - r) % a == a - r) by (nonlinear_arith)
            requires
                0 < r < a,
        ;
    }
}

/// Computes `pad(adr, align)`.
pub fn calc_padding(adr: usize, align: usize) -> (padding: usize)
    requires
        align > 0,
    ensures
        padding == pad(adr as nat, align as nat),
        padding < align,
        (adr + padding) % (align as int) == 0,
{
    proof {
        lemma_pad_aligns(adr as nat, align as nat);
    }
    (align - adr % align) % align
}

} // verus!
