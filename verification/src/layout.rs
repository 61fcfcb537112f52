//! Where fixed-size elements lie in a region, one stride apart.

use vstd::prelude::*;
use vstd::arithmetic::div_mod::{
    lemma_fundamental_div_mod_converse_div,
    lemma_fundamental_div_mod_converse_mod,
    lemma_mod_bound,
};
use crate::region::overwrite;

verus! {

/// Every element is `width` bytes long.
pub open spec fn uniform(elems: Seq<Seq<u8>>, width: nat) -> bool {
    forall|i: int| 0 <= i < elems.len() ==> (#[trigger] elems[i]).len() == width
}

/// `region` after the first `n` elements have been written one after the
/// other, element `i` at offset `i * stride`.
pub open spec fn placed(region: Seq<u8>, elems: Seq<Seq<u8>>, stride: nat, n: nat) -> Seq<u8>
    recommends
        n <= elems.len(),
    decreases n,
{
    if n == 0 {
        region
    } else {
        overwrite(
            placed(region, elems, stride, (n - 1) as nat),
            (n - 1) * stride,
            elems[n - 1],
        )
    }
}

/// The byte at offset `k` of a region that holds `n` elements of `width`
/// bytes, `stride` apart: a byte of the element whose slot `k` falls in, or,
/// in the padding behind an element and behind the last slot, the byte that
/// the region held before.
pub open spec fn slot_byte(
    region: Seq<u8>,
    elems: Seq<Seq<u8>>,
    width: nat,
    stride: nat,
    n: nat,
    k: int,
) -> u8 {
    if stride > 0 && k < n * stride && k % (stride as int) < width {
        elems[k / (stride as int)][k % (stride as int)]
    } else {
        region[k]
    }
}

/// The region byte by byte, as `slot_byte` gives it.
pub open spec fn layout(region: Seq<u8>, elems: Seq<Seq<u8>>, width: nat, stride: nat, n: nat) -> Seq<
    u8,
> {
    Seq::new(region.len(), |k: int| slot_byte(region, elems, width, stride, n, k))
}

/// The elements one after the other with nothing between them.
pub open spec fn flattened(elems: Seq<Seq<u8>>, width: nat) -> Seq<u8> {
    Seq::new(elems.len() * width, |k: int| elems[k / (width as int)][k % (width as int)])
}

/// Byte `j` of slot `i` lies at offset `i * stride + j`, and that offset
/// belongs to no other slot.
pub proof fn lemma_slot_index(i: int, j: int, stride: int)
    requires
        0 <= i,
        0 <= j < stride,
    ensures
        (i * stride + j) / stride == i,
        (i * stride + j) % stride == j,
{
    lemma_fundamental_div_mod_converse_div(i * stride + j, stride, i, j);
    lemma_fundamental_div_mod_converse_mod(i * stride + j, stride, i, j);
}

/// Writing the elements one by one gives the layout: element `i` occupies
/// `width` bytes from offset `i * stride` on, and every byte between two
/// elements or behind the last of them is untouched.
pub proof fn lemma_placed_is_layout(
    region: Seq<u8>,
    elems: Seq<Seq<u8>>,
    width: nat,
    stride: nat,
    n: nat,
)
    requires
        uniform(elems, width),
        width <= stride,
        n <= elems.len(),
    ensures
        placed(region, elems, stride, n) == layout(region, elems, width, stride, n),
    decreases n,
{
    if n > 0 {
        let m = (n - 1) as nat;
        let s = stride as int;
        let base = m * stride;
        lemma_placed_is_layout(region, elems, width, stride, m);
        let cur = placed(region, elems, stride, n);
        assert(n * stride == base + stride) by (nonlinear_arith)
            requires
                n == m + 1,
                base == m * stride,
        ;
        assert forall|k: int| 0 <= k < region.len() implies cur[k] == slot_byte(
            region,
            elems,
            width,
            stride,
            n,
            k,
        ) by {
            if stride > 0 && base <= k < base + stride {
                lemma_slot_index(m as int, k - base, s);
            }
        }
        assert(cur =~= layout(region, elems, width, stride, n));
    }
}

/// One block copy of the flattened elements to the start of the region
/// gives the same bytes as writing them one by one, when the stride is the
/// elements' own width.
pub proof fn lemma_block_copy_is_placement(region: Seq<u8>, elems: Seq<Seq<u8>>, width: nat)
    requires
        uniform(elems, width),
    ensures
        overwrite(region, 0, flattened(elems, width)) == placed(
            region,
            elems,
            width,
            elems.len(),
        ),
{
    let n = elems.len();
    lemma_placed_is_layout(region, elems, width, width, n);
    let block = overwrite(region, 0, flattened(elems, width));
    assert forall|k: int| 0 <= k < region.len() implies block[k] == slot_byte(
        region,
        elems,
        width,
        width,
        n,
        k,
    ) by {
        if width > 0 {
            lemma_mod_bound(k, width as int);
        } else {
            assert(n * width == 0) by (nonlinear_arith)
                requires
                    width == 0,
            ;
        }
    }
    assert(block =~= layout(region, elems, width, width, n));
}

} // verus!
