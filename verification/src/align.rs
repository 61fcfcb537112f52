//! Writer for fixed-size elements.

use vstd::prelude::*;
use vstd::arithmetic::div_mod::{
    lemma_fundamental_div_mod,
    lemma_mod_bound,
    lemma_mod_multiples_basic,
};
use crate::fault::Fault;
use crate::layout::{flattened, lemma_block_copy_is_placement, placed};
use crate::padding::{calc_padding, lemma_pad_aligns, lemma_pad_zero_iff_aligned, pad};
use crate::region::{copy_into, overwrite};

verus! {

/// The bytes of each element of a slice of elements.
pub open spec fn elem_views<const N: usize>(slice: Seq<[u8; N]>) -> Seq<Seq<u8>> {
    Seq::new(slice.len(), |i: int| slice[i]@)
}

/// The slice's elements as one run of bytes, by `as_flattened` of std's
/// slices: the bytes of the first element, then those of the second, and so
/// on, with nothing between them. The call panics only where the element
/// type is zero-sized, which a byte is not.
#[verifier::external_body]
fn flatten<const N: usize>(slice: &[[u8; N]]) -> (flat: &[u8])
    ensures
        flat@ == flattened(elem_views(slice@), N as nat),
{
    slice.as_flattened()
}

/// A cursor that stands `k` strides into the region has a full slot before
/// it exactly while `k` is below the slot count, which is the capacity
/// divided by the stride; what is left behind the last slot is never
/// yielded.
pub proof fn lemma_slot_count<const N: usize>(aligner: Align<N>, k: nat)
    requires
        aligner.wf(),
        aligner.stride() > 0,
    ensures
        aligner.slot_at(k * aligner.stride()) <==> k < aligner.size() / aligner.stride(),
{
    let size = aligner.size() as int;
    let s = aligner.stride() as int;
    let q = size / s;
    let r = size % s;
    lemma_fundamental_div_mod(size, s);
    lemma_mod_bound(size, s);
    if k < q {
        assert(k * s + s <= s * q + r) by (nonlinear_arith)
            requires
                k + 1 <= q,
                s > 0,
                r >= 0,
        ;
    } else {
        assert(k * s + s > s * q + r) by (nonlinear_arith)
            requires
                k >= q,
                s > 0,
                r < s,
        ;
    }
}

/// Every slot starts on a multiple of the alignment.
pub proof fn lemma_slots_aligned<const N: usize>(aligner: Align<N>, i: nat)
    requires
        aligner.wf(),
    ensures
        (i * aligner.stride()) % aligner.alignment() == 0,
{
    let a = aligner.alignment() as int;
    let s = aligner.stride() as int;
    lemma_pad_aligns(N as nat, aligner.alignment());
    lemma_fundamental_div_mod(s, a);
    let c = s / a;
    assert(i * s == (i * c) * a) by (nonlinear_arith)
        requires
            s == a * c,
    ;
    lemma_mod_multiples_basic(i * c, a);
}

/// Writes elements of `N` bytes into a region, each element starting on a
/// multiple of the alignment: consecutive elements lie one stride apart,
/// where the stride is `N` rounded up to the alignment.
#[derive(Debug, Clone)]
pub struct Align<const N: usize> {
    region: Vec<u8>,
    elem_size: usize,
    alignment: usize,
}

/// A position in the region of an `Align`, which moves from slot to slot and
/// never back.
#[derive(Debug)]
pub struct AlignIter<'a, const N: usize> {
    align: &'a mut Align<N>,
    current: usize,
}

impl<const N: usize> Align<N> {
    /// The bytes of the region.
    pub closed spec fn view(&self) -> Seq<u8> {
        self.region@
    }

    /// Distance in bytes between the starts of two consecutive elements.
    pub closed spec fn stride(&self) -> nat {
        self.elem_size as nat
    }

    /// The alignment that every element starts on.
    pub closed spec fn alignment(&self) -> nat {
        self.alignment as nat
    }

    /// The region's capacity in bytes.
    pub open spec fn size(&self) -> nat {
        self@.len()
    }

    /// The region ends on a multiple of the alignment, and the stride is the
    /// element size followed by its padding.
    pub open spec fn wf(&self) -> bool {
        &&& self.alignment() > 0
        &&& self.size() % self.alignment() == 0
        &&& self.stride() == N + pad(N as nat, self.alignment())
    }

    /// A full slot starts at `offset`.
    pub open spec fn slot_at(&self, offset: nat) -> bool {
        offset < self.size() && self.stride() <= self.size() - offset
    }

    /// A writer over `region`, whose length is the capacity. A capacity that
    /// is no multiple of the alignment is refused.
    pub fn new(region: Vec<u8>, alignment: usize) -> (made: Result<Self, Fault>)
        requires
            alignment > 0,
            N + pad(N as nat, alignment as nat) <= usize::MAX,
        ensures
            made is Ok <==> region@.len() % (alignment as nat) == 0,
            match made {
                Ok(aligner) => {
                    &&& aligner.wf()
                    &&& aligner@ == region@
                    &&& aligner.alignment() == alignment
                    &&& aligner.stride() == N + pad(N as nat, alignment as nat)
                    &&& aligner.stride() % (alignment as nat) == 0
                    &&& N <= aligner.stride() < N + alignment
                },
                Err(fault) => fault == Fault::Misconfiguration,
            },
    {
        let padding: usize = calc_padding(N, alignment);
        let elem_size: usize = N + padding;
        proof {
            lemma_pad_zero_iff_aligned(region@.len(), alignment as nat);
        }
        if calc_padding(region.len(), alignment) != 0 {
            return Err(Fault::Misconfiguration);
        }
        Ok(Align { region, elem_size, alignment })
    }

    /// Writes the elements into successive slots, the first at offset 0.
    /// Where the stride is the element size, this is one block copy; else
    /// each element is written through a cursor.
    pub fn copy_from_slice(&mut self, slice: &[[u8; N]])
        requires
            old(self).wf(),
            slice@.len() * old(self).stride() <= old(self).size(),
        ensures
            final(self).wf(),
            final(self).stride() == old(self).stride(),
            final(self).alignment() == old(self).alignment(),
            final(self)@ == placed(
                old(self)@,
                elem_views(slice@),
                old(self).stride(),
                slice@.len(),
            ),
    {
        let ghost elems = elem_views(slice@);
        let ghost before = self.region@;
        let ghost stride = self.elem_size as nat;
        if self.elem_size == N {
            let flat: &[u8] = flatten(slice);
            proof {
                lemma_block_copy_is_placement(before, elems, N as nat);
            }
            copy_into(&mut self.region, 0, flat);
        } else {
            let n: usize = slice.len();
            let mut cursor = self.iter_mut();
            let mut i: usize = 0;
            while i < n
                invariant
                    n == slice@.len(),
                    elems == elem_views(slice@),
                    i <= n,
                    n * stride <= before.len(),
                    stride > N,
                    cursor.wf(),
                    cursor.aligner().stride() == stride,
                    cursor.aligner().alignment() == old(self).alignment(),
                    cursor.aligner().size() == before.len(),
                    cursor.offset() == i * stride,
                    cursor.aligner()@ == placed(before, elems, stride, i as nat),
                    after_borrow(*self) == *final(cursor.target()),
                decreases n - i,
            {
                proof {
                    assert((i + 1) * stride <= n * stride) by (nonlinear_arith)
                        requires
                            i < n,
                    ;
                    assert((i + 1) * stride == i * stride + stride) by (nonlinear_arith);
                }
                let slot: Option<usize> = cursor.write_next(&slice[i]);
                i += 1;
            }
        }
    }

    /// A cursor at offset 0.
    pub fn iter_mut(&mut self) -> (cursor: AlignIter<'_, N>)
        requires
            old(self).wf(),
        ensures
            cursor.wf(),
            cursor.offset() == 0,
            cursor.aligner() == *old(self),
            *final(self) == *final(cursor.target()),
    {
        AlignIter { current: 0, align: self }
    }

    /// Distance in bytes between the starts of two consecutive elements.
    pub fn elem_size(&self) -> (stride: usize)
        ensures
            stride == self.stride(),
    {
        self.elem_size
    }

    /// The region as it now stands.
    pub fn as_bytes(&self) -> (bytes: &[u8])
        ensures
            bytes@ == self@,
    {
        self.region.as_slice()
    }

    /// Gives the region back.
    pub fn into_bytes(self) -> (bytes: Vec<u8>)
        ensures
            bytes@ == self@,
    {
        self.region
    }
}

impl<'a, const N: usize> AlignIter<'a, N> {
    /// The writer that the cursor moves over.
    pub closed spec fn target(&self) -> &'a mut Align<N> {
        self.align
    }

    /// The writer as the cursor now sees it.
    pub closed spec fn aligner(&self) -> Align<N> {
        *self.align
    }

    /// Offset of the slot that comes next.
    pub closed spec fn offset(&self) -> nat {
        self.current as nat
    }

    /// The writer is well formed and the cursor has not left its region.
    pub open spec fn wf(&self) -> bool {
        self.aligner().wf() && self.offset() <= self.aligner().size()
    }

    /// Yields the offset of the next slot and moves one stride on, or yields
    /// nothing, and stays, where no full slot is left. The region is not
    /// touched.
    pub fn next(&mut self) -> (slot: Option<usize>)
        requires
            old(self).wf(),
        ensures
            final(self).wf(),
            final(self).aligner() == old(self).aligner(),
            *final(final(self).target()) == *final(old(self).target()),
            slot is Some <==> old(self).aligner().slot_at(old(self).offset()),
            match slot {
                Some(offset) => offset == old(self).offset() && final(self).offset() == offset
                    + old(self).aligner().stride(),
                None => final(self).offset() == old(self).offset(),
            },
    {
        let size: usize = self.align.region.len();
        if self.current == size || self.align.elem_size > size - self.current {
            return None;
        }
        let offset: usize = self.current;
        self.current = offset + self.align.elem_size;
        Some(offset)
    }

    /// Writes `value` into the next slot, yields the slot's offset and moves
    /// one stride on. Where no full slot is left, nothing is written and
    /// nothing yielded.
    pub fn write_next(&mut self, value: &[u8; N]) -> (slot: Option<usize>)
        requires
            old(self).wf(),
        ensures
            final(self).wf(),
            final(self).aligner().stride() == old(self).aligner().stride(),
            final(self).aligner().alignment() == old(self).aligner().alignment(),
            *final(final(self).target()) == *final(old(self).target()),
            slot is Some <==> old(self).aligner().slot_at(old(self).offset()),
            match slot {
                Some(offset) => {
                    &&& offset == old(self).offset()
                    &&& final(self).offset() == offset + old(self).aligner().stride()
                    &&& final(self).aligner()@ == overwrite(
                        old(self).aligner()@,
                        offset as int,
                        value@,
                    )
                },
                None => final(self).offset() == old(self).offset() && final(self).aligner()
                    == old(self).aligner(),
            },
    {
        match self.next() {
            Some(offset) => {
                copy_into(&mut self.align.region, offset, value.as_slice());
                Some(offset)
            },
            None => None,
        }
    }
}

} // verus!
