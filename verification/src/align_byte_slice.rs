//! Writer for variable-length byte chunks.

use vstd::prelude::*;
use crate::fault::Fault;
use crate::padding::{calc_padding, lemma_pad_aligns, pad};
use crate::region::{copy_into, overwrite};

verus! {

/// The contents of each chunk of a chunk list.
pub open spec fn chunk_views(slices: Seq<&[u8]>) -> Seq<Seq<u8>> {
    Seq::new(slices.len(), |i: int| slices[i]@)
}

/// Offset at which chunk `i` starts: every chunk before it has been laid
/// down and followed by the padding that brings the cursor back to a
/// multiple of `alignment`. For `i == chunks.len()` this is the cursor after
/// the last chunk.
pub open spec fn offset_of(chunks: Seq<Seq<u8>>, alignment: nat, i: nat) -> nat
    recommends
        alignment > 0,
        i <= chunks.len(),
    decreases i,
{
    if i == 0 {
        0
    } else {
        let end = offset_of(chunks, alignment, (i - 1) as nat) + chunks[i - 1].len();
        end + pad(end, alignment)
    }
}

/// Chunk `i` ends inside a region of `size` bytes.
pub open spec fn chunk_fits(chunks: Seq<Seq<u8>>, alignment: nat, size: nat, i: int) -> bool {
    offset_of(chunks, alignment, i as nat) + chunks[i].len() <= size
}

/// Each of the first `n` chunks ends inside a region of `size` bytes.
pub open spec fn prefix_fits(chunks: Seq<Seq<u8>>, alignment: nat, size: nat, n: int) -> bool {
    forall|j: int| 0 <= j < n ==> #[trigger] chunk_fits(chunks, alignment, size, j)
}

/// `region` after the first `n` chunks have been written, each at its offset.
/// Padding bytes and the tail of the region keep what they held.
pub open spec fn written(region: Seq<u8>, chunks: Seq<Seq<u8>>, alignment: nat, n: nat) -> Seq<u8>
    recommends
        alignment > 0,
        n <= chunks.len(),
    decreases n,
{
    if n == 0 {
        region
    } else {
        overwrite(
            written(region, chunks, alignment, (n - 1) as nat),
            offset_of(chunks, alignment, (n - 1) as nat) as int,
            chunks[n - 1],
        )
    }
}

/// Every chunk starts on a multiple of the alignment.
pub proof fn lemma_offsets_aligned(chunks: Seq<Seq<u8>>, alignment: nat, i: nat)
    requires
        alignment > 0,
        i <= chunks.len(),
    ensures
        offset_of(chunks, alignment, i) % alignment == 0,
{
    if i > 0 {
        let end = offset_of(chunks, alignment, (i - 1) as nat) + chunks[i - 1].len();
        lemma_pad_aligns(end, alignment);
    } else {
        assert(0nat % alignment == 0) by (nonlinear_arith)
            requires
                alignment > 0,
        ;
    }
}

/// Chunks do not overlap: each starts at or after the end of the one before.
pub proof fn lemma_offsets_advance(chunks: Seq<Seq<u8>>, alignment: nat, i: nat)
    requires
        alignment > 0,
        i < chunks.len(),
    ensures
        offset_of(chunks, alignment, i + 1) >= offset_of(chunks, alignment, i) + chunks[i as int].len(),
        offset_of(chunks, alignment, i + 1) < offset_of(chunks, alignment, i) + chunks[i as int].len()
            + alignment,
{
    let end = offset_of(chunks, alignment, i) + chunks[i as int].len();
    lemma_pad_aligns(end, alignment);
}

/// A cursor that has left the region before some chunk, or a chunk that
/// alone runs over its end, rules out a complete write.
pub proof fn lemma_overrun_is_refused(chunks: Seq<Seq<u8>>, alignment: nat, size: nat, i: int)
    requires
        alignment > 0,
        0 <= i < chunks.len(),
        offset_of(chunks, alignment, i as nat) > size || offset_of(chunks, alignment, i as nat)
            + chunks[i].len() > size,
    ensures
        !prefix_fits(chunks, alignment, size, chunks.len() as int),
{
    assert(!chunk_fits(chunks, alignment, size, i));
}

/// Writes byte chunks of any length into a region, each chunk starting on a
/// multiple of the alignment.
#[derive(Debug, Clone)]
pub struct AlignByteSlice {
    region: Vec<u8>,
    alignment: usize,
}

impl AlignByteSlice {
    /// The bytes of the region.
    pub closed spec fn view(&self) -> Seq<u8> {
        self.region@
    }

    /// The alignment that every chunk starts on.
    pub closed spec fn alignment(&self) -> nat {
        self.alignment as nat
    }

    /// The region's capacity in bytes.
    pub open spec fn size(&self) -> nat {
        self@.len()
    }

    /// The alignment is positive.
    pub open spec fn wf(&self) -> bool {
        self.alignment() > 0
    }

    /// A writer over `region`, whose length is the capacity.
    pub fn new(region: Vec<u8>, alignment: usize) -> (aligner: Self)
        requires
            alignment > 0,
        ensures
            aligner.wf(),
            aligner@ == region@,
            aligner.alignment() == alignment,
    {
        AlignByteSlice { region, alignment }
    }

    /// Writes the chunks in order, starting at offset 0. After each chunk the
    /// cursor moves on to the next multiple of the alignment. A chunk that
    /// would end past the region stops the write: the chunks before it stay
    /// written, and its index is reported.
    pub fn copy_from_slices(&mut self, slices: &[&[u8]]) -> (outcome: Result<(), Fault>)
        requires
            old(self).wf(),
        ensures
            final(self).wf(),
            final(self).alignment() == old(self).alignment(),
            final(self).size() == old(self).size(),
            outcome is Ok <==> prefix_fits(
                chunk_views(slices@),
                old(self).alignment(),
                old(self).size(),
                slices@.len() as int,
            ),
            match outcome {
                Ok(()) => final(self)@ == written(
                    old(self)@,
                    chunk_views(slices@),
                    old(self).alignment(),
                    slices@.len(),
                ),
                Err(Fault::BoundsViolation { chunk }) => {
                    &&& chunk < slices@.len()
                    &&& prefix_fits(
                        chunk_views(slices@),
                        old(self).alignment(),
                        old(self).size(),
                        chunk as int,
                    )
                    &&& !chunk_fits(
                        chunk_views(slices@),
                        old(self).alignment(),
                        old(self).size(),
                        chunk as int,
                    )
                    &&& final(self)@ == written(
                        old(self)@,
                        chunk_views(slices@),
                        old(self).alignment(),
                        chunk as nat,
                    )
                },
                Err(Fault::Misconfiguration) => false,
            },
    {
        let ghost chunks = chunk_views(slices@);
        let ghost a = self.alignment as nat;
        let size: usize = self.region.len();
        let n: usize = slices.len();
        let mut current: usize = 0;
        let mut i: usize = 0;
        while i < n
            invariant
                n == slices@.len(),
                chunks == chunk_views(slices@),
                a == self.alignment,
                a > 0,
                self.alignment == old(self).alignment,
                self.region.len() == size,
                size == old(self).region.len(),
                i <= n,
                current <= size,
                current == offset_of(chunks, a, i as nat),
                prefix_fits(chunks, a, size as nat, i as int),
                self.region@ == written(old(self).region@, chunks, a, i as nat),
            decreases n - i,
        {
            let chunk: &[u8] = slices[i];
            if chunk.len() > size - current {
                assert(!chunk_fits(chunks, a, size as nat, i as int));
                return Err(Fault::BoundsViolation { chunk: i });
            }
            copy_into(&mut self.region, current, chunk);
            let end: usize = current + chunk.len();
            let padding: usize = calc_padding(end, self.alignment);
            i += 1;
            if padding > size - end {
                if i < n {
                    assert(!chunk_fits(chunks, a, size as nat, i as int));
                    return Err(Fault::BoundsViolation { chunk: i });
                } else {
                    return Ok(());
                }
            }
            current = end + padding;
        }
        Ok(())
    }

    /// The region as it now stands.
    pub fn as_bytes(&self) -> (bytes: &[u8])
        ensures
            bytes@ == self@,
    {
        self.region.as_slice()
    }

    /// Gives the region back.
    pub fn into_bytes(self) -> (bytes: Vec<u8>)
        ensures
            bytes@ == self@,
    {
        self.region
    }
}

} // verus!
