//! Block copy into a byte region.

use vstd::prelude::*;

verus! {

/// `region` with the bytes of `data` laid over it from offset `at` on; every
/// other byte is kept.
pub open spec fn overwrite(region: Seq<u8>, at: int, data: Seq<u8>) -> Seq<u8> {
    Seq::new(
        region.len(),
        |k: int|
            if at <= k < at + data.len() {
                data[k - at]
            } else {
                region[k]
            },
    )
}

/// Copies `data` into `region` starting at offset `at`.
pub fn copy_into(region: &mut Vec<u8>, at: usize, data: &[u8])
    requires
        at + data.len() <= old(region).len(),
    ensures
        final(region)@ == overwrite(old(region)@, at as int, data@),
{
    let n: usize = data.len();
    let mut j: usize = 0;
    while j < n
        invariant
            n == data.len(),
            j <= n,
            at + n <= region.len(),
            region.len() == old(region).len(),
            region@ == overwrite(old(region)@, at as int, data@.take(j as int)),
        decreases n - j,
    {
        region[at + j] = data[j];
        j += 1;
    }
}

} // verus!
