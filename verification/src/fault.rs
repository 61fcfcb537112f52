//! The two ways in which a write session can fail.

use vstd::prelude::*;

verus! {

/// Why a writer refused to go on. Neither is recoverable: the caller got the
/// capacity or the element count wrong.
#[derive(Debug, Clone, Copy, PartialEq, Eq, Structural)]
pub enum Fault {
    /// The region's size is not a multiple of the requested alignment.
    Misconfiguration,
    /// The chunk with this index would have ended past the region. The chunks
    /// before it are written, this one and those after it are not.
    BoundsViolation { chunk: usize },
}

} // verus!
