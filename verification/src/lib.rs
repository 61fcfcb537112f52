//! Alignment-aware writers for a caller-supplied byte region.
//!
//! `Align` places fixed-size elements one stride apart, `AlignByteSlice`
//! places variable-length chunks and pads the cursor after each of them.
//! Both share the padding arithmetic of `padding` and the block copy of
//! `region`.

pub mod padding;
pub mod region;
pub mod fault;
pub mod layout;
pub mod align_byte_slice;
pub mod align;
