//! Out-of-core matrix storage: a fixed 64-byte header followed by a
//! contiguous element region, with a transpose-aware strided traversal.
pub mod dtype;
pub mod header;
pub mod index;
pub mod dense;
pub mod laws;
