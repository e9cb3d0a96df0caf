//! A small-buffer-optimized text string: a growable UTF-8 buffer that keeps
//! short contents inline and spills to the heap once they exceed a fixed
//! inline capacity.  Every operation is verified to preserve the invariant
//! that the buffer holds valid UTF-8.

pub mod buffer;
pub mod small_string;
pub mod unicode;

pub use buffer::INLINE_CAPACITY;
pub use small_string::SmallString;
