//! Strided N-dimensional arrays with borrowed views, and a binary codec for
//! the `.npy` array exchange format.
//!
//! `array` holds the arrays, their views and the arithmetic of
//! multi-dimensional indices, and under it the codec: `array::numpy` reads
//! and writes the bytes of an array file, whose elements it visits in the
//! order that the index arithmetic defines. `types` holds the element types
//! of a file and the casts between the integer types. `backend` holds the
//! registry of the arrays that a compute device was given.
//!
//! The contracts speak of an array as of its `ArrayModel`: a shape, the
//! strides of a contiguous row-major storage, and the storage. An operation
//! that is given an index out of bounds or arrays of shapes that do not fit
//! together has no defined result: its `requires` leaves such calls out.

pub mod array;
pub mod types;
pub mod backend;
