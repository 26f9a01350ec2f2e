//! A dense, row-major matrix of `i64` elements.
//!
//! The matrix is stored as one contiguous buffer of length `rows * cols`;
//! the element at `(row, col)` sits at buffer offset `row * cols + col`.
//! On top of that layout the crate provides element access, row slicing,
//! transposition, scalar multiplication, matrix multiplication, iteration
//! in row-major order, and a plain-text rendering.

pub mod grid;
pub mod mat;
pub mod sums;
pub mod text;

pub use crate::mat::Matrix;
pub use crate::mat::MatrixError;
pub use crate::mat::MatrixIterator;
pub use crate::mat::MatrixMutIterator;
