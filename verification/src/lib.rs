//! A dense, column-major matrix that owns one contiguous buffer and grows in
//! place when rows or columns are inserted.
//!
//! The logical size of a matrix (`rows` by `cols`) is kept apart from its
//! allocated size, which is rounded up to powers of two. Every function of the
//! library is stated over the mathematical view of a matrix and proved against
//! it.

pub mod capacity;
pub mod number;
pub mod modular;
pub mod int8;
pub mod int16;
pub mod int32;
pub mod int64;
pub mod uint8;
pub mod uint16;
pub mod uint32;
pub mod uint64;
pub mod uintsize;
pub mod addressing;
pub mod error;
pub mod grid;
pub mod algebra;
pub mod sums;
pub mod matrix;
pub mod construct;
pub mod shape;
pub mod access;
pub mod growth;
pub mod insertion;
pub mod arith;
pub mod product;
pub mod transform;
pub mod permute;
pub mod update;
pub mod pattern;
pub mod equality;
pub mod laws;
pub mod search;
pub mod display;
