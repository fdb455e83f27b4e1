//! Basic linear algebra subprograms over strided buffers.
//!
//! The kernels are written once over an abstract numeric domain
//! ([`scalar`]) and proved against a model of strided vectors ([`stride`]):
//! a kernel's contract says, element by element and operation by operation,
//! what it leaves in its buffers, for increments of either sign.
//!
//! - [`common`]: integer types, complex numbers and the flags of the C
//!   interface.
//! - [`utils`]: where a walk starts, and where a matrix element lies.
//! - [`level1`]: the vector-vector kernels.
//! - [`level2`]: the general matrix-vector product.
//! - [`error`]: what a routine reports about its arguments.
pub mod common;
pub mod error;
pub mod level1;
pub mod level2;
pub mod scalar;
pub mod stride;
pub mod utils;
