//! Integer types, complex numbers and configuration flags shared by all
//! routines.
pub mod complex;
pub mod constant;
pub mod type_alias;

pub use crate::common::complex::Complex;
pub use crate::common::constant::{CBlasDiag, CBlasLayout, CBlasOrder, CBlasSide, CBlasTranspose, CBlasUpLo};
pub use crate::common::type_alias::{BlasIndex, BlasInt};
