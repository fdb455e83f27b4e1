//! Matrix-vector kernels.
pub mod gemv;

pub use crate::level2::gemv::{cblas_sgemv, cblas_sgemv_spans, gemv_spans, matrix_span, sd_gemv};
