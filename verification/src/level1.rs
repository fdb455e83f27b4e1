//! Vector-vector kernels.
pub mod asum;
pub mod axpy;
pub mod dot;
pub mod exchange;
pub mod iamax;
pub mod nrm2;
pub mod rot;
pub mod rotg;
pub mod rotm;
pub mod rotmg;
pub mod scale;

pub use crate::level1::asum::{cz_asum, sd_asum};
pub use crate::level1::axpy::{cz_axpy, sd_axpy};
pub use crate::level1::dot::{cblas_dsdot, cblas_sdsdot, cz_dotc, cz_dotu, sd_sdot};
pub use crate::level1::exchange::{a_copy, a_swap};
pub use crate::level1::iamax::{cz_iamax, cz_iamin, sd_iamax, sd_iamin};
pub use crate::level1::nrm2::sd_nrm2;
pub use crate::level1::rot::{cz_srot, sd_rot};
pub use crate::level1::rotg::{cz_rotg, sd_rotg};
pub use crate::level1::rotm::sd_rotm;
pub use crate::level1::rotmg::sd_rotmg;
pub use crate::level1::scale::{cz_scal, cz_sscal, sd_scal};
