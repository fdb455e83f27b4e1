use num_traits::Float;
use roblas::common::{BlasInt, Complex};
use roblas::level1::{
    a_copy, a_swap, cblas_dsdot, cblas_sdsdot, cz_asum, cz_axpy, cz_dotc, cz_dotu, cz_iamax,
    cz_iamin, cz_rotg, cz_scal, cz_srot, cz_sscal, sd_asum, sd_axpy, sd_iamax, sd_iamin, sd_nrm2,
    sd_rot, sd_rotg, sd_rotm, sd_rotmg, sd_scal, sd_sdot,
};
use roblas::scalar::{Real, Scalar, Widen};

/// A floating-point number of the machine as an element of the library.
#[derive(Clone, Copy, Debug, PartialEq, PartialOrd)]
struct Fl<F>(F);

type S = Fl<f32>;
type D = Fl<f64>;

fn decimal<F: Float>(digits: i32, exponent: i32) -> F {
    let wide: f64 = format!("{}e{}", digits, exponent).parse().unwrap();
    F::from(wide).unwrap()
}

impl<F: Float> Scalar for Fl<F> {
    fn zero_spec() -> Self {
        Fl(F::zero())
    }

    fn plus_spec(self, rhs: Self) -> Self {
        Fl(self.0 + rhs.0)
    }

    fn times_spec(self, rhs: Self) -> Self {
        Fl(self.0 * rhs.0)
    }

    fn zero() -> Self {
        Fl(F::zero())
    }

    fn plus(self, rhs: Self) -> Self {
        Fl(self.0 + rhs.0)
    }

    fn times(self, rhs: Self) -> Self {
        Fl(self.0 * rhs.0)
    }
}

impl<F: Float> Real for Fl<F> {
    fn one_spec() -> Self {
        Fl(F::one())
    }

    fn from_decimal_spec(digits: i32, exponent: i32) -> Self {
        Fl(decimal(digits, exponent))
    }

    fn minus_spec(self, rhs: Self) -> Self {
        Fl(self.0 - rhs.0)
    }

    fn over_spec(self, rhs: Self) -> Self {
        Fl(self.0 / rhs.0)
    }

    fn neg_spec(self) -> Self {
        Fl(-self.0)
    }

    fn abs_spec(self) -> Self {
        Fl(self.0.abs())
    }

    fn sqrt_spec(self) -> Self {
        Fl(self.0.sqrt())
    }

    fn signum_spec(self) -> Self {
        Fl(self.0.signum())
    }

    fn hypot_spec(self, rhs: Self) -> Self {
        Fl(self.0.hypot(rhs.0))
    }

    fn is_eq_spec(self, rhs: Self) -> bool {
        self.0 == rhs.0
    }

    fn is_lt_spec(self, rhs: Self) -> bool {
        self.0 < rhs.0
    }

    fn is_le_spec(self, rhs: Self) -> bool {
        self.0 <= rhs.0
    }

    fn one() -> Self {
        Fl(F::one())
    }

    fn from_decimal(digits: i32, exponent: i32) -> Self {
        Fl(decimal(digits, exponent))
    }

    fn minus(self, rhs: Self) -> Self {
        Fl(self.0 - rhs.0)
    }

    fn over(self, rhs: Self) -> Self {
        Fl(self.0 / rhs.0)
    }

    fn neg(self) -> Self {
        Fl(-self.0)
    }

    fn abs(self) -> Self {
        Fl(self.0.abs())
    }

    fn sqrt(self) -> Self {
        Fl(self.0.sqrt())
    }

    fn signum(self) -> Self {
        Fl(self.0.signum())
    }

    fn hypot(self, rhs: Self) -> Self {
        Fl(self.0.hypot(rhs.0))
    }

    fn is_eq(self, rhs: Self) -> bool {
        self.0 == rhs.0
    }

    fn is_lt(self, rhs: Self) -> bool {
        self.0 < rhs.0
    }

    fn is_le(self, rhs: Self) -> bool {
        self.0 <= rhs.0
    }
}

impl Widen for Fl<f32> {
    type Wide = Fl<f64>;

    fn widen_spec(self) -> Fl<f64> {
        Fl(self.0 as f64)
    }

    fn narrow_spec(wide: Fl<f64>) -> Self {
        Fl(wide.0 as f32)
    }

    fn widen(self) -> Fl<f64> {
        Fl(self.0 as f64)
    }

    fn narrow(wide: Fl<f64>) -> Self {
        Fl(wide.0 as f32)
    }
}

fn sv(values: &[f32]) -> Vec<S> {
    values.iter().map(|v| Fl(*v)).collect()
}

fn dv(values: &[f64]) -> Vec<D> {
    values.iter().map(|v| Fl(*v)).collect()
}

fn c32(re: f32, im: f32) -> Complex<S> {
    Complex::new(Fl(re), Fl(im))
}

fn c64(re: f64, im: f64) -> Complex<D> {
    Complex::new(Fl(re), Fl(im))
}

/// `values` laid `inc` positions apart, with `fill` in between.
fn spread(values: &[D], inc: usize, fill: f64) -> Vec<D> {
    let mut out = vec![Fl(fill); (values.len() - 1) * inc + 1];
    for (i, v) in values.iter().enumerate() {
        out[i * inc] = *v;
    }
    out
}

/// The numbers 1, 2, ..., n.
fn ramp(n: usize) -> Vec<D> {
    (1..=n).map(|i| Fl(i as f64)).collect()
}

// Single precision.

#[test]
fn srotg1() {
    let mut a = Fl(0_f32);
    let mut b = Fl(1_f32);
    let mut c = Fl(0_f32);
    let mut s = Fl(0_f32);
    sd_rotg(&mut a, &mut b, &mut c, &mut s);
    assert_eq!((a.0, b.0, c.0, s.0), (1_f32, 1_f32, 0_f32, 1_f32));
}

#[test]
fn sswap1() {
    let mut x = sv(&[1_f32, 2_f32]);
    let mut y = sv(&[3_f32, 4_f32]);
    a_swap(2, &mut x, 1, &mut y, 1);
    assert_eq!(x, sv(&[3_f32, 4_f32]));
    assert_eq!(y, sv(&[1_f32, 2_f32]));
}

#[test]
fn sswap2() {
    let mut x = sv(&[1_f32, 2_f32, 3_f32]);
    let mut y = sv(&[4_f32, 5_f32, 6_f32]);
    a_swap(2, &mut x, -2, &mut y, -2);
    assert_eq!(x, sv(&[4_f32, 2_f32, 6_f32]));
    assert_eq!(y, sv(&[1_f32, 5_f32, 3_f32]));
}

#[test]
fn sscal1() {
    let mut v = sv(&[1_f32, 2_f32, 3_f32]);
    sd_scal(v.len() as BlasInt, Fl(2f32), &mut v, 1);
    assert_eq!(v, sv(&[2f32, 4f32, 6f32]));
}

#[test]
fn scopy1() {
    let v1 = sv(&[1_f32, 2_f32, 3_f32, 4_f32, 5_f32, 6_f32, 7_f32]);
    let mut v2 = vec![Fl(0_f32); 7];
    a_copy(7, &v1, 1, &mut v2, 1);
    assert_eq!(v1, v2);
}

#[test]
fn snrm1() {
    let v1 = sv(&[-3_f32, 4_f32]);
    let result = sd_nrm2(2, &v1, 1);
    assert_eq!(result.0, 5_f32);
}

#[test]
fn snrm2() {
    let v1 = sv(&[-5_f32, 5_f32, 12_f32]);
    let result = sd_nrm2(2, &v1, 2);
    assert_eq!(result.0, 13_f32);
}

#[test]
fn sasum1() {
    let v = sv(&[1_f32, 2_f32, 3_f32, 4_f32, 5_f32, 6_f32]);
    let result = sd_asum(6, &v, 1);
    assert_eq!(result.0, 21_f32);
}

#[test]
fn saxpy() {
    let v1 = sv(&[1_f32, 2_f32, 3_f32]);
    let mut v2 = sv(&[2_f32, 3_f32, 4_f32]);
    sd_axpy(3, Fl(0.5_f32), &v1, 1, &mut v2, 1);
    assert_eq!(v2, sv(&[2.5_f32, 4_f32, 5.5_f32]));
    let v3 = sv(&[1_f32, 2_f32, 3_f32, 1_f32, 2_f32, 3_f32, 1_f32, 2_f32, 3_f32]);
    let mut v4 = sv(&[2_f32, 3_f32, 4_f32, 2_f32, 3_f32, 4_f32, 2_f32, 3_f32, 4_f32]);
    sd_axpy(9, Fl(0.5_f32), &v3, 1, &mut v4, 1);
    assert_eq!(
        v4,
        sv(&[2.5_f32, 4_f32, 5.5_f32, 2.5_f32, 4_f32, 5.5_f32, 2.5_f32, 4_f32, 5.5_f32])
    );
}

#[test]
fn sdot1() {
    let v1 = sv(&[1_f32, 2_f32, 3_f32, 4_f32]);
    let mut result = sd_sdot(4, &v1, 1, &v1, 1);
    assert_eq!(result.0, 30_f32);
    // The unit-increment path takes five elements at a time.
    let v2 = sv(&[1_f32, 2_f32, 3_f32, 4_f32, 5_f32, 1_f32, 2_f32, 3_f32, 4_f32, 5_f32]);
    result = sd_sdot(10, &v2, 1, &v2, 1);
    assert_eq!(result.0, 110_f32);
    let v3 = sv(&[
        1_f32, 2_f32, 3_f32, 4_f32, 5_f32, 1_f32, 2_f32, 3_f32, 4_f32, 5_f32, 1_f32, 2_f32, 3_f32,
    ]);
    result = sd_sdot(13, &v3, 1, &v3, 1);
    assert_eq!(result.0, 124_f32);
}

#[test]
fn s_test_isamax1() {
    let v1 = sv(&[2_f32, 1_f32, 5_f32, 5_f32]);
    let result = sd_iamax(4, &v1, 1);
    assert_eq!(result, 2);
}

#[test]
fn s_test_isamin1() {
    let v1 = sv(&[2_f32, 1_f32, 5_f32, 5_f32]);
    let result = sd_iamin(4, &v1, 1);
    assert_eq!(result, 1);
}

#[test]
fn sdsdot1() {
    let v1 = sv(&[1_f32, 2_f32, 3_f32, 4_f32]);
    let result = cblas_sdsdot(4, Fl(-100_f32), &v1, 1, &v1, 1);
    assert_eq!(result.0, -70_f32);
}

// Double precision.

#[test]
fn drotg1() {
    let mut a = Fl(0_f64);
    let mut b = Fl(1_f64);
    let mut c = Fl(0_f64);
    let mut s = Fl(0_f64);
    sd_rotg(&mut a, &mut b, &mut c, &mut s);
    assert_eq!((a.0, b.0, c.0, s.0), (1_f64, 1_f64, 0_f64, 1_f64));
}

#[test]
fn dswap1() {
    let mut x = dv(&[1_f64, 2_f64]);
    let mut y = dv(&[3_f64, 4_f64]);
    a_swap(2, &mut x, 1, &mut y, 1);
    assert_eq!(x, dv(&[3_f64, 4_f64]));
    assert_eq!(y, dv(&[1_f64, 2_f64]));
}

#[test]
fn dswap2() {
    let mut x = dv(&[1_f64, 2_f64, 3_f64]);
    let mut y = dv(&[4_f64, 5_f64, 6_f64]);
    a_swap(2, &mut x, -2, &mut y, -2);
    assert_eq!(x, dv(&[4_f64, 2_f64, 6_f64]));
    assert_eq!(y, dv(&[1_f64, 5_f64, 3_f64]));
}

#[test]
fn dscal1() {
    let mut v = dv(&[1_f64, 2_f64, 3_f64]);
    sd_scal(v.len() as BlasInt, Fl(2f64), &mut v, 1);
    assert_eq!(v, dv(&[2f64, 4f64, 6f64]));
}

#[test]
fn dcopy1() {
    let v1 = dv(&[1_f64, 2_f64, 3_f64, 4_f64, 5_f64, 6_f64, 7_f64]);
    let mut v2 = vec![Fl(0_f64); 7];
    a_copy(7, &v1, 1, &mut v2, 1);
    assert_eq!(v1, v2);
}

#[test]
fn dnrm1() {
    let v1 = dv(&[-3_f64, 4_f64]);
    let result = sd_nrm2(2, &v1, 1);
    assert_eq!(result.0, 5_f64);
}

#[test]
fn dnrm2() {
    let v1 = dv(&[-5_f64, 5_f64, 12_f64]);
    let result = sd_nrm2(2, &v1, 2);
    assert_eq!(result.0, 13_f64);
}

#[test]
fn dasum1() {
    let v = dv(&[1_f64, 2_f64, 3_f64, 4_f64, 5_f64, 6_f64]);
    let result = sd_asum(6, &v, 1);
    assert_eq!(result.0, 21_f64);
}

#[test]
fn daxpy() {
    let v1 = dv(&[1_f64, 2_f64, 3_f64]);
    let mut v2 = dv(&[2_f64, 3_f64, 4_f64]);
    sd_axpy(3, Fl(0.5_f64), &v1, 1, &mut v2, 1);
    assert_eq!(v2, dv(&[2.5_f64, 4_f64, 5.5_f64]));
    let v3 = dv(&[1_f64, 2_f64, 3_f64, 1_f64, 2_f64, 3_f64, 1_f64, 2_f64, 3_f64]);
    let mut v4 = dv(&[2_f64, 3_f64, 4_f64, 2_f64, 3_f64, 4_f64, 2_f64, 3_f64, 4_f64]);
    sd_axpy(9, Fl(0.5_f64), &v3, 1, &mut v4, 1);
    assert_eq!(
        v4,
        dv(&[2.5_f64, 4_f64, 5.5_f64, 2.5_f64, 4_f64, 5.5_f64, 2.5_f64, 4_f64, 5.5_f64])
    );
}

#[test]
fn ddot1() {
    let v1 = dv(&[1_f64, 2_f64, 3_f64, 4_f64]);
    let mut result = sd_sdot(4, &v1, 1, &v1, 1);
    assert_eq!(result.0, 30_f64);
    // The unit-increment path takes five elements at a time.
    let v2 = dv(&[1_f64, 2_f64, 3_f64, 4_f64, 5_f64, 1_f64, 2_f64, 3_f64, 4_f64, 5_f64]);
    result = sd_sdot(10, &v2, 1, &v2, 1);
    assert_eq!(result.0, 110_f64);
    let v3 = dv(&[
        1_f64, 2_f64, 3_f64, 4_f64, 5_f64, 1_f64, 2_f64, 3_f64, 4_f64, 5_f64, 1_f64, 2_f64, 3_f64,
    ]);
    result = sd_sdot(13, &v3, 1, &v3, 1);
    assert_eq!(result.0, 124_f64);
}

#[test]
fn d_test_isamax1() {
    let v1 = dv(&[2_f64, 1_f64, 5_f64, 5_f64]);
    let result = sd_iamax(4, &v1, 1);
    assert_eq!(result, 2);
}

#[test]
fn d_test_isamin1() {
    let v1 = dv(&[2_f64, 1_f64, 5_f64, 5_f64]);
    let result = sd_iamin(4, &v1, 1);
    assert_eq!(result, 1);
}

#[test]
fn dsdot1() {
    let v1 = sv(&[1_f32, 2_f32, 3_f32, 4_f32]);
    let result = cblas_dsdot(4, &v1, 1, &v1, 1);
    assert_eq!(result.0, 30_f64);
}

// Single precision complex.

#[test]
fn cswap1() {
    let mut v1 = vec![c32(1_f32, 0_f32), c32(2_f32, 0_f32)];
    let mut v2 = vec![c32(3_f32, 0_f32), c32(4_f32, 0_f32)];
    a_swap(2, &mut v1, 1, &mut v2, 1);
    assert_eq!(v1, vec![c32(3_f32, 0_f32), c32(4_f32, 0_f32)]);
    assert_eq!(v2, vec![c32(1_f32, 0_f32), c32(2_f32, 0_f32)]);
}

#[test]
fn cscal1() {
    let mut v1 = vec![c32(1_f32, 0_f32), c32(2_f32, 0_f32), c32(3_f32, 0_f32)];
    let a = c32(2_f32, 0_f32);
    cz_scal(v1.len() as BlasInt, &a, &mut v1, 1);
    assert_eq!(v1, vec![c32(2_f32, 0_f32), c32(4_f32, 0_f32), c32(6_f32, 0_f32)]);
}

#[test]
fn csscal1() {
    let mut v1 = vec![c32(1_f32, 0_f32), c32(2_f32, 0_f32), c32(3_f32, 0_f32)];
    cz_sscal(v1.len() as BlasInt, Fl(2_f32), &mut v1, 1);
    assert_eq!(v1, vec![c32(2_f32, 0_f32), c32(4_f32, 0_f32), c32(6_f32, 0_f32)]);
}

#[test]
fn ccopy1() {
    let mut v1 = Vec::with_capacity(7);
    for i in 1..=7 {
        v1.push(c32(i as f32, (i + 1) as f32));
    }
    let mut v2 = vec![c32(0_f32, 0_f32); 7];
    a_copy(7, &v1, 1, &mut v2, 1);
    assert_eq!(v1, v2);
}

#[test]
fn cdotc() {
    let v1 = vec![c32(1_f32, 1_f32), c32(1_f32, -1_f32)];
    let v2 = vec![c32(3_f32, -4_f32), c32(6_f32, -2_f32)];
    let result = cz_dotc(2, &v1, 1, &v2, 1);
    let expect = c32(7_f32, -3_f32);
    assert_eq!(result, expect);
}

#[test]
fn cdotu() {
    // Two elements of padding let the walk with increment 2 stay inside
    // the buffers.
    let v1 = vec![
        c32(1_f32, 1_f32),
        c32(1_f32, -1_f32),
        c32(0_f32, 0_f32),
        c32(0_f32, 0_f32),
        c32(0_f32, 0_f32),
    ];
    let v2 = vec![
        c32(3_f32, -4_f32),
        c32(6_f32, -2_f32),
        c32(0_f32, 0_f32),
        c32(0_f32, 0_f32),
        c32(0_f32, 0_f32),
    ];
    let result1 = cz_dotu(3, &v1, 1, &v2, 1);
    let expect1 = c32(11_f32, -9_f32);

    let result2 = cz_dotu(3, &v1, 2, &v2, 2);
    let expect2 = c32(7_f32, -1_f32);

    let result3 = cz_dotu(3, &v1, -1, &v2, -1);
    let expect3 = c32(11_f32, -9_f32);
    assert_eq!(result1, expect1);
    assert_eq!(result2, expect2);
    assert_eq!(result3, expect3);
}

// Double precision complex.

#[test]
fn zswap1() {
    let mut v1 = vec![c64(1_f64, 0_f64), c64(2_f64, 0_f64)];
    let mut v2 = vec![c64(3_f64, 0_f64), c64(4_f64, 0_f64)];
    a_swap(2, &mut v1, 1, &mut v2, 1);
    assert_eq!(v1, vec![c64(3_f64, 0_f64), c64(4_f64, 0_f64)]);
    assert_eq!(v2, vec![c64(1_f64, 0_f64), c64(2_f64, 0_f64)]);
}

#[test]
fn zscal1() {
    let mut v1 = vec![c64(1_f64, 0_f64), c64(2_f64, 0_f64), c64(3_f64, 0_f64)];
    let a = c64(2_f64, 0_f64);
    cz_scal(v1.len() as BlasInt, &a, &mut v1, 1);
    assert_eq!(v1, vec![c64(2_f64, 0_f64), c64(4_f64, 0_f64), c64(6_f64, 0_f64)]);
}

#[test]
fn zsscal1() {
    let mut v1 = vec![c64(1_f64, 0_f64), c64(2_f64, 0_f64), c64(3_f64, 0_f64)];
    cz_sscal(v1.len() as BlasInt, Fl(2_f64), &mut v1, 1);
    assert_eq!(v1, vec![c64(2_f64, 0_f64), c64(4_f64, 0_f64), c64(6_f64, 0_f64)]);
}

#[test]
fn zcopy1() {
    let mut v1 = Vec::with_capacity(7);
    for i in 1..=7 {
        v1.push(c64(i as f64, (i + 1) as f64));
    }
    let mut v2 = vec![c64(0_f64, 0_f64); 7];
    a_copy(7, &v1, 1, &mut v2, 1);
    assert_eq!(v1, v2);
}

#[test]
fn zdotc() {
    let v1 = vec![c64(1_f64, 1_f64), c64(1_f64, -1_f64)];
    let v2 = vec![c64(3_f64, -4_f64), c64(6_f64, -2_f64)];
    let result = cz_dotc(2, &v1, 1, &v2, 1);
    let expect = c64(7_f64, -3_f64);
    assert_eq!(result, expect);
}

#[test]
fn zdotu() {
    let v1 = vec![c64(1_f64, 1_f64), c64(1_f64, -1_f64)];
    let v2 = vec![c64(3_f64, -4_f64), c64(6_f64, -2_f64)];
    let result = cz_dotu(2, &v1, 1, &v2, 1);
    let expect = c64(11_f64, -9_f64);
    assert_eq!(result, expect);
}

#[test]
fn izamax() {
    // Four elements of padding let the walk with increment 2 stay inside
    // the buffer.
    let v1 = vec![
        c64(1_f64, 1_f64),
        c64(1_f64, -2_f64),
        c64(1_f64, 10_f64),
        c64(1_f64, 15_f64),
        c64(1_f64, 11_f64),
        c64(0_f64, 0_f64),
        c64(0_f64, 0_f64),
        c64(0_f64, 0_f64),
        c64(0_f64, 0_f64),
    ];
    let result1 = cz_iamax(5, &v1, 2);
    let expect1 = 4 as usize;
    let result2 = cz_iamax(5, &v1, 1);
    let expect2 = 3 as usize;
    let result3 = cz_iamax(5, &v1, -1);
    let expect3 = 0 as usize;
    assert_eq!(result1, expect1);
    assert_eq!(result2, expect2);
    assert_eq!(result3, expect3);
}

// The unit-increment paths against the strided paths.

/// The logical elements of a buffer walked with a positive increment.
fn gather(buf: &[D], n: usize, inc: usize) -> Vec<D> {
    (0..n).map(|i| buf[i * inc]).collect()
}

#[test]
fn swap_unit_and_strided_agree() {
    for n in [0usize, 1, 2, 3, 4, 5, 7] {
        let len = n.max(1);
        let mut x1 = ramp(len);
        let mut y1: Vec<D> = ramp(len).iter().map(|v| Fl(-v.0)).collect();
        let mut x2 = spread(&x1, 2, 0.5);
        let mut y2 = spread(&y1, 3, 0.25);
        a_swap(n as BlasInt, &mut x1, 1, &mut y1, 1);
        a_swap(n as BlasInt, &mut x2, 2, &mut y2, 3);
        assert_eq!(gather(&x1, n, 1), gather(&x2, n, 2));
        assert_eq!(gather(&y1, n, 1), gather(&y2, n, 3));
        for i in 0..n {
            assert_eq!(x1[i].0, -((i + 1) as f64));
            assert_eq!(y1[i].0, (i + 1) as f64);
        }
    }
}

#[test]
fn scal_unit_and_strided_agree() {
    for n in [1usize, 4, 5, 6, 11] {
        let mut x1 = ramp(n);
        let mut x2 = spread(&x1, 2, 0.5);
        sd_scal(n as BlasInt, Fl(3.0), &mut x1, 1);
        sd_scal(n as BlasInt, Fl(3.0), &mut x2, 2);
        assert_eq!(gather(&x1, n, 1), gather(&x2, n, 2));
        for i in 0..n {
            assert_eq!(x1[i].0, 3.0 * (i + 1) as f64);
        }
        for i in 0..n - 1 {
            assert_eq!(x2[2 * i + 1].0, 0.5);
        }
    }
}

#[test]
fn copy_unit_and_strided_agree() {
    for n in [1usize, 6, 7, 8, 15] {
        let x1 = ramp(n);
        let x2 = spread(&x1, 3, 0.5);
        let mut y1 = vec![Fl(0.0); n];
        let mut y2 = vec![Fl(0.0); 2 * n - 1];
        a_copy(n as BlasInt, &x1, 1, &mut y1, 1);
        a_copy(n as BlasInt, &x2, 3, &mut y2, 2);
        assert_eq!(y1, x1);
        assert_eq!(gather(&y2, n, 2), x1);
    }
}

#[test]
fn axpy_unit_and_strided_agree() {
    for n in [1usize, 3, 4, 5, 9] {
        let x1 = ramp(n);
        let x2 = spread(&x1, 2, 0.5);
        let mut y1: Vec<D> = ramp(n).iter().map(|v| Fl(10.0 * v.0)).collect();
        let mut y2 = spread(&y1, 2, 0.25);
        sd_axpy(n as BlasInt, Fl(2.0), &x1, 1, &mut y1, 1);
        sd_axpy(n as BlasInt, Fl(2.0), &x2, 2, &mut y2, 2);
        assert_eq!(gather(&y1, n, 1), gather(&y2, n, 2));
        for i in 0..n {
            assert_eq!(y1[i].0, 12.0 * (i + 1) as f64);
        }
    }
}

#[test]
fn dot_unit_and_strided_agree() {
    for n in [1usize, 4, 5, 6, 11] {
        let x1 = ramp(n);
        let x2 = spread(&x1, 2, 0.5);
        let unit = sd_sdot(n as BlasInt, &x1, 1, &x1, 1);
        let strided = sd_sdot(n as BlasInt, &x2, 2, &x2, 2);
        assert_eq!(unit, strided);
        assert_eq!(unit.0, (n * (n + 1) * (2 * n + 1) / 6) as f64);
    }
}

#[test]
fn dot_adds_the_products_one_after_the_other() {
    // Adding 1 to 1e16 twice leaves 1e16; adding 2 once does not. Both
    // paths add one product at a time.
    let x = dv(&[1e16, 1.0, 1.0, 0.0, 0.0, 0.0]);
    let y = dv(&[1.0; 6]);
    let unit = sd_sdot(6, &x, 1, &y, 1);
    let strided = sd_sdot(6, &spread(&x, 2, 0.0), 2, &y, 1);
    assert_eq!(unit.0, 1e16);
    assert_eq!(strided.0, 1e16);
}

#[test]
fn asum_unit_and_strided_agree() {
    for n in [1usize, 5, 6, 7, 13] {
        let x1: Vec<D> = ramp(n).iter().map(|v| Fl(-v.0)).collect();
        let x2 = spread(&x1, 2, 0.5);
        let unit = sd_asum(n as BlasInt, &x1, 1);
        let strided = sd_asum(n as BlasInt, &x2, 2);
        assert_eq!(unit, strided);
        assert_eq!(unit.0, (n * (n + 1) / 2) as f64);
    }
}

#[test]
fn wide_dot_unit_and_strided_agree() {
    for n in [1usize, 4, 5, 6, 11] {
        let x1: Vec<S> = (1..=n).map(|i| Fl(i as f32)).collect();
        let mut x2 = vec![Fl(0.5_f32); 2 * n - 1];
        for i in 0..n {
            x2[2 * i] = x1[i];
        }
        let expect = (n * (n + 1) * (2 * n + 1) / 6) as f64;
        assert_eq!(cblas_dsdot(n as BlasInt, &x1, 1, &x1, 1).0, expect);
        assert_eq!(cblas_dsdot(n as BlasInt, &x2, 2, &x2, 2).0, expect);
        assert_eq!(cblas_sdsdot(n as BlasInt, Fl(1.0), &x1, 1, &x1, 1).0, 1.0 + expect as f32);
        assert_eq!(cblas_sdsdot(n as BlasInt, Fl(1.0), &x2, 2, &x2, 2).0, 1.0 + expect as f32);
    }
}

// Increments of either sign.

#[test]
fn swap_twice_restores_both_vectors() {
    for (inc_x, inc_y) in [(1, 1), (-2, 3), (2, -1), (-1, -3), (3, 1)] {
        let x0 = ramp(7);
        let y0: Vec<D> = ramp(7).iter().map(|v| Fl(100.0 + v.0)).collect();
        let mut x = x0.clone();
        let mut y = y0.clone();
        a_swap(3, &mut x, inc_x, &mut y, inc_y);
        assert_ne!(x, x0);
        a_swap(3, &mut x, inc_x, &mut y, inc_y);
        assert_eq!(x, x0);
        assert_eq!(y, y0);
    }
}

#[test]
fn swap_pairs_the_logical_elements() {
    let mut x = dv(&[1.0, 2.0]);
    let mut y = dv(&[3.0, 4.0]);
    a_swap(2, &mut x, 1, &mut y, -1);
    assert_eq!(x, dv(&[4.0, 3.0]));
    assert_eq!(y, dv(&[2.0, 1.0]));
}

#[test]
fn copy_with_a_negative_increment_reverses() {
    let x = dv(&[1.0, 2.0, 3.0]);
    let mut y = dv(&[0.0, 0.0, 0.0]);
    a_copy(3, &x, -1, &mut y, 1);
    assert_eq!(y, dv(&[3.0, 2.0, 1.0]));
    let mut z = dv(&[0.0, 9.0, 0.0, 9.0, 0.0]);
    a_copy(3, &x, 1, &mut z, -2);
    assert_eq!(z, dv(&[3.0, 9.0, 2.0, 9.0, 1.0]));
}

#[test]
fn copy_with_increment_zero_fills() {
    let x = dv(&[7.0, 8.0]);
    let mut y = dv(&[0.0, 0.0, 0.0]);
    a_copy(3, &x, 0, &mut y, 1);
    assert_eq!(y, dv(&[7.0, 7.0, 7.0]));
}

#[test]
fn scal_does_not_walk_backwards() {
    let mut x = dv(&[1.0, 2.0, 3.0]);
    sd_scal(3, Fl(2.0), &mut x, -1);
    assert_eq!(x, dv(&[1.0, 2.0, 3.0]));
    let mut z = vec![c64(1.0, 2.0)];
    cz_sscal(1, Fl(2.0), &mut z, -1);
    assert_eq!(z, vec![c64(1.0, 2.0)]);
    cz_scal(1, &c64(2.0, 0.0), &mut z, -1);
    assert_eq!(z, vec![c64(1.0, 2.0)]);
}

#[test]
fn scal_of_no_elements_takes_any_increment() {
    let mut x = dv(&[1.0, 2.0, 3.0]);
    sd_scal(0, Fl(2.0), &mut x, 0);
    sd_scal(-1, Fl(2.0), &mut x, 0);
    assert_eq!(x, dv(&[1.0, 2.0, 3.0]));
    let mut z = vec![c64(1.0, 2.0)];
    cz_scal(0, &c64(2.0, 0.0), &mut z, 0);
    cz_sscal(0, Fl(2.0), &mut z, 0);
    assert_eq!(z, vec![c64(1.0, 2.0)]);
}

#[test]
fn scal_with_a_stride_leaves_the_gaps() {
    let mut x = dv(&[1.0, 2.0, 3.0]);
    sd_scal(2, Fl(10.0), &mut x, 2);
    assert_eq!(x, dv(&[10.0, 2.0, 30.0]));
}

#[test]
fn complex_scal_multiplies_as_complex_numbers() {
    let mut x = vec![c64(1.0, 2.0), c64(9.0, 9.0), c64(0.0, -1.0)];
    cz_scal(2, &c64(0.0, 1.0), &mut x, 2);
    assert_eq!(x, vec![c64(-2.0, 1.0), c64(9.0, 9.0), c64(1.0, 0.0)]);
    let mut y = vec![c64(1.0, -2.0), c64(3.0, 4.0)];
    cz_sscal(2, Fl(-2.0), &mut y, 1);
    assert_eq!(y, vec![c64(-2.0, 4.0), c64(-6.0, -8.0)]);
}

#[test]
fn nothing_happens_without_elements() {
    for n in [0, -1] {
        let mut x = dv(&[1.0, 2.0]);
        let mut y = dv(&[3.0, 4.0]);
        a_swap(n, &mut x, 1, &mut y, 1);
        a_copy(n, &x, 1, &mut y, 1);
        sd_scal(n, Fl(5.0), &mut x, 1);
        sd_axpy(n, Fl(5.0), &x, 1, &mut y, 1);
        sd_rot(n, &mut x, 1, &mut y, 1, Fl(0.0), Fl(1.0));
        sd_rotm(n, &mut x, 1, &mut y, 1, &dv(&[-1.0, 2.0, 2.0, 2.0, 2.0]));
        assert_eq!(x, dv(&[1.0, 2.0]));
        assert_eq!(y, dv(&[3.0, 4.0]));
        assert_eq!(sd_sdot(n, &x, 1, &y, 1).0, 0.0);
        assert_eq!(sd_asum(n, &x, 1).0, 0.0);
        assert_eq!(sd_nrm2(n, &x, 1).0, 0.0);
        assert_eq!(sd_iamax(n, &x, 1), 0);
        assert_eq!(sd_iamin(n, &x, 1), 0);
        assert_eq!(cblas_sdsdot(n, Fl(4.0_f32), &sv(&[1.0]), 1, &sv(&[1.0]), 1).0, 4.0);
        assert_eq!(cblas_dsdot(n, &sv(&[1.0]), 1, &sv(&[1.0]), 1).0, 0.0);
        let zx = vec![c64(1.0, 1.0)];
        assert_eq!(cz_dotu(n, &zx, 1, &zx, 1), c64(0.0, 0.0));
        assert_eq!(cz_dotc(n, &zx, 1, &zx, 1), c64(0.0, 0.0));
        assert_eq!(cz_asum(n, &zx, 1).0, 0.0);
        assert_eq!(cz_iamax(n, &zx, 1), 0);
        assert_eq!(cz_iamin(n, &zx, 1), 0);
    }
}

#[test]
fn reductions_need_a_positive_increment() {
    let x = dv(&[1.0, -2.0, 3.0]);
    for inc in [0, -1] {
        assert_eq!(sd_asum(3, &x, inc).0, 0.0);
        assert_eq!(sd_nrm2(3, &x, inc).0, 0.0);
        assert_eq!(sd_iamax(3, &x, inc), 0);
        assert_eq!(sd_iamin(3, &x, inc), 0);
    }
    let z = vec![c64(1.0, 1.0), c64(5.0, 5.0)];
    assert_eq!(cz_asum(2, &z, 0).0, 0.0);
    assert_eq!(cz_iamax(2, &z, 0), 0);
    assert_eq!(cz_iamin(2, &z, -1), 0);
}

// axpy.

#[test]
fn axpy_can_be_undone_by_subtraction() {
    let a = 0.1;
    let x = dv(&[1.5, -2.25, 3.125, 1e3, -7.0]);
    let y0 = dv(&[0.3, 0.7, -11.0, 5.0, 1e-3]);
    let mut y = y0.clone();
    sd_axpy(5, Fl(a), &x, 1, &mut y, 1);
    for i in 0..5 {
        assert_eq!(y[i].0, y0[i].0 + a * x[i].0);
        let back = y[i].0 - a * x[i].0;
        assert!((back - y0[i].0).abs() <= 1e-12 * (1.0 + y0[i].0.abs() + (a * x[i].0).abs()));
    }
}

#[test]
fn axpy_is_undone_within_a_few_roundings() {
    let eps = f64::EPSILON;
    let alphas = [0.1, -3.7, 1e10, 1e-10, 1.0];
    for (k, alpha) in alphas.iter().enumerate() {
        for n in [0usize, 1, 3, 4, 5, 9] {
            let x: Vec<D> = (0..n + 2).map(|i| Fl(0.37 * (i as f64) - 1.3 + k as f64)).collect();
            let y0: Vec<D> = (0..n + 3).map(|i| Fl(1e3 / (1.0 + i as f64) - 7.7)).collect();
            let x0 = x.clone();
            let mut y = y0.clone();
            sd_axpy(n as BlasInt, Fl(*alpha), &x, 1, &mut y, 1);
            for i in 0..n {
                let ax = alpha * x[i].0;
                let back = y[i].0 - ax;
                assert!((back - y0[i].0).abs() <= 4.0 * eps * (y0[i].0.abs() + ax.abs()));
            }
            assert_eq!(y[n..], y0[n..]);
            assert_eq!(x, x0);
        }
    }
}

#[test]
fn axpy_with_a_zero_factor_is_a_no_op() {
    let x = dv(&[f64::INFINITY, 1.0]);
    let mut y = dv(&[1.0, 2.0]);
    sd_axpy(2, Fl(0.0), &x, 1, &mut y, 1);
    assert_eq!(y, dv(&[1.0, 2.0]));
    sd_axpy(2, Fl(-0.0), &x, 1, &mut y, 1);
    assert_eq!(y, dv(&[1.0, 2.0]));
    let zx = vec![c64(f64::INFINITY, 0.0)];
    let mut zy = vec![c64(1.0, 2.0)];
    cz_axpy(1, &c64(0.0, 0.0), &zx, 1, &mut zy, 1);
    assert_eq!(zy, vec![c64(1.0, 2.0)]);
}

#[test]
fn axpy_with_mixed_increments() {
    let x = dv(&[1.0, 2.0, 3.0]);
    let mut y = dv(&[10.0, 20.0]);
    sd_axpy(2, Fl(2.0), &x, 2, &mut y, -1);
    assert_eq!(y, dv(&[16.0, 22.0]));
}

#[test]
fn complex_axpy_multiplies_as_complex_numbers() {
    let x = vec![c64(1.0, 2.0), c64(0.0, 0.0), c64(2.0, 0.0)];
    let mut y = vec![c64(3.0, 4.0), c64(1.0, 1.0)];
    cz_axpy(2, &c64(0.0, 1.0), &x, 2, &mut y, 1);
    assert_eq!(y, vec![c64(1.0, 5.0), c64(1.0, 3.0)]);
}

// Inner products.

#[test]
fn dot_does_not_depend_on_the_order_of_the_vectors() {
    let x = dv(&[0.1, 0.2, 0.3, 1e10, -7.5, 3.0, 0.7]);
    let y = dv(&[1e-3, 4.0, -0.9, 0.3, 2.5, 1e7, 0.11]);
    assert_eq!(sd_sdot(7, &x, 1, &y, 1), sd_sdot(7, &y, 1, &x, 1));
    assert_eq!(sd_sdot(3, &x, 3, &y, -2), sd_sdot(3, &y, -2, &x, 3));
    let zx = vec![c64(0.1, 0.2), c64(-3.0, 0.7)];
    let zy = vec![c64(1.5, -0.3), c64(0.9, 1e3)];
    assert_eq!(cz_dotu(2, &zx, 1, &zy, 1), cz_dotu(2, &zy, 1, &zx, 1));
}

#[test]
fn dot_is_symmetric_for_any_increments() {
    let x: Vec<D> = (0..40).map(|i| Fl(((i * 37 % 11) as f64 - 5.0) * 1.1e3)).collect();
    let y: Vec<D> = (0..40).map(|i| Fl(((i * 53 % 13) as f64 - 6.0) * 0.7e-3)).collect();
    for n in [0, 1, 4, 5, 6, 11] {
        for (inc_x, inc_y) in [(1, 1), (2, 3), (-1, 1), (-3, -2), (1, -3)] {
            assert_eq!(sd_sdot(n, &x, inc_x, &y, inc_y), sd_sdot(n, &y, inc_y, &x, inc_x));
        }
    }
}

#[test]
fn dotc_conjugates_the_first_vector_only() {
    let x = vec![c64(1.0, 1.0)];
    let y = vec![c64(3.0, -4.0)];
    assert_eq!(cz_dotc(1, &x, 1, &y, 1), c64(-1.0, -7.0));
    assert_eq!(cz_dotc(1, &y, 1, &x, 1), c64(-1.0, 7.0));
    assert_ne!(cz_dotc(1, &x, 1, &y, 1), cz_dotc(1, &y, 1, &x, 1));
}

#[test]
fn dot_with_mixed_increments() {
    let x = dv(&[1.0, 2.0, 3.0]);
    let y = dv(&[10.0, 20.0]);
    assert_eq!(sd_sdot(2, &x, 2, &y, -1).0, 50.0);
    let zx = vec![c64(1.0, 1.0), c64(9.0, 9.0), c64(1.0, -1.0)];
    let zy = vec![c64(6.0, -2.0), c64(3.0, -4.0)];
    assert_eq!(cz_dotu(2, &zx, 2, &zy, -1), c64(11.0, -9.0));
    assert_eq!(cz_dotc(2, &zx, 2, &zy, -1), c64(7.0, -3.0));
}

#[test]
fn wide_accumulation_keeps_what_narrow_accumulation_loses() {
    let x = sv(&[1e8, 1.0, -1e8]);
    let y = sv(&[1.0, 1.0, 1.0]);
    assert_eq!(sd_sdot(3, &x, 1, &y, 1).0, 0.0_f32);
    assert_eq!(cblas_sdsdot(3, Fl(0.0), &x, 1, &y, 1).0, 1.0_f32);
    assert_eq!(cblas_dsdot(3, &x, 1, &y, 1).0, 1.0_f64);
    assert_eq!(cblas_sdsdot(3, Fl(0.5), &x, -1, &y, -1).0, 1.5_f32);
}

// Sums of magnitudes and norms.

#[test]
fn asum_adds_absolute_values() {
    assert_eq!(sd_asum(2, &dv(&[1.0, -9.0, -2.0]), 2).0, 3.0);
    let z = vec![c64(1.0, -2.0), c64(100.0, 100.0), c64(-3.0, 4.0)];
    assert_eq!(cz_asum(1, &z, 1).0, 3.0);
    assert_eq!(cz_asum(2, &z, 2).0, 10.0);
    assert_eq!(cz_asum(3, &z, 1).0, 210.0);
}

#[test]
fn asum_of_a_complex_number_is_not_its_modulus() {
    let z = vec![c64(3.0, 4.0)];
    assert_eq!(cz_asum(1, &z, 1).0, 7.0);
    assert_eq!(z[0].norm().0, 5.0);
}

#[test]
fn nrm2_keeps_large_and_small_elements() {
    let large = sd_nrm2(2, &dv(&[3e200, 4e200]), 1).0;
    assert!(large.is_finite());
    assert!((large - 5e200).abs() <= 1e-15 * 5e200);
    let small = sd_nrm2(2, &dv(&[3e-200, 4e-200]), 1).0;
    assert!(small > 0.0);
    assert!((small - 5e-200).abs() <= 1e-15 * 5e-200);
    let mixed = sd_nrm2(2, &dv(&[1e200, 1e-200]), 1).0;
    assert_eq!(mixed, 1e200);
    let single = sd_nrm2(3, &sv(&[3e30, 0.0, 4e30]), 1).0;
    assert!(single.is_finite());
    assert!((single - 5e30).abs() <= 1e-6 * 5e30);
}

#[test]
fn nrm2_edge_cases() {
    assert_eq!(sd_nrm2(1, &dv(&[-7.0]), 1).0, 7.0);
    assert_eq!(sd_nrm2(1, &dv(&[-7.0, 1.0]), 5).0, 7.0);
    assert_eq!(sd_nrm2(3, &dv(&[0.0, 0.0, 0.0]), 1).0, 0.0);
    assert_eq!(sd_nrm2(3, &dv(&[0.0, -2.0, 0.0]), 1).0, 2.0);
    assert_eq!(sd_nrm2(4, &dv(&[1.0, 1.0, 1.0, 1.0]), 1).0, 2.0);
}

// Positions of extreme elements.

#[test]
fn extreme_elements_are_found_by_position() {
    let x = dv(&[1.0, 100.0, -7.0, 100.0, 3.0]);
    assert_eq!(sd_iamax(3, &x, 2), 2);
    assert_eq!(sd_iamin(3, &x, 2), 0);
    assert_eq!(sd_iamax(5, &x, 1), 1);
    assert_eq!(sd_iamin(2, &dv(&[5.0, 9.0, 9.0, -4.0]), 3), 3);
    assert_eq!(sd_iamin(4, &dv(&[2.0, 1.0, 5.0, -1.0]), 1), 1);
    assert_eq!(sd_iamax(1, &x, 1), 0);
}

#[test]
fn the_first_of_the_largest_and_of_the_smallest_is_found() {
    let vectors: [&[f64]; 7] = [
        &[2.0, 1.0, 5.0, 5.0],
        &[-5.0, 5.0, -5.0],
        &[0.0, -0.0, 0.0],
        &[1.0],
        &[3.0, -7.0, 7.0, 1.0, -1.0, 7.0, 0.5],
        &[f64::INFINITY, 1.0, f64::NEG_INFINITY],
        &[1e-300, -1e-300, 1e300, -1e300],
    ];
    for values in vectors {
        let x = dv(values);
        let n = values.len();
        let r = sd_iamax(n as BlasInt, &x, 1);
        assert!(r < n);
        for j in 0..n {
            assert!(values[j].abs() <= values[r].abs());
        }
        for j in 0..r {
            assert!(values[j].abs() < values[r].abs());
        }
        let r = sd_iamin(n as BlasInt, &x, 1);
        assert!(r < n);
        for j in 0..n {
            assert!(values[j].abs() >= values[r].abs());
        }
        for j in 0..r {
            assert!(values[j].abs() > values[r].abs());
        }
        assert_eq!(x, dv(values));
    }
}

#[test]
fn complex_extremes_go_by_the_taxicab_magnitude() {
    // By modulus the second element would be the larger one.
    let z = vec![c64(3.0, 3.0), c64(5.0, 0.0), c64(0.0, 1.0), c64(0.0, -1.0)];
    assert_eq!(cz_iamax(2, &z, 1), 0);
    assert_eq!(cz_iamin(4, &z, 1), 2);
    assert_eq!(cz_iamin(2, &z, 3), 3);
    assert_eq!(cz_iamin(1, &z, 1), 0);
    assert_eq!(cz_iamax(2, &z, 2), 0);
}

// Plane rotations.

#[test]
fn rotg_zeroes_the_second_coordinate() {
    for (a0, b0) in [(3.0, 4.0), (4.0, 3.0), (-3.0, 4.0), (1e-3, -7.0), (5.0, 0.0)] {
        let (mut a, mut b, mut c, mut s) = (Fl(a0), Fl(b0), Fl(0.0), Fl(0.0));
        sd_rotg(&mut a, &mut b, &mut c, &mut s);
        let mut x = vec![Fl(a0)];
        let mut y = vec![Fl(b0)];
        sd_rot(1, &mut x, 1, &mut y, 1, c, s);
        assert!(y[0].0.abs() <= 1e-14 * (a0.abs() + b0.abs()));
        assert!((x[0].0 - a.0).abs() <= 1e-14 * (a0.abs() + b0.abs()));
        assert!((c.0 * c.0 + s.0 * s.0 - 1.0).abs() <= 1e-14);
    }
}

#[test]
fn rotg_takes_the_sign_of_the_larger_coordinate() {
    let (mut a, mut b, mut c, mut s) = (Fl(-3.0), Fl(0.0), Fl(9.0), Fl(9.0));
    sd_rotg(&mut a, &mut b, &mut c, &mut s);
    assert_eq!((a.0, b.0, c.0, s.0), (-3.0, 0.0, 1.0, 0.0));
    let (mut a, mut b, mut c, mut s) = (Fl(0.0), Fl(-2.0), Fl(9.0), Fl(9.0));
    sd_rotg(&mut a, &mut b, &mut c, &mut s);
    assert_eq!((a.0, b.0, c.0, s.0), (-2.0, 1.0, 0.0, 1.0));
}

#[test]
fn rotg_of_the_origin_is_the_identity() {
    let (mut a, mut b, mut c, mut s) = (Fl(0.0), Fl(0.0), Fl(9.0), Fl(9.0));
    sd_rotg(&mut a, &mut b, &mut c, &mut s);
    assert_eq!((a.0, b.0, c.0, s.0), (0.0, 0.0, 1.0, 0.0));
}

#[test]
fn rotg_recovery_number() {
    // |a| > |b|: z is s.
    let (mut a, mut b, mut c, mut s) = (Fl(4.0), Fl(3.0), Fl(0.0), Fl(0.0));
    sd_rotg(&mut a, &mut b, &mut c, &mut s);
    assert_eq!(b.0, s.0);
    assert!((s.0 - 0.6).abs() <= 1e-15);
    assert!((c.0 - 0.8).abs() <= 1e-15);
    // |a| <= |b| with c not zero: z is 1 / c.
    let (mut a, mut b, mut c, mut s) = (Fl(3.0), Fl(4.0), Fl(0.0), Fl(0.0));
    sd_rotg(&mut a, &mut b, &mut c, &mut s);
    assert_eq!(b.0, 1.0 / c.0);
    assert!((a.0 - 5.0).abs() <= 1e-14);
    assert!((c.0 - 0.6).abs() <= 1e-15);
    assert!((s.0 - 0.8).abs() <= 1e-15);
    let (mut a, mut b, mut c, mut s) = (Fl(2.0), Fl(2.0), Fl(0.0), Fl(0.0));
    sd_rotg(&mut a, &mut b, &mut c, &mut s);
    assert_eq!(b.0, 1.0 / c.0);
    // |a| <= |b| with c zero: z is 1.
    let (mut a, mut b, mut c, mut s) = (Fl(0.0), Fl(5.0), Fl(9.0), Fl(9.0));
    sd_rotg(&mut a, &mut b, &mut c, &mut s);
    assert_eq!((a.0, b.0, c.0, s.0), (5.0, 1.0, 0.0, 1.0));
}

#[test]
fn rotg_of_a_point_on_the_first_axis() {
    let (mut a, mut b, mut c, mut s) = (Fl(1.0), Fl(0.0), Fl(9.0), Fl(9.0));
    sd_rotg(&mut a, &mut b, &mut c, &mut s);
    assert_eq!((a.0, b.0, c.0, s.0), (1.0, 0.0, 1.0, 0.0));
    let (mut a, mut b, mut c, mut s) = (Fl(1.0_f32), Fl(0.0_f32), Fl(9.0_f32), Fl(9.0_f32));
    sd_rotg(&mut a, &mut b, &mut c, &mut s);
    assert_eq!((a.0, b.0, c.0, s.0), (1.0, 0.0, 1.0, 0.0));
}

#[test]
fn the_rotation_is_recovered_from_the_recovery_number() {
    for (a0, b0) in [(4.0, 3.0), (3.0, 4.0), (-5.0, 1.0), (1.0, -5.0), (0.0, 2.0), (2.0, 0.0)] {
        let (mut a, mut z, mut c, mut s) = (Fl(a0), Fl(b0), Fl(0.0_f64), Fl(0.0_f64));
        sd_rotg(&mut a, &mut z, &mut c, &mut s);
        let (c2, s2) = if z.0.abs() < 1.0 {
            ((1.0 - z.0 * z.0).sqrt(), z.0)
        } else if z.0.abs() > 1.0 {
            (1.0 / z.0, (1.0 - 1.0 / (z.0 * z.0)).sqrt())
        } else {
            (0.0, 1.0)
        };
        assert!((c.0 - c2).abs() <= 1e-14, "{} {}", a0, b0);
        assert!((s.0 - s2).abs() <= 1e-14, "{} {}", a0, b0);
    }
}

#[test]
fn the_constructed_rotation_stays_within_a_few_roundings() {
    let eps = f64::EPSILON;
    let points = [
        (3.0, 4.0),
        (4.0, 3.0),
        (-3.0, 4.0),
        (1e-3, -7.0),
        (5.0, 0.0),
        (0.0, -2.5),
        (1e150, 1e150),
        (1e-150, -3e-150),
        (0.1, 0.7),
        (-123.456, 0.001),
    ];
    for (a0, b0) in points {
        let (mut a, mut b, mut c, mut s) = (Fl(a0), Fl(b0), Fl(0.0), Fl(0.0));
        sd_rotg(&mut a, &mut b, &mut c, &mut s);
        let r: f64 = a.0;
        let mut x = vec![Fl(a0)];
        let mut y = vec![Fl(b0)];
        sd_rot(1, &mut x, 1, &mut y, 1, c, s);
        assert!(y[0].0.abs() <= 8.0 * eps * (a0.abs() + b0.abs()), "{} {}", a0, b0);
        assert!((x[0].0 - r).abs() <= 8.0 * eps * r.abs(), "{} {}", a0, b0);
    }
}

#[test]
fn complex_rotg_with_a_zero_first_coordinate() {
    let mut a = c64(0.0, 0.0);
    let b = c64(2.0, -3.0);
    let mut c = Fl(9.0);
    let mut s = c64(9.0, 9.0);
    cz_rotg(&mut a, &b, &mut c, &mut s);
    assert_eq!(a, c64(2.0, -3.0));
    assert_eq!(c.0, 0.0);
    assert_eq!(s, c64(1.0, 0.0));
}

#[test]
fn complex_rotg_follows_its_formula() {
    let a0 = c64(3.0, 4.0);
    let b = c64(1.0, -2.0);
    let mut a = a0;
    let mut c = Fl(0.0);
    let mut s = c64(0.0, 0.0);
    cz_rotg(&mut a, &b, &mut c, &mut s);
    let na = 3.0_f64.hypot(4.0);
    let scale = na + 1.0_f64.hypot(-2.0);
    let qa = (3.0 / scale).hypot(4.0 / scale);
    let qb = (1.0 / scale).hypot(-2.0 / scale);
    let norm = scale * (qa * qa + qb * qb);
    let alpha = c64(3.0 / norm, 4.0 / norm);
    assert_eq!(c.0, na / norm);
    assert_eq!(a, alpha.scale(Fl(norm)));
    assert_eq!(s, alpha.times(b.conj()).unscale(Fl(norm)));
}

#[test]
fn rot_turns_each_point() {
    let mut x = dv(&[1.0, 2.0]);
    let mut y = dv(&[3.0, 4.0]);
    sd_rot(2, &mut x, 1, &mut y, 1, Fl(0.0), Fl(1.0));
    assert_eq!(x, dv(&[3.0, 4.0]));
    assert_eq!(y, dv(&[-1.0, -2.0]));
    let mut x = dv(&[1.0, 2.0]);
    let mut y = dv(&[3.0, 4.0]);
    sd_rot(2, &mut x, 1, &mut y, 1, Fl(0.5), Fl(2.0));
    assert_eq!(x, dv(&[6.5, 9.0]));
    assert_eq!(y, dv(&[-0.5, -2.0]));
}

#[test]
fn rot_with_mixed_increments() {
    let mut x = dv(&[1.0, 9.0, 2.0]);
    let mut y = dv(&[4.0, 3.0]);
    sd_rot(2, &mut x, 2, &mut y, -1, Fl(0.0), Fl(1.0));
    assert_eq!(x, dv(&[3.0, 9.0, 4.0]));
    assert_eq!(y, dv(&[-2.0, -1.0]));
}

#[test]
fn complex_rot_turns_each_point() {
    let mut x = vec![c64(1.0, 2.0), c64(0.0, 1.0)];
    let mut y = vec![c64(3.0, 4.0), c64(1.0, 0.0)];
    cz_srot(2, &mut x, 1, &mut y, -1, Fl(0.0), Fl(1.0));
    assert_eq!(x, vec![c64(1.0, 0.0), c64(3.0, 4.0)]);
    assert_eq!(y, vec![c64(0.0, -1.0), c64(-1.0, -2.0)]);
    let mut x = vec![c64(1.0, 2.0)];
    let mut y = vec![c64(3.0, 4.0)];
    cz_srot(1, &mut x, 1, &mut y, 1, Fl(2.0), Fl(0.5));
    assert_eq!(x, vec![c64(3.5, 6.0)]);
    assert_eq!(y, vec![c64(5.5, 7.0)]);
}

// Modified rotations.

#[test]
fn rotm_reads_the_entries_that_the_flag_calls_stored() {
    let run = |param: &[f64]| {
        let mut x = dv(&[1.0, 2.0]);
        let mut y = dv(&[1.0, 3.0]);
        sd_rotm(2, &mut x, 1, &mut y, 1, &dv(param));
        (x[0].0, x[1].0, y[0].0, y[1].0)
    };
    // x' = w h11 + z h12, y' = w h21 + z h22
    assert_eq!(run(&[-1.0, 1.0, 2.0, 3.0, 4.0]), (4.0, 11.0, 6.0, 16.0));
    // x' = w + z h12, y' = w h21 + z
    assert_eq!(run(&[0.0, 9.0, 2.0, 3.0, 9.0]), (4.0, 11.0, 3.0, 7.0));
    // x' = w h11 + z, y' = -w + z h22
    assert_eq!(run(&[1.0, 5.0, 9.0, 9.0, 7.0]), (6.0, 13.0, 6.0, 19.0));
    // the identity
    assert_eq!(run(&[-2.0, 5.0, 9.0, 9.0, 7.0]), (1.0, 2.0, 1.0, 3.0));
}

#[test]
fn rotm_with_mixed_increments() {
    let mut x = dv(&[1.0, 9.0, 2.0]);
    let mut y = dv(&[4.0, 3.0]);
    sd_rotm(2, &mut x, -2, &mut y, 1, &dv(&[1.0, 10.0, 0.0, 0.0, 100.0]));
    // pairs (2, 4) and (1, 3)
    assert_eq!(x, dv(&[13.0, 9.0, 24.0]));
    assert_eq!(y, dv(&[398.0, 299.0]));
}

fn rotmg(d1: f64, d2: f64, b1: f64, b2: f64) -> (f64, f64, f64, Vec<f64>) {
    let (mut d1, mut d2, mut b1) = (Fl(d1), Fl(d2), Fl(b1));
    let mut params = dv(&[9.0; 5]);
    sd_rotmg(&mut d1, &mut d2, &mut b1, Fl(b2), &mut params);
    (d1.0, d2.0, b1.0, params.iter().map(|p| p.0).collect())
}

#[test]
fn rotmg_with_a_negative_first_factor_wipes_everything() {
    assert_eq!(rotmg(-1.0, 2.0, 3.0, 4.0), (0.0, 0.0, 0.0, vec![-1.0, 0.0, 0.0, 0.0, 0.0]));
}

#[test]
fn rotmg_with_nothing_to_rotate_is_the_identity() {
    assert_eq!(rotmg(1.0, 0.0, 3.0, 4.0), (1.0, 0.0, 3.0, vec![-2.0, 9.0, 9.0, 9.0, 9.0]));
    assert_eq!(rotmg(1.0, 2.0, 3.0, 0.0), (1.0, 2.0, 3.0, vec![-2.0, 9.0, 9.0, 9.0, 9.0]));
}

#[test]
fn rotmg_with_a_unit_diagonal() {
    let u = 1.25;
    assert_eq!(
        rotmg(1.0, 1.0, 2.0, 1.0),
        (1.0 / u, 1.0 / u, 2.0 * u, vec![0.0, 9.0, -0.5, 0.5, 9.0])
    );
}

#[test]
fn rotmg_with_a_unit_anti_diagonal() {
    let u = 1.25;
    assert_eq!(
        rotmg(1.0, 1.0, 1.0, 2.0),
        (1.0 / u, 1.0 / u, 2.0 * u, vec![1.0, 0.5, 9.0, 9.0, 0.5])
    );
    // equal weights go the same way
    assert_eq!(rotmg(1.0, 1.0, 1.0, 1.0), (0.5, 0.5, 2.0, vec![1.0, 1.0, 9.0, 9.0, 1.0]));
}

#[test]
fn rotmg_with_a_negative_second_weight_wipes_everything() {
    assert_eq!(rotmg(1.0, -1.0, 1.0, 2.0), (0.0, 0.0, 0.0, vec![-1.0, 0.0, 0.0, 0.0, 0.0]));
}

#[test]
fn rotmg_scales_a_large_factor_down() {
    let big = 2.0_f64.powi(30);
    let gam = 4096.0;
    let u = 1.0 + 1.0 / big;
    let (d1, d2, b1, params) = rotmg(big, 1.0, 1.0, 1.0);
    assert_eq!(d1, big / u / (gam * gam));
    assert_eq!(d2, 1.0 / u);
    assert_eq!(b1, u * gam);
    assert_eq!(params, vec![-1.0, gam, -1.0, gam / big, 1.0]);
    assert!(d1 > 5.96046e-8 && d1 < 1.67772e7);
}

#[test]
fn rotmg_scales_small_factors_up() {
    let gam = 4096.0;
    let u = 1.0 + 2.0_f64.powi(-10);
    let (d1, d2, b1, params) = rotmg(2.0_f64.powi(-40), 2.0_f64.powi(-50), 1.0, 1.0);
    assert_eq!(d1, 2.0_f64.powi(-40) / u * (gam * gam));
    assert_eq!(d2, 2.0_f64.powi(-50) / u * (gam * gam) * (gam * gam));
    assert_eq!(b1, u / gam);
    // The second factor is rescaled twice, and each rescaling of a fully
    // stored rotation sets the off-diagonal back to 1 and -1.
    assert_eq!(params, vec![-1.0, 1.0 / gam, -1.0 / gam, 1.0, 1.0 / gam / gam]);
    assert!(d1 > 5.96046e-8 && d1 < 1.67772e7);
    assert!(d2 > 5.96046e-8 && d2 < 1.67772e7);
}

#[test]
fn rotmg_gives_up_on_a_factor_that_no_rescaling_changes() {
    let (d1, _, _, params) = rotmg(f64::INFINITY, 1.0, 1.0, 1.0);
    assert!(d1.is_nan() || d1.is_infinite());
    assert_eq!(params[0], -1.0);
}

#[test]
fn rotmg_in_single_precision() {
    let (mut d1, mut d2, mut b1) = (Fl(1.0_f32), Fl(1.0_f32), Fl(1.0_f32));
    let mut params = sv(&[9.0; 5]);
    sd_rotmg(&mut d1, &mut d2, &mut b1, Fl(2.0_f32), &mut params);
    assert_eq!((d1.0, d2.0, b1.0), (0.8_f32, 0.8_f32, 2.5_f32));
    assert_eq!(params, sv(&[1.0, 0.5, 9.0, 9.0, 0.5]));
}

#[test]
fn rotmg_and_rotm_zero_the_second_coordinate() {
    for (d1, d2, b1, b2) in [(1.0, 1.0, 2.0, 1.0), (1.0, 1.0, 1.0, 2.0), (3.0, 0.5, -1.0, 4.0)] {
        let (mut e1, mut e2, mut c1) = (Fl(d1), Fl(d2), Fl(b1));
        let mut params = dv(&[0.0; 5]);
        sd_rotmg(&mut e1, &mut e2, &mut c1, Fl(b2), &mut params);
        let mut x = dv(&[b1]);
        let mut y = dv(&[b2]);
        sd_rotm(1, &mut x, 1, &mut y, 1, &params);
        assert!(y[0].0.abs() <= 1e-14);
        assert!((x[0].0 - c1.0).abs() <= 1e-14);
    }
}

// Complex numbers.

#[test]
fn complex_arithmetic() {
    let a = c64(1.0, 2.0);
    let b = c64(3.0, -4.0);
    assert_eq!(a.plus(b), c64(4.0, -2.0));
    assert_eq!(a.minus(b), c64(-2.0, 6.0));
    assert_eq!(a.times(b), c64(11.0, 2.0));
    assert_eq!(a.conj(), c64(1.0, -2.0));
    assert_eq!(a.scale(Fl(2.0)), c64(2.0, 4.0));
    assert_eq!(b.unscale(Fl(2.0)), c64(1.5, -2.0));
    assert_eq!(b.norm().0, 5.0);
    assert_eq!(b.l1_norm().0, 7.0);
    assert_eq!(Complex::<D>::zero(), c64(0.0, 0.0));
}

#[test]
fn complex_arithmetic_agrees_with_the_usual_one() {
    let pairs = [((1.5, -2.0), (0.25, 8.0)), ((-3.0, 0.5), (7.0, -1.0)), ((0.0, 1.0), (0.0, 1.0))];
    for ((ar, ai), (br, bi)) in pairs {
        let ours = c64(ar, ai).times(c64(br, bi));
        let theirs = num_complex::Complex64::new(ar, ai) * num_complex::Complex64::new(br, bi);
        assert_eq!((ours.re.0, ours.im.0), (theirs.re, theirs.im));
        let ours = c64(ar, ai).plus(c64(br, bi));
        let theirs = num_complex::Complex64::new(ar, ai) + num_complex::Complex64::new(br, bi);
        assert_eq!((ours.re.0, ours.im.0), (theirs.re, theirs.im));
        let theirs = num_complex::Complex64::new(ar, ai);
        assert_eq!(c64(ar, ai).norm().0, theirs.norm());
        assert_eq!(c64(ar, ai).l1_norm().0, theirs.l1_norm());
        assert_eq!(c64(ar, ai).conj().im.0, theirs.conj().im);
        assert_eq!(c64(ar, ai).unscale(Fl(3.0)).re.0, theirs.unscale(3.0).re);
    }
}

#[test]
fn decimal_constants() {
    assert_eq!(D::from_decimal(167772, 2).0, 1.67772e7_f64);
    assert_eq!(D::from_decimal(596046, -13).0, 5.96046e-8_f64);
    assert_eq!(S::from_decimal(167772, 2).0, 1.67772e7_f64 as f32);
    assert_eq!(S::from_decimal(596046, -13).0, 5.96046e-8_f64 as f32);
    assert_eq!(D::from_decimal(4096, 0).0, 4096.0);
}
