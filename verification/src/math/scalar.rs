//! The fixed-point scalar underlying every geometric quantity.
//!
//! A `Scalar` stores a signed 64-bit raw value denoting `raw / SCALE` with
//! `SCALE = 2^16`.  Every operation is specified exactly over the raw
//! integers: multiplication and division truncate toward zero (`tdiv` /
//! `sdiv`) and square roots round down (`isqrt`), so each result is pinned to
//! a single mathematical value.

use vstd::prelude::*;

verus! {

use vstd::arithmetic::div_mod::lemma_div_is_ordered;
use vstd::arithmetic::div_mod::lemma_div_pos_is_pos;
use vstd::arithmetic::div_mod::lemma_div_nonincreasing;

/// Raw units per unit value: the fixed-point scale factor, `2^16`.
pub const SCALE: i64 = 65536;

/// Whether a mathematical integer is representable as an `i64` raw value.
pub open spec fn fits_i64(x: int) -> bool {
    i64::MIN <= x <= i64::MAX
}

/// Division truncated toward zero, for a positive divisor.
///
/// Ghost `/` is Euclidean; flooring the magnitude instead matches what the
/// executable code computes with unsigned division and an explicit sign.
pub open spec fn tdiv(a: int, b: int) -> int {
    if a >= 0 {
        a / b
    } else {
        -((-a) / b)
    }
}

/// Division truncated toward zero, for any nonzero divisor.
pub open spec fn sdiv(a: int, b: int) -> int {
    if b >= 0 {
        tdiv(a, b)
    } else {
        tdiv(-a, -b)
    }
}

/// The integer square root, rounded down: the greatest `r` with `r * r <= n`
/// (and `0` for negative arguments).
pub open spec fn isqrt(n: int) -> int
    decreases n,
{
    if n <= 0 {
        0
    } else {
        let r = isqrt(n - 1);
        if (r + 1) * (r + 1) <= n {
            r + 1
        } else {
            r
        }
    }
}

/// The integer square root is never negative.
pub proof fn lemma_isqrt_nonneg(n: int)
    ensures
        isqrt(n) >= 0,
    decreases n,
{
    if n > 0 {
        lemma_isqrt_nonneg(n - 1);
    }
}

/// `isqrt(n)` is the floor of the real square root of `n`.
pub proof fn lemma_isqrt_bounds(n: int)
    requires
        n >= 0,
    ensures
        isqrt(n) >= 0,
        isqrt(n) * isqrt(n) <= n,
        n < (isqrt(n) + 1) * (isqrt(n) + 1),
    decreases n,
{
    if n == 0 {
    } else {
        lemma_isqrt_bounds(n - 1);
        let r = isqrt(n - 1);
        if (r + 1) * (r + 1) <= n {
            assert(n <= (r + 1) * (r + 1));
            assert(n < (r + 2) * (r + 2)) by (nonlinear_arith)
                requires
                    r >= 0,
                    n <= (r + 1) * (r + 1),
            ;
        } else {
        }
    }
}

/// Any integer in the floor-square-root window of `n` equals `isqrt(n)`.
pub proof fn lemma_isqrt_unique(n: int, r: int)
    requires
        n >= 0,
        r >= 0,
        r * r <= n,
        n < (r + 1) * (r + 1),
    ensures
        r == isqrt(n),
{
    lemma_isqrt_bounds(n);
    let s = isqrt(n);
    if r < s {
        assert((r + 1) * (r + 1) <= s * s) by (nonlinear_arith)
            requires
                0 <= r,
                r + 1 <= s,
            ;
    }
    if s < r {
        assert((s + 1) * (s + 1) <= r * r) by (nonlinear_arith)
            requires
                0 <= s,
                s + 1 <= r,
            ;
    }
}

/// Truncated division keeps the sign of the dividend and shrinks magnitude.
pub proof fn lemma_tdiv_bounds(a: int, b: int)
    requires
        b > 0,
    ensures
        a >= 0 ==> 0 <= tdiv(a, b) <= a,
        a < 0 ==> a <= tdiv(a, b) <= 0,
{
    if a >= 0 {
        lemma_div_pos_is_pos(a, b);
        lemma_div_nonincreasing(a, b);
    } else {
        lemma_div_pos_is_pos(-a, b);
        lemma_div_nonincreasing(-a, b);
    }
}

/// Truncated division is monotone in the (same-sign-window) dividend:
/// a magnitude bound on `a` bounds the magnitude of the quotient.
pub proof fn lemma_tdiv_abs_bound(a: int, b: int, m: int)
    requires
        b > 0,
        -m <= a <= m,
        0 <= m,
    ensures
        -tdiv(m, b) <= tdiv(a, b) <= tdiv(m, b),
{
    lemma_tdiv_bounds(a, b);
    lemma_tdiv_bounds(m, b);
    if a >= 0 {
        lemma_div_is_ordered(a, m, b);
    } else {
        lemma_div_is_ordered(-a, m, b);
    }
}

/// A magnitude bound on both factors bounds the magnitude of a product.
pub proof fn lemma_mul_abs_bound(a: int, b: int, ma: int, mb: int)
    requires
        -ma <= a <= ma,
        -mb <= b <= mb,
        0 <= ma,
        0 <= mb,
    ensures
        -(ma * mb) <= a * b <= ma * mb,
{
    assert(-(ma * mb) <= a * b <= ma * mb) by (nonlinear_arith)
        requires
            -ma <= a <= ma,
            -mb <= b <= mb,
            0 <= ma,
            0 <= mb,
    ;
}

/// Division truncated toward zero on wide integers; the divisor is positive.
pub(crate) fn tdiv_i128(a: i128, b: i128) -> (r: i128)
    requires
        a > i128::MIN,
        b > 0,
    ensures
        r == tdiv(a as int, b as int),
{
    proof {
        lemma_tdiv_bounds(a as int, b as int);
    }
    if a >= 0 {
        ((a as u128) / (b as u128)) as i128
    } else {
        -((((-a) as u128) / (b as u128)) as i128)
    }
}

/// The exact product of two machine integers, in a wide register.
pub(crate) fn mul_wide(a: i64, b: i64) -> (r: i128)
    ensures
        r == a as int * b as int,
{
    proof {
        lemma_mul_abs_bound(a as int, b as int, 0x8000_0000_0000_0000, 0x8000_0000_0000_0000);
    }
    (a as i128) * (b as i128)
}

/// Multiplication saturated to the raw range, as `mul_sat_spec` describes.
pub open spec fn mul_sat_spec(a: int, b: int) -> int {
    let p = tdiv(a * b, SCALE as int);
    if p > i64::MAX {
        i64::MAX as int
    } else if p < i64::MIN {
        i64::MIN as int
    } else {
        p
    }
}

/// The integer square root of a wide unsigned value, by bisection.
pub(crate) fn isqrt_u128(n: u128) -> (r: u128)
    requires
        n < 1267650600228229401496703205376u128,  // 2^100
    ensures
        r as int == isqrt(n as int),
        r <= 1125899906842624u128,  // 2^50
{
    let mut lo: u128 = 0;
    let mut hi: u128 = 1125899906842624u128;  // 2^50
    proof {
        assert((hi as int) * (hi as int) == 1267650600228229401496703205376int);
    }
    while hi - lo > 1
        invariant
            lo < hi,
            hi <= 1125899906842624u128,
            (lo as int) * (lo as int) <= n as int,
            (n as int) < (hi as int) * (hi as int),
        decreases hi - lo,
    {
        let mid = lo + (hi - lo) / 2;
        assert(lo < mid < hi);
        proof {
            assert((mid as int) * (mid as int) <= 1267650600228229401496703205376int)
                by (nonlinear_arith)
                requires
                    0 <= mid as int <= 1125899906842624int,
            ;
        }
        if mid * mid <= n {
            lo = mid;
        } else {
            hi = mid;
        }
    }
    proof {
        lemma_isqrt_unique(n as int, lo as int);
    }
    lo
}

/// A fixed-point number: the represented value is `raw / SCALE`.
#[derive(Clone, Copy, PartialEq, Eq, Structural, Debug)]
pub struct Scalar {
    pub raw: i64,
}

impl View for Scalar {
    type V = int;

    open spec fn view(&self) -> int {
        self.raw as int
    }
}

impl Scalar {
    /// The scalar with the given raw value.
    pub fn from_raw(raw: i64) -> (r: Scalar)
        ensures
            r@ == raw,
    {
        Scalar { raw }
    }

    /// The scalar representing the integer `i` exactly.
    pub fn from_int(i: i64) -> (r: Scalar)
        requires
            fits_i64(i * SCALE),
        ensures
            r@ == i * SCALE,
    {
        Scalar { raw: i * SCALE }
    }

    /// Zero.
    pub fn zero() -> (r: Scalar)
        ensures
            r@ == 0,
    {
        Scalar { raw: 0 }
    }

    /// One.
    pub fn one() -> (r: Scalar)
        ensures
            r@ == SCALE,
    {
        Scalar { raw: SCALE }
    }

    /// One half, exactly representable.
    pub fn half() -> (r: Scalar)
        ensures
            2 * r@ == SCALE,
    {
        Scalar { raw: 32768 }
    }

    /// The circle constant, rounded down to the nearest raw unit.
    pub fn pi() -> (r: Scalar)
        ensures
            r@ == 205887,
    {
        Scalar { raw: 205887 }
    }

    /// Whether this scalar is exactly zero.
    pub fn is_zero(self) -> (r: bool)
        ensures
            r == (self@ == 0),
    {
        self.raw == 0
    }

    /// Exact comparison: strictly less.
    pub fn lt(self, rhs: Scalar) -> (r: bool)
        ensures
            r == (self@ < rhs@),
    {
        self.raw < rhs.raw
    }

    /// Exact comparison: less or equal.
    pub fn le(self, rhs: Scalar) -> (r: bool)
        ensures
            r == (self@ <= rhs@),
    {
        self.raw <= rhs.raw
    }

    /// Exact addition.
    pub fn add(self, rhs: Scalar) -> (r: Scalar)
        requires
            fits_i64(self@ + rhs@),
        ensures
            r@ == self@ + rhs@,
    {
        Scalar { raw: self.raw + rhs.raw }
    }

    /// Exact subtraction.
    pub fn sub(self, rhs: Scalar) -> (r: Scalar)
        requires
            fits_i64(self@ - rhs@),
        ensures
            r@ == self@ - rhs@,
    {
        Scalar { raw: self.raw - rhs.raw }
    }

    /// Exact negation.
    pub fn neg(self) -> (r: Scalar)
        requires
            fits_i64(-self@),
        ensures
            r@ == -self@,
    {
        Scalar { raw: -self.raw }
    }

    /// Multiplication, truncated toward zero at the fixed-point scale.
    pub fn mul(self, rhs: Scalar) -> (r: Scalar)
        requires
            fits_i64(tdiv(self@ * rhs@, SCALE as int)),
        ensures
            r@ == tdiv(self@ * rhs@, SCALE as int),
    {
        proof {
            assert(self@ * rhs@ > i128::MIN && self@ * rhs@ < i128::MAX) by (nonlinear_arith)
                requires
                    i64::MIN <= self@ <= i64::MAX,
                    i64::MIN <= rhs@ <= i64::MAX,
            ;
        }
        let wide: i128 = (self.raw as i128) * (rhs.raw as i128);
        let q = tdiv_i128(wide, SCALE as i128);
        Scalar { raw: q as i64 }
    }

    /// Division, truncated toward zero; the divisor must be nonzero.
    pub fn div(self, rhs: Scalar) -> (r: Scalar)
        requires
            rhs@ != 0,
            fits_i64(sdiv(self@ * SCALE, rhs@)),
        ensures
            r@ == sdiv(self@ * SCALE, rhs@),
    {
        let num: i128 = (self.raw as i128) * (SCALE as i128);
        let q = if rhs.raw > 0 {
            tdiv_i128(num, rhs.raw as i128)
        } else {
            tdiv_i128(-num, -(rhs.raw as i128))
        };
        Scalar { raw: q as i64 }
    }

    /// The multiplicative inverse, truncated toward zero.
    ///
    /// The reciprocal of zero saturates to the largest raw value, standing in
    /// for an unbounded result; callers that care test for zero first.
    pub fn recip(self) -> (r: Scalar)
        ensures
            self@ == 0 ==> r@ == i64::MAX,
            self@ != 0 ==> r@ == sdiv(SCALE * SCALE, self@),
    {
        if self.raw == 0 {
            Scalar { raw: i64::MAX }
        } else {
            proof {
                lemma_tdiv_bounds(SCALE * SCALE, if self@ > 0 { self@ } else { -self@ });
            }
            Scalar::one().div(self)
        }
    }

    /// The square root of a nonnegative scalar, rounded down.
    pub fn sqrt(self) -> (r: Scalar)
        requires
            self@ >= 0,
        ensures
            r@ == isqrt(self@ * SCALE),
            r@ >= 0,
    {
        let n: u128 = (self.raw as u128) * (SCALE as u128);
        let s = isqrt_u128(n);
        proof {
            lemma_isqrt_bounds(n as int);
        }
        Scalar { raw: s as i64 }
    }

    /// The absolute value.
    pub fn abs(self) -> (r: Scalar)
        requires
            fits_i64(-self@),
        ensures
            r@ == if self@ >= 0 { self@ } else { -self@ },
    {
        if self.raw >= 0 {
            self
        } else {
            Scalar { raw: -self.raw }
        }
    }

    /// The smaller of two scalars.
    pub fn min(self, rhs: Scalar) -> (r: Scalar)
        ensures
            r@ == if self@ <= rhs@ { self@ } else { rhs@ },
    {
        if self.raw <= rhs.raw {
            self
        } else {
            rhs
        }
    }

    /// The larger of two scalars.
    pub fn max(self, rhs: Scalar) -> (r: Scalar)
        ensures
            r@ == if self@ >= rhs@ { self@ } else { rhs@ },
    {
        if self.raw >= rhs.raw {
            self
        } else {
            rhs
        }
    }

    /// Multiplication that saturates to the representable raw range instead
    /// of demanding room; used for size heuristics, never for geometry.
    pub fn mul_sat(self, rhs: Scalar) -> (r: Scalar)
        ensures
            r@ == mul_sat_spec(self@, rhs@),
    {
        let wide = mul_wide(self.raw, rhs.raw);
        proof {
            lemma_mul_abs_bound(self@, rhs@, 0x8000_0000_0000_0000, 0x8000_0000_0000_0000);
        }
        let q = tdiv_i128(wide, SCALE as i128);
        if q > i64::MAX as i128 {
            Scalar { raw: i64::MAX }
        } else if q < i64::MIN as i128 {
            Scalar { raw: i64::MIN }
        } else {
            Scalar { raw: q as i64 }
        }
    }

    /// Linear interpolation: `a + self * (b - a)`.
    pub fn lerp(self, a: Scalar, b: Scalar) -> (r: Scalar)
        requires
            fits_i64(b@ - a@),
            fits_i64(tdiv(self@ * (b@ - a@), SCALE as int)),
            fits_i64(a@ + tdiv(self@ * (b@ - a@), SCALE as int)),
        ensures
            r@ == a@ + tdiv(self@ * (b@ - a@), SCALE as int),
    {
        a.add(self.mul(b.sub(a)))
    }
}

} // verus!
