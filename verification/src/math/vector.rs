//! Three-component vectors over the fixed-point scalar.
//!
//! Products are specified through `dot_wide`, the exact integer sum of raw
//! products before the single truncating rescale; magnitudes round down
//! through `isqrt`.  Preconditions only bound component magnitudes as far as
//! the 64-bit raw representation forces.

use vstd::prelude::*;

verus! {

use crate::math::scalar::Scalar;
use crate::math::scalar::SCALE;
use crate::math::scalar::fits_i64;
use crate::math::scalar::tdiv;
use crate::math::scalar::sdiv;
use crate::math::scalar::isqrt;
use crate::math::scalar::lemma_isqrt_bounds;
use crate::math::scalar::lemma_tdiv_bounds;
use crate::math::scalar::lemma_tdiv_abs_bound;
use crate::math::scalar::lemma_mul_abs_bound;
use crate::math::point::Point;
use vstd::arithmetic::div_mod::lemma_fundamental_div_mod;
use vstd::arithmetic::div_mod::lemma_mod_bound;

/// Component bound under which a wide dot product stays within `i128`.
pub const DOT_ARG_MAX: i64 = 281474976710656;

/// Component bound under which a vector may be normalized.
pub const NORM_ARG_MAX: i64 = 35184372088832;

/// Component bound under which pairwise products fit `i64` raw values.
pub const MUL_ARG_MAX: i64 = 274877906944;

/// A direction or displacement in space.
#[derive(Clone, Copy, PartialEq, Eq, Structural, Debug)]
pub struct Vector {
    pub x: Scalar,
    pub y: Scalar,
    pub z: Scalar,
}

/// The vector whose raw components are the given integers (truncated into
/// the raw range; meaningful when each value fits).
pub open spec fn vec_from_ints(x: int, y: int, z: int) -> Vector {
    Vector { x: Scalar { raw: x as i64 }, y: Scalar { raw: y as i64 }, z: Scalar { raw: z as i64 } }
}

impl Vector {
    /// Whether every component's raw value has magnitude at most `m`.
    pub open spec fn bounded(self, m: int) -> bool {
        &&& -m <= self.x@ <= m
        &&& -m <= self.y@ <= m
        &&& -m <= self.z@ <= m
    }

    /// The exact integer dot product of raw components, before rescaling.
    pub open spec fn dot_wide(self, rhs: Vector) -> int {
        self.x@ * rhs.x@ + self.y@ * rhs.y@ + self.z@ * rhs.z@
    }

    /// The raw value of this vector's magnitude, rounded down.
    pub open spec fn magnitude_raw(self) -> int {
        isqrt(tdiv(self.dot_wide(self), SCALE as int) * SCALE)
    }

    /// The exact result of `normalized`: each component divided once by the
    /// rounded magnitude, or the zero vector when the magnitude rounds to
    /// zero.
    pub open spec fn normalized_spec(self) -> Vector {
        let m = self.magnitude_raw();
        if m == 0 {
            vec_from_ints(0, 0, 0)
        } else {
            vec_from_ints(
                tdiv(self.x@ * SCALE, m),
                tdiv(self.y@ * SCALE, m),
                tdiv(self.z@ * SCALE, m),
            )
        }
    }

    /// The exact componentwise sum.
    pub open spec fn add_spec(self, rhs: Vector) -> Vector {
        vec_from_ints(self.x@ + rhs.x@, self.y@ + rhs.y@, self.z@ + rhs.z@)
    }

    /// The exact componentwise difference.
    pub open spec fn sub_spec(self, rhs: Vector) -> Vector {
        vec_from_ints(self.x@ - rhs.x@, self.y@ - rhs.y@, self.z@ - rhs.z@)
    }

    /// The exact result of scaling by a raw value `k`.
    pub open spec fn mul_spec(self, k: int) -> Vector {
        vec_from_ints(
            tdiv(self.x@ * k, SCALE as int),
            tdiv(self.y@ * k, SCALE as int),
            tdiv(self.z@ * k, SCALE as int),
        )
    }

    /// The exact result of `cross`.
    pub open spec fn cross_spec(self, rhs: Vector) -> Vector {
        vec_from_ints(
            tdiv(self.y@ * rhs.z@, SCALE as int) - tdiv(self.z@ * rhs.y@, SCALE as int),
            tdiv(self.z@ * rhs.x@, SCALE as int) - tdiv(self.x@ * rhs.z@, SCALE as int),
            tdiv(self.x@ * rhs.y@, SCALE as int) - tdiv(self.y@ * rhs.x@, SCALE as int),
        )
    }

    /// The vector with the given components.
    pub fn new(x: Scalar, y: Scalar, z: Scalar) -> (r: Vector)
        ensures
            r == (Vector { x, y, z }),
    {
        Vector { x, y, z }
    }

    /// The unit vector along positive x.
    pub fn plus_x() -> (r: Vector)
        ensures
            r.x@ == SCALE && r.y@ == 0 && r.z@ == 0,
    {
        Vector { x: Scalar::one(), y: Scalar::zero(), z: Scalar::zero() }
    }

    /// The unit vector along positive y.
    pub fn plus_y() -> (r: Vector)
        ensures
            r.x@ == 0 && r.y@ == SCALE && r.z@ == 0,
    {
        Vector { x: Scalar::zero(), y: Scalar::one(), z: Scalar::zero() }
    }

    /// The unit vector along positive z.
    pub fn plus_z() -> (r: Vector)
        ensures
            r.x@ == 0 && r.y@ == 0 && r.z@ == SCALE,
    {
        Vector { x: Scalar::zero(), y: Scalar::zero(), z: Scalar::one() }
    }

    /// The zero vector.
    pub fn zero() -> (r: Vector)
        ensures
            r.x@ == 0 && r.y@ == 0 && r.z@ == 0,
    {
        Vector { x: Scalar::zero(), y: Scalar::zero(), z: Scalar::zero() }
    }

    /// Whether every component is exactly zero.
    pub fn is_zero(&self) -> (r: bool)
        ensures
            r == (self.x@ == 0 && self.y@ == 0 && self.z@ == 0),
    {
        self.x.is_zero() && self.y.is_zero() && self.z.is_zero()
    }

    /// Componentwise sum.
    pub fn add(self, rhs: Vector) -> (r: Vector)
        requires
            fits_i64(self.x@ + rhs.x@),
            fits_i64(self.y@ + rhs.y@),
            fits_i64(self.z@ + rhs.z@),
        ensures
            r == self.add_spec(rhs),
            r.x@ == self.x@ + rhs.x@,
            r.y@ == self.y@ + rhs.y@,
            r.z@ == self.z@ + rhs.z@,
    {
        Vector { x: self.x.add(rhs.x), y: self.y.add(rhs.y), z: self.z.add(rhs.z) }
    }

    /// Componentwise difference.
    pub fn sub(self, rhs: Vector) -> (r: Vector)
        requires
            fits_i64(self.x@ - rhs.x@),
            fits_i64(self.y@ - rhs.y@),
            fits_i64(self.z@ - rhs.z@),
        ensures
            r == self.sub_spec(rhs),
            r.x@ == self.x@ - rhs.x@,
            r.y@ == self.y@ - rhs.y@,
            r.z@ == self.z@ - rhs.z@,
    {
        Vector { x: self.x.sub(rhs.x), y: self.y.sub(rhs.y), z: self.z.sub(rhs.z) }
    }

    /// Scaling by a scalar, each component truncated toward zero.
    pub fn mul(self, rhs: Scalar) -> (r: Vector)
        requires
            self.bounded(MUL_ARG_MAX as int),
            -MUL_ARG_MAX <= rhs@ <= MUL_ARG_MAX,
        ensures
            r == self.mul_spec(rhs@),
            r.x@ == tdiv(self.x@ * rhs@, SCALE as int),
            r.y@ == tdiv(self.y@ * rhs@, SCALE as int),
            r.z@ == tdiv(self.z@ * rhs@, SCALE as int),
            r.bounded(0x1000_0000_0000_0000),
    {
        proof {
            lemma_scaled_product_fits(self.x@, rhs@);
            lemma_scaled_product_fits(self.y@, rhs@);
            lemma_scaled_product_fits(self.z@, rhs@);
        }
        Vector { x: self.x.mul(rhs), y: self.y.mul(rhs), z: self.z.mul(rhs) }
    }

    /// Componentwise reciprocal, with the saturating convention of
    /// `Scalar::recip` for zero components.
    pub fn recip(self) -> (r: Vector)
        ensures
            self.x@ == 0 ==> r.x@ == i64::MAX,
            self.x@ != 0 ==> r.x@ == sdiv(SCALE * SCALE, self.x@),
            self.y@ == 0 ==> r.y@ == i64::MAX,
            self.y@ != 0 ==> r.y@ == sdiv(SCALE * SCALE, self.y@),
            self.z@ == 0 ==> r.z@ == i64::MAX,
            self.z@ != 0 ==> r.z@ == sdiv(SCALE * SCALE, self.z@),
    {
        Vector { x: self.x.recip(), y: self.y.recip(), z: self.z.recip() }
    }

    /// The dot product, rescaled once and truncated toward zero.
    pub fn dot(self, rhs: Vector) -> (r: Scalar)
        requires
            self.bounded(DOT_ARG_MAX as int),
            rhs.bounded(DOT_ARG_MAX as int),
            fits_i64(tdiv(self.dot_wide(rhs), SCALE as int)),
        ensures
            r@ == tdiv(self.dot_wide(rhs), SCALE as int),
    {
        proof {
            lemma_mul_abs_bound(self.x@, rhs.x@, DOT_ARG_MAX as int, DOT_ARG_MAX as int);
            lemma_mul_abs_bound(self.y@, rhs.y@, DOT_ARG_MAX as int, DOT_ARG_MAX as int);
            lemma_mul_abs_bound(self.z@, rhs.z@, DOT_ARG_MAX as int, DOT_ARG_MAX as int);
        }
        let wide: i128 = (self.x.raw as i128) * (rhs.x.raw as i128) + (self.y.raw as i128) * (
        rhs.y.raw as i128) + (self.z.raw as i128) * (rhs.z.raw as i128);
        let q = crate::math::scalar::tdiv_i128(wide, SCALE as i128);
        Scalar { raw: q as i64 }
    }

    /// The squared magnitude.
    pub fn magnitude_sq(self) -> (r: Scalar)
        requires
            self.bounded(DOT_ARG_MAX as int),
            fits_i64(tdiv(self.dot_wide(self), SCALE as int)),
        ensures
            r@ == tdiv(self.dot_wide(self), SCALE as int),
            r@ >= 0,
    {
        proof {
            lemma_dot_self_nonneg(self);
            lemma_tdiv_bounds(self.dot_wide(self), SCALE as int);
        }
        self.dot(self)
    }

    /// The magnitude, rounded down to the raw grid.
    pub fn magnitude(self) -> (r: Scalar)
        requires
            self.bounded(DOT_ARG_MAX as int),
            fits_i64(tdiv(self.dot_wide(self), SCALE as int)),
        ensures
            r@ == self.magnitude_raw(),
            r@ >= 0,
    {
        self.magnitude_sq().sqrt()
    }

    /// The unit vector in this direction, each component divided once by the
    /// magnitude and truncated.  A vector whose magnitude rounds to zero
    /// normalizes to the zero vector.
    pub fn normalized(self) -> (r: Vector)
        requires
            self.bounded(NORM_ARG_MAX as int),
        ensures
            r == self.normalized_spec(),
            r.bounded(2 * SCALE),
    {
        proof {
            lemma_mul_abs_bound(self.x@, self.x@, NORM_ARG_MAX as int, NORM_ARG_MAX as int);
            lemma_mul_abs_bound(self.y@, self.y@, NORM_ARG_MAX as int, NORM_ARG_MAX as int);
            lemma_mul_abs_bound(self.z@, self.z@, NORM_ARG_MAX as int, NORM_ARG_MAX as int);
            lemma_dot_self_nonneg(self);
            lemma_tdiv_bounds(self.dot_wide(self), SCALE as int);
        }
        let qq: i128 = (self.x.raw as i128) * (self.x.raw as i128) + (self.y.raw as i128) * (
        self.y.raw as i128) + (self.z.raw as i128) * (self.z.raw as i128);
        let t = crate::math::scalar::tdiv_i128(qq, SCALE as i128);
        let m128 = crate::math::scalar::isqrt_u128((t as u128) * (SCALE as u128));
        let m = m128 as i128;
        if m == 0 {
            Vector::zero()
        } else {
            proof {
                let qq_g = self.dot_wide(self);
                assert(self.x@ * self.x@ <= qq_g && self.y@ * self.y@ <= qq_g && self.z@ * self.z@
                    <= qq_g) by (nonlinear_arith)
                    requires
                        qq_g == self.x@ * self.x@ + self.y@ * self.y@ + self.z@ * self.z@,
                ;
                lemma_norm_component_bound(self.x@, self.dot_wide(self), self.magnitude_raw());
                lemma_norm_component_bound(self.y@, self.dot_wide(self), self.magnitude_raw());
                lemma_norm_component_bound(self.z@, self.dot_wide(self), self.magnitude_raw());
            }
            let nx = crate::math::scalar::tdiv_i128((self.x.raw as i128) * (SCALE as i128), m);
            let ny = crate::math::scalar::tdiv_i128((self.y.raw as i128) * (SCALE as i128), m);
            let nz = crate::math::scalar::tdiv_i128((self.z.raw as i128) * (SCALE as i128), m);
            Vector {
                x: Scalar { raw: nx as i64 },
                y: Scalar { raw: ny as i64 },
                z: Scalar { raw: nz as i64 },
            }
        }
    }

    /// The cross product, each component built from two truncated products.
    pub fn cross(self, rhs: Vector) -> (r: Vector)
        requires
            self.bounded(MUL_ARG_MAX as int),
            rhs.bounded(MUL_ARG_MAX as int),
        ensures
            r == self.cross_spec(rhs),
            r.x@ == tdiv(self.y@ * rhs.z@, SCALE as int) - tdiv(self.z@ * rhs.y@, SCALE as int),
            r.y@ == tdiv(self.z@ * rhs.x@, SCALE as int) - tdiv(self.x@ * rhs.z@, SCALE as int),
            r.z@ == tdiv(self.x@ * rhs.y@, SCALE as int) - tdiv(self.y@ * rhs.x@, SCALE as int),
    {
        proof {
            lemma_scaled_product_fits(self.y@, rhs.z@);
            lemma_scaled_product_fits(self.z@, rhs.y@);
            lemma_scaled_product_fits(self.z@, rhs.x@);
            lemma_scaled_product_fits(self.x@, rhs.z@);
            lemma_scaled_product_fits(self.x@, rhs.y@);
            lemma_scaled_product_fits(self.y@, rhs.x@);
        }
        Vector {
            x: self.y.mul(rhs.z).sub(self.z.mul(rhs.y)),
            y: self.z.mul(rhs.x).sub(self.x.mul(rhs.z)),
            z: self.x.mul(rhs.y).sub(self.y.mul(rhs.x)),
        }
    }

    /// This displacement read as a position.
    pub fn into_point(self) -> (r: Point)
        ensures
            r.x@ == self.x@ && r.y@ == self.y@ && r.z@ == self.z@,
    {
        Point { x: self.x, y: self.y, z: self.z }
    }
}

/// A dot product of a vector with itself is nonnegative.
pub proof fn lemma_dot_self_nonneg(v: Vector)
    ensures
        v.dot_wide(v) >= 0,
{
    assert(v.x@ * v.x@ + v.y@ * v.y@ + v.z@ * v.z@ >= 0) by (nonlinear_arith);
}

/// Componentwise bound for a cross product of bounded vectors.
pub proof fn lemma_cross_bounded(a: Vector, b: Vector, ma: int, mb: int)
    requires
        a.bounded(ma),
        b.bounded(mb),
        0 <= ma,
        0 <= mb,
        2 * tdiv(ma * mb, SCALE as int) <= i64::MAX,
    ensures
        a.cross_spec(b).bounded(2 * tdiv(ma * mb, SCALE as int)),
{
    let m = ma * mb;
    lemma_mul_abs_bound(a.y@, b.z@, ma, mb);
    lemma_mul_abs_bound(a.z@, b.y@, ma, mb);
    lemma_mul_abs_bound(a.z@, b.x@, ma, mb);
    lemma_mul_abs_bound(a.x@, b.z@, ma, mb);
    lemma_mul_abs_bound(a.x@, b.y@, ma, mb);
    lemma_mul_abs_bound(a.y@, b.x@, ma, mb);
    assert(ma * mb == mb * ma) by (nonlinear_arith);
    lemma_tdiv_abs_bound(a.y@ * b.z@, SCALE as int, m);
    lemma_tdiv_abs_bound(a.z@ * b.y@, SCALE as int, m);
    lemma_tdiv_abs_bound(a.z@ * b.x@, SCALE as int, m);
    lemma_tdiv_abs_bound(a.x@ * b.z@, SCALE as int, m);
    lemma_tdiv_abs_bound(a.x@ * b.y@, SCALE as int, m);
    lemma_tdiv_abs_bound(a.y@ * b.x@, SCALE as int, m);
    lemma_tdiv_bounds(m, SCALE as int);
}

/// Componentwise bound for a scaled vector.
pub proof fn lemma_mul_spec_bounded(a: Vector, k: int, ma: int, mk: int)
    requires
        a.bounded(ma),
        -mk <= k <= mk,
        0 <= ma,
        0 <= mk,
        tdiv(ma * mk, SCALE as int) <= i64::MAX,
    ensures
        a.mul_spec(k).bounded(tdiv(ma * mk, SCALE as int)),
{
    lemma_mul_abs_bound(a.x@, k, ma, mk);
    lemma_mul_abs_bound(a.y@, k, ma, mk);
    lemma_mul_abs_bound(a.z@, k, ma, mk);
    lemma_tdiv_abs_bound(a.x@ * k, SCALE as int, ma * mk);
    lemma_tdiv_abs_bound(a.y@ * k, SCALE as int, ma * mk);
    lemma_tdiv_abs_bound(a.z@ * k, SCALE as int, ma * mk);
    lemma_tdiv_bounds(ma * mk, SCALE as int);
}

/// The Cauchy–Schwarz inequality for integer triples, via the Lagrange
/// identity: the squared dot product is at most the product of the squared
/// magnitudes.
pub proof fn lemma_cauchy_schwarz(ax: int, ay: int, az: int, bx: int, by: int, bz: int)
    ensures
        (ax * bx + ay * by + az * bz) * (ax * bx + ay * by + az * bz) <= (ax * ax + ay * ay + az
            * az) * (bx * bx + by * by + bz * bz),
{
    let xx = ax * bx;
    let xy = ax * by;
    let xz = ax * bz;
    let yx = ay * bx;
    let yy = ay * by;
    let yz = ay * bz;
    let zx = az * bx;
    let zy = az * by;
    let zz = az * bz;
    assert(xy * yx == xx * yy) by (nonlinear_arith)
        requires
            xx == ax * bx,
            xy == ax * by,
            yx == ay * bx,
            yy == ay * by,
    ;
    assert(xz * zx == xx * zz) by (nonlinear_arith)
        requires
            xx == ax * bx,
            xz == ax * bz,
            zx == az * bx,
            zz == az * bz,
    ;
    assert(yz * zy == yy * zz) by (nonlinear_arith)
        requires
            yy == ay * by,
            yz == ay * bz,
            zy == az * by,
            zz == az * bz,
    ;
    let n2 = bx * bx + by * by + bz * bz;
    lemma_sq_mul(ax, bx);
    lemma_sq_mul(ax, by);
    lemma_sq_mul(ax, bz);
    lemma_sq_mul(ay, bx);
    lemma_sq_mul(ay, by);
    lemma_sq_mul(ay, bz);
    lemma_sq_mul(az, bx);
    lemma_sq_mul(az, by);
    lemma_sq_mul(az, bz);
    lemma_mul_dist3(ax * ax, bx * bx, by * by, bz * bz);
    lemma_mul_dist3(ay * ay, bx * bx, by * by, bz * bz);
    lemma_mul_dist3(az * az, bx * bx, by * by, bz * bz);
    assert((ax * ax) * n2 == xx * xx + xy * xy + xz * xz);
    assert((ay * ay) * n2 == yx * yx + yy * yy + yz * yz);
    assert((az * az) * n2 == zx * zx + zy * zy + zz * zz);
    lemma_mul_dist3(n2, ax * ax, ay * ay, az * az);
    vstd::arithmetic::mul::lemma_mul_is_commutative(n2, ax * ax + ay * ay + az * az);
    vstd::arithmetic::mul::lemma_mul_is_commutative(n2, ax * ax);
    vstd::arithmetic::mul::lemma_mul_is_commutative(n2, ay * ay);
    vstd::arithmetic::mul::lemma_mul_is_commutative(n2, az * az);
    assert((ax * ax + ay * ay + az * az) * (bx * bx + by * by + bz * bz) == xx * xx + xy * xy + xz
        * xz + yx * yx + yy * yy + yz * yz + zx * zx + zy * zy + zz * zz);
    assert((xx + yy + zz) * (xx + yy + zz) == xx * xx + yy * yy + zz * zz + 2 * (xx * yy) + 2 * (
    xx * zz) + 2 * (yy * zz)) by (nonlinear_arith);
    assert((xy - yx) * (xy - yx) == xy * xy - 2 * (xy * yx) + yx * yx) by (nonlinear_arith);
    assert((xz - zx) * (xz - zx) == xz * xz - 2 * (xz * zx) + zx * zx) by (nonlinear_arith);
    assert((yz - zy) * (yz - zy) == yz * yz - 2 * (yz * zy) + zy * zy) by (nonlinear_arith);
    assert((xy - yx) * (xy - yx) >= 0 && (xz - zx) * (xz - zx) >= 0 && (yz - zy) * (yz - zy) >= 0)
        by (nonlinear_arith);
    assert((ax * ax + ay * ay + az * az) * (bx * bx + by * by + bz * bz) - (xx + yy + zz) * (xx
        + yy + zz) >= 0);
}

/// `(a*a)*(b*b) == (a*b)*(a*b)`: squares of products commute.
proof fn lemma_sq_mul(a: int, b: int)
    ensures
        (a * a) * (b * b) == (a * b) * (a * b),
{
    assert((a * a) * (b * b) == (a * b) * (a * b)) by (nonlinear_arith);
}

/// Multiplication distributes over a three-part sum.
proof fn lemma_mul_dist3(k: int, p: int, q: int, r: int)
    ensures
        k * (p + q + r) == k * p + k * q + k * r,
{
    vstd::arithmetic::mul::lemma_mul_is_distributive_add(k, p + q, r);
    vstd::arithmetic::mul::lemma_mul_is_distributive_add(k, p, q);
}

/// Products of `MUL_ARG_MAX`-bounded raw values survive the rescale in `i64`,
/// with room for one further addition or subtraction.
proof fn lemma_scaled_product_fits(a: int, b: int)
    requires
        -MUL_ARG_MAX <= a <= MUL_ARG_MAX,
        -MUL_ARG_MAX <= b <= MUL_ARG_MAX,
    ensures
        -0x1000_0000_0000_0000 <= tdiv(a * b, SCALE as int) <= 0x1000_0000_0000_0000,
        fits_i64(tdiv(a * b, SCALE as int)),
{
    lemma_mul_abs_bound(a, b, MUL_ARG_MAX as int, MUL_ARG_MAX as int);
    lemma_tdiv_abs_bound(a * b, SCALE as int, (MUL_ARG_MAX as int) * (MUL_ARG_MAX as int));
    assert((MUL_ARG_MAX as int) * (MUL_ARG_MAX as int) == 0x1000_0000_0000_0000 * (SCALE as int));
    vstd::arithmetic::div_mod::lemma_div_by_multiple(0x1000_0000_0000_0000, SCALE as int);
    assert(tdiv((MUL_ARG_MAX as int) * (MUL_ARG_MAX as int), SCALE as int)
        == 0x1000_0000_0000_0000);
}

/// The key bound behind `normalized` and the sphere hull: a component of a
/// vector is below one-and-a-half times the vector's rounded magnitude, and
/// dividing the component by that magnitude stays within two units.
pub(crate) proof fn lemma_norm_component_bound(x: int, qq: int, m: int)
    requires
        x * x <= qq,
        m == isqrt(tdiv(qq, SCALE as int) * SCALE),
        m != 0,
        qq >= 0,
    ensures
        m >= 256,
        -3 * (m + 1) < 2 * x < 3 * (m + 1),
        -(2 * SCALE) <= tdiv(x * SCALE, m) <= 2 * SCALE,
{
    let s = SCALE as int;
    let t = tdiv(qq, s);
    lemma_tdiv_bounds(qq, s);
    // m != 0 forces at least one full unit of t.
    if t == 0 {
        assert(m == isqrt(0));
    }
    assert(t >= 1);
    lemma_isqrt_bounds(t * s);
    // t * s >= 65536 = 256^2, so m >= 256.
    assert(t * s >= s) by (nonlinear_arith)
        requires
            t >= 1,
            s == 65536,
    ;
    if m < 256 {
        assert((m + 1) * (m + 1) <= 256 * 256) by (nonlinear_arith)
            requires
                0 <= m + 1 <= 256,
        ;
    }
    // qq < (t + 1) * s, hence x^2 < 2 * t * s < 2 * (m + 1)^2.
    lemma_fundamental_div_mod(qq, s);
    lemma_mod_bound(qq, s);
    assert(qq < (t + 1) * s) by (nonlinear_arith)
        requires
            qq == s * (qq / s) + qq % s,
            t == qq / s,
            qq % s < s,
    ;
    assert((t + 1) * s <= 2 * (t * s)) by (nonlinear_arith)
        requires
            t >= 1,
            s > 0,
    ;
    assert(x * x < 2 * ((m + 1) * (m + 1)));
    // therefore 2|x| < 3(m + 1)
    assert(2 * x < 3 * (m + 1) && 2 * x > -3 * (m + 1)) by (nonlinear_arith)
        requires
            x * x < 2 * ((m + 1) * (m + 1)),
            m >= 0,
    ;
    // and the truncated quotient obeys |q| * m <= |x| * s
    let q = tdiv(x * s, m);
    lemma_tdiv_bounds(x * s, m);
    if x >= 0 {
        lemma_fundamental_div_mod(x * s, m);
        lemma_mod_bound(x * s, m);
        assert(q * m <= x * s) by (nonlinear_arith)
            requires
                x * s == m * ((x * s) / m) + (x * s) % m,
                q == (x * s) / m,
                (x * s) % m >= 0,
        ;
        assert(2 * q * m <= 2 * (x * s) && 2 * (x * s) < 3 * (m + 1) * s) by (nonlinear_arith)
            requires
                q * m <= x * s,
                2 * x < 3 * (m + 1),
                s > 0,
        ;
        assert(q <= 2 * s) by (nonlinear_arith)
            requires
                2 * q * m < 3 * (m + 1) * s,
                m >= 256,
                s == 65536,
                q >= 0,
        ;
    } else {
        let xa = -x;
        lemma_fundamental_div_mod(xa * s, m);
        lemma_mod_bound(xa * s, m);
        assert(q == -((xa * s) / m));
        assert((xa * s) / m * m <= xa * s) by (nonlinear_arith)
            requires
                xa * s == m * ((xa * s) / m) + (xa * s) % m,
                (xa * s) % m >= 0,
        ;
        assert(2 * ((xa * s) / m) * m <= 2 * (xa * s) && 2 * (xa * s) < 3 * (m + 1) * s)
            by (nonlinear_arith)
            requires
                (xa * s) / m * m <= xa * s,
                2 * xa < 3 * (m + 1),
                s > 0,
        ;
        assert((xa * s) / m <= 2 * s) by (nonlinear_arith)
            requires
                2 * ((xa * s) / m) * m < 3 * (m + 1) * s,
                m >= 256,
                s == 65536,
                (xa * s) / m >= 0,
        ;
    }
}

} // verus!
