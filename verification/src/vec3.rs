//! Three-component vector algebra over fixed-point scalars.
//!
//! A [`Vector3`] is a plain value: three fixed-point components, copied
//! freely and never aliased. Componentwise sums and differences are exact;
//! products, quotients, the dot product and the cross product are rescaled
//! with division toward zero, and every contract states the resulting
//! integers exactly. The squared norm `norm_sq`, the unscaled products
//! `dot_raw` and `cross_raw_*`, and the integer square root tie the
//! executable results to the underlying mathematics.

use crate::fixed::{
    div_fx, fits_i64, fixed_div, fixed_mul, is_isqrt, isqrt, isqrt_of, lemma_isqrt_of_correct,
    lemma_tdiv_in_range, lemma_tdiv_range_converse, mul_fx, tdiv, SCALE,
};
use vstd::arithmetic::div_mod::{
    lemma_div_nonincreasing, lemma_div_pos_is_pos, lemma_fundamental_div_mod, lemma_mod_bound,
};
use vstd::prelude::*;

verus! {

/// A three-dimensional vector of fixed-point scalars.
#[derive(Clone, Copy, Debug, PartialEq, Eq, Structural)]
pub struct Vector3 {
    pub x: i64,
    pub y: i64,
    pub z: i64,
}

/// The vector with every component negated.
pub open spec fn negated(v: Vector3) -> Vector3 {
    Vector3 { x: (-v.x) as i64, y: (-v.y) as i64, z: (-v.z) as i64 }
}

/// The squared Euclidean norm, before rescaling: the fixed-point square
/// of the magnitude times [`SCALE`].
pub open spec fn norm_sq(v: Vector3) -> int {
    v.x * v.x + v.y * v.y + v.z * v.z
}

/// The dot product before rescaling: the fixed-point dot product times
/// [`SCALE`].
pub open spec fn dot_raw(a: Vector3, b: Vector3) -> int {
    a.x * b.x + a.y * b.y + a.z * b.z
}

/// The dot product as a fixed-point scalar.
pub open spec fn dot_val(a: Vector3, b: Vector3) -> int {
    tdiv(dot_raw(a, b), SCALE as int)
}

/// First component of the right-hand-rule cross product, before rescaling.
pub open spec fn cross_raw_x(a: Vector3, b: Vector3) -> int {
    a.y * b.z - a.z * b.y
}

/// Second component of the right-hand-rule cross product, before rescaling.
pub open spec fn cross_raw_y(a: Vector3, b: Vector3) -> int {
    a.z * b.x - a.x * b.z
}

/// Third component of the right-hand-rule cross product, before rescaling.
pub open spec fn cross_raw_z(a: Vector3, b: Vector3) -> int {
    a.x * b.y - a.y * b.x
}

impl Vector3 {
    /// Builds a vector from three fixed-point components, unvalidated.
    pub fn new(x: i64, y: i64, z: i64) -> (v: Vector3)
        ensures
            v == (Vector3 { x, y, z }),
    {
        Vector3 { x, y, z }
    }

    /// Negates every component in place.
    pub fn invert(&mut self)
        requires
            old(self).x > i64::MIN,
            old(self).y > i64::MIN,
            old(self).z > i64::MIN,
        ensures
            *final(self) == negated(*old(self)),
            final(self).x == -old(self).x,
            final(self).y == -old(self).y,
            final(self).z == -old(self).z,
    {
        self.x = -self.x;
        self.y = -self.y;
        self.z = -self.z;
    }

    /// The Euclidean norm: the integer square root of the squared norm.
    /// It is never negative, and is zero exactly for the zero vector.
    pub fn magnitude(&self) -> (r: i64)
        requires
            norm_sq(*self) <= i64::MAX * i64::MAX,
        ensures
            r as int == isqrt_of(norm_sq(*self)),
            is_isqrt(norm_sq(*self), r as int),
            r >= 0,
            (r == 0) <==> (self.x == 0 && self.y == 0 && self.z == 0),
    {
        proof {
            lemma_square_nonneg(self.x as int);
            lemma_square_nonneg(self.y as int);
            lemma_square_nonneg(self.z as int);
        }
        let xx: i128 = (self.x as i128) * (self.x as i128);
        let yy: i128 = (self.y as i128) * (self.y as i128);
        let zz: i128 = (self.z as i128) * (self.z as i128);
        let n: u128 = (xx + yy + zz) as u128;
        let r: u128 = isqrt(n);
        proof {
            lemma_isqrt_le(n as int, r as int, i64::MAX as int);
            if self.x == 0 && self.y == 0 && self.z == 0 {
                lemma_isqrt_zero(r as int);
            } else {
                if self.x != 0 {
                    lemma_square_pos(self.x as int);
                }
                if self.y != 0 {
                    lemma_square_pos(self.y as int);
                }
                if self.z != 0 {
                    lemma_square_pos(self.z as int);
                }
                lemma_isqrt_pos(n as int, r as int);
            }
        }
        r as i64
    }

    /// Scales `self` to unit length: each component becomes its fixed-point
    /// quotient by the magnitude. A vector of zero magnitude is excluded:
    /// an integer has no quotient by zero, where the corresponding real
    /// arithmetic would quietly produce non-finite components.
    pub fn normalize(&mut self)
        requires
            norm_sq(*old(self)) > 0,
            norm_sq(*old(self)) <= i64::MAX * i64::MAX,
        ensures
            final(self).x as int == div_fx(
                old(self).x as int,
                isqrt_of(norm_sq(*old(self))),
            ),
            final(self).y as int == div_fx(
                old(self).y as int,
                isqrt_of(norm_sq(*old(self))),
            ),
            final(self).z as int == div_fx(
                old(self).z as int,
                isqrt_of(norm_sq(*old(self))),
            ),
    {
        let m = self.magnitude();
        proof {
            lemma_square_nonneg(self.x as int);
            lemma_square_nonneg(self.y as int);
            lemma_square_nonneg(self.z as int);
            lemma_normalized_component_fits(self.x as int, norm_sq(*self), m as int);
            lemma_normalized_component_fits(self.y as int, norm_sq(*self), m as int);
            lemma_normalized_component_fits(self.z as int, norm_sq(*self), m as int);
        }
        self.x = fixed_div(self.x, m);
        self.y = fixed_div(self.y, m);
        self.z = fixed_div(self.z, m);
    }

    /// Sets every component to zero.
    pub fn clear(&mut self)
        ensures
            *final(self) == (Vector3 { x: 0, y: 0, z: 0 }),
    {
        self.x = 0;
        self.y = 0;
        self.z = 0;
    }

    /// The dot product (inner product) of two vectors, as a fixed-point
    /// scalar.
    pub fn dot_product(&self, rhs: &Vector3) -> (r: i64)
        requires
            fits_i64(dot_val(*self, *rhs)),
        ensures
            r as int == dot_val(*self, *rhs),
    {
        proof {
            lemma_dot_raw_bounded(*self, *rhs);
        }
        let px: i128 = (self.x as i128) * (rhs.x as i128);
        let py: i128 = (self.y as i128) * (rhs.y as i128);
        let pz: i128 = (self.z as i128) * (rhs.z as i128);
        let q: i128 = (px + py + pz) / (SCALE as i128);
        q as i64
    }

    /// The right-hand-rule cross product, each component rescaled to a
    /// fixed-point scalar.
    pub fn cross_product(&self, rhs: &Vector3) -> (v: Vector3)
        requires
            fits_i64(tdiv(cross_raw_x(*self, *rhs), SCALE as int)),
            fits_i64(tdiv(cross_raw_y(*self, *rhs), SCALE as int)),
            fits_i64(tdiv(cross_raw_z(*self, *rhs), SCALE as int)),
        ensures
            v.x as int == tdiv(cross_raw_x(*self, *rhs), SCALE as int),
            v.y as int == tdiv(cross_raw_y(*self, *rhs), SCALE as int),
            v.z as int == tdiv(cross_raw_z(*self, *rhs), SCALE as int),
    {
        proof {
            lemma_cross_raw_bounded(*self, *rhs);
            lemma_i64_product_tight(self.y as int, rhs.z as int);
            lemma_i64_product_tight(self.z as int, rhs.y as int);
            lemma_i64_product_tight(self.z as int, rhs.x as int);
            lemma_i64_product_tight(self.x as int, rhs.z as int);
            lemma_i64_product_tight(self.x as int, rhs.y as int);
            lemma_i64_product_tight(self.y as int, rhs.x as int);
        }
        let nx: i128 = (self.y as i128) * (rhs.z as i128) - (self.z as i128) * (rhs.y as i128);
        let ny: i128 = (self.z as i128) * (rhs.x as i128) - (self.x as i128) * (rhs.z as i128);
        let nz: i128 = (self.x as i128) * (rhs.y as i128) - (self.y as i128) * (rhs.x as i128);
        Vector3 {
            x: (nx / (SCALE as i128)) as i64,
            y: (ny / (SCALE as i128)) as i64,
            z: (nz / (SCALE as i128)) as i64,
        }
    }

    /// Componentwise sum.
    pub fn add(self, rhs: Vector3) -> (v: Vector3)
        requires
            fits_i64(self.x + rhs.x),
            fits_i64(self.y + rhs.y),
            fits_i64(self.z + rhs.z),
        ensures
            v.x == self.x + rhs.x,
            v.y == self.y + rhs.y,
            v.z == self.z + rhs.z,
    {
        Vector3 { x: self.x + rhs.x, y: self.y + rhs.y, z: self.z + rhs.z }
    }

    /// Componentwise sum, in place.
    pub fn add_assign(&mut self, rhs: Vector3)
        requires
            fits_i64(old(self).x + rhs.x),
            fits_i64(old(self).y + rhs.y),
            fits_i64(old(self).z + rhs.z),
        ensures
            final(self).x == old(self).x + rhs.x,
            final(self).y == old(self).y + rhs.y,
            final(self).z == old(self).z + rhs.z,
    {
        self.x = self.x + rhs.x;
        self.y = self.y + rhs.y;
        self.z = self.z + rhs.z;
    }

    /// Componentwise difference.
    pub fn sub(self, rhs: Vector3) -> (v: Vector3)
        requires
            fits_i64(self.x - rhs.x),
            fits_i64(self.y - rhs.y),
            fits_i64(self.z - rhs.z),
        ensures
            v.x == self.x - rhs.x,
            v.y == self.y - rhs.y,
            v.z == self.z - rhs.z,
    {
        Vector3 { x: self.x - rhs.x, y: self.y - rhs.y, z: self.z - rhs.z }
    }

    /// Componentwise difference, in place.
    pub fn sub_assign(&mut self, rhs: Vector3)
        requires
            fits_i64(old(self).x - rhs.x),
            fits_i64(old(self).y - rhs.y),
            fits_i64(old(self).z - rhs.z),
        ensures
            final(self).x == old(self).x - rhs.x,
            final(self).y == old(self).y - rhs.y,
            final(self).z == old(self).z - rhs.z,
    {
        self.x = self.x - rhs.x;
        self.y = self.y - rhs.y;
        self.z = self.z - rhs.z;
    }

    /// Scales every component by a fixed-point scalar.
    pub fn mul(self, rhs: i64) -> (v: Vector3)
        requires
            fits_i64(mul_fx(self.x as int, rhs as int)),
            fits_i64(mul_fx(self.y as int, rhs as int)),
            fits_i64(mul_fx(self.z as int, rhs as int)),
        ensures
            v.x as int == mul_fx(self.x as int, rhs as int),
            v.y as int == mul_fx(self.y as int, rhs as int),
            v.z as int == mul_fx(self.z as int, rhs as int),
    {
        Vector3 {
            x: fixed_mul(self.x, rhs),
            y: fixed_mul(self.y, rhs),
            z: fixed_mul(self.z, rhs),
        }
    }

    /// Scales every component by a fixed-point scalar, in place.
    pub fn mul_assign(&mut self, rhs: i64)
        requires
            fits_i64(mul_fx(old(self).x as int, rhs as int)),
            fits_i64(mul_fx(old(self).y as int, rhs as int)),
            fits_i64(mul_fx(old(self).z as int, rhs as int)),
        ensures
            final(self).x as int == mul_fx(old(self).x as int, rhs as int),
            final(self).y as int == mul_fx(old(self).y as int, rhs as int),
            final(self).z as int == mul_fx(old(self).z as int, rhs as int),
    {
        self.x = fixed_mul(self.x, rhs);
        self.y = fixed_mul(self.y, rhs);
        self.z = fixed_mul(self.z, rhs);
    }

    /// Divides every component by a nonzero fixed-point scalar.
    pub fn div(self, rhs: i64) -> (v: Vector3)
        requires
            rhs != 0,
            fits_i64(div_fx(self.x as int, rhs as int)),
            fits_i64(div_fx(self.y as int, rhs as int)),
            fits_i64(div_fx(self.z as int, rhs as int)),
        ensures
            v.x as int == div_fx(self.x as int, rhs as int),
            v.y as int == div_fx(self.y as int, rhs as int),
            v.z as int == div_fx(self.z as int, rhs as int),
    {
        Vector3 {
            x: fixed_div(self.x, rhs),
            y: fixed_div(self.y, rhs),
            z: fixed_div(self.z, rhs),
        }
    }

    /// Divides every component by a nonzero fixed-point scalar, in place.
    pub fn div_assign(&mut self, rhs: i64)
        requires
            rhs != 0,
            fits_i64(div_fx(old(self).x as int, rhs as int)),
            fits_i64(div_fx(old(self).y as int, rhs as int)),
            fits_i64(div_fx(old(self).z as int, rhs as int)),
        ensures
            final(self).x as int == div_fx(old(self).x as int, rhs as int),
            final(self).y as int == div_fx(old(self).y as int, rhs as int),
            final(self).z as int == div_fx(old(self).z as int, rhs as int),
    {
        self.x = fixed_div(self.x, rhs);
        self.y = fixed_div(self.y, rhs);
        self.z = fixed_div(self.z, rhs);
    }
}

/// The square of an integer is never negative.
proof fn lemma_square_nonneg(x: int)
    by (nonlinear_arith)
    ensures
        0 <= x * x,
{
}

/// The square of a nonzero integer is at least one.
proof fn lemma_square_pos(x: int)
    by (nonlinear_arith)
    requires
        x != 0,
    ensures
        1 <= x * x,
{
}

/// The integer square root of a positive number is positive.
proof fn lemma_isqrt_pos(n: int, r: int)
    by (nonlinear_arith)
    requires
        is_isqrt(n, r),
        1 <= n,
    ensures
        1 <= r,
{
}

/// The integer square root of zero is zero.
proof fn lemma_isqrt_zero(r: int)
    by (nonlinear_arith)
    requires
        is_isqrt(0, r),
    ensures
        r == 0,
{
}

/// An integer square root of a number no greater than `k` squared is no
/// greater than `k`.
proof fn lemma_isqrt_le(n: int, r: int, k: int)
    by (nonlinear_arith)
    requires
        is_isqrt(n, r),
        0 <= k,
        n <= k * k,
    ensures
        r <= k,
{
}

/// A component of a vector is bounded by the vector's magnitude, so its
/// normalized value is bounded by one and in particular representable.
proof fn lemma_normalized_component_fits(x: int, n: int, m: int)
    requires
        x * x <= n,
        n > 0,
        is_isqrt(n, m),
        i64::MIN <= x <= i64::MAX,
    ensures
        0 < m,
        fits_i64(div_fx(x, m)),
{
    assert(0 < m) by (nonlinear_arith)
        requires
            is_isqrt(n, m),
            n > 0,
    ;
    assert(-m <= x <= m) by (nonlinear_arith)
        requires
            x * x <= n,
            is_isqrt(n, m),
    ;
    assert(-(SCALE as int) * m <= x * SCALE <= (SCALE as int) * m) by (nonlinear_arith)
        requires
            -m <= x <= m,
    ;
    lemma_tdiv_in_range(x * SCALE, m, SCALE as int);
}

/// The unscaled dot product of two vectors lies well within the `i128`
/// range whenever its rescaled value is representable, and so do all
/// partial sums of its three products.
proof fn lemma_dot_raw_bounded(a: Vector3, b: Vector3)
    requires
        fits_i64(dot_val(a, b)),
    ensures
        -0x10000000000000000000000int < dot_raw(a, b) < 0x10000000000000000000000int,
        -0x40000000000000000000000000000000int <= a.x * b.x
            <= 0x40000000000000000000000000000000int,
        -0x40000000000000000000000000000000int <= a.y * b.y
            <= 0x40000000000000000000000000000000int,
        -0x40000000000000000000000000000000int <= a.z * b.z
            <= 0x40000000000000000000000000000000int,
{
    lemma_i64_product_tight(a.x as int, b.x as int);
    lemma_i64_product_tight(a.y as int, b.y as int);
    lemma_i64_product_tight(a.z as int, b.z as int);
    lemma_tdiv_range_converse(dot_raw(a, b), SCALE as int, 0x8000000000000000int);
}

/// Each unscaled cross-product component lies well within the `i128`
/// range whenever its rescaled value is representable.
proof fn lemma_cross_raw_bounded(a: Vector3, b: Vector3)
    requires
        fits_i64(tdiv(cross_raw_x(a, b), SCALE as int)),
        fits_i64(tdiv(cross_raw_y(a, b), SCALE as int)),
        fits_i64(tdiv(cross_raw_z(a, b), SCALE as int)),
    ensures
        -0x10000000000000000000000int < cross_raw_x(a, b) < 0x10000000000000000000000int,
        -0x10000000000000000000000int < cross_raw_y(a, b) < 0x10000000000000000000000int,
        -0x10000000000000000000000int < cross_raw_z(a, b) < 0x10000000000000000000000int,
{
    lemma_tdiv_range_converse(cross_raw_x(a, b), SCALE as int, 0x8000000000000000int);
    lemma_tdiv_range_converse(cross_raw_y(a, b), SCALE as int, 0x8000000000000000int);
    lemma_tdiv_range_converse(cross_raw_z(a, b), SCALE as int, 0x8000000000000000int);
}

/// The product of two `i64` values is bounded by two to the 126th power.
proof fn lemma_i64_product_tight(a: int, b: int)
    by (nonlinear_arith)
    requires
        i64::MIN <= a <= i64::MAX,
        i64::MIN <= b <= i64::MAX,
    ensures
        -0x40000000000000000000000000000000int <= a * b <= 0x40000000000000000000000000000000int,
{
}

/// Negation undoes itself: inverting a vector twice restores every
/// component exactly.
pub proof fn lemma_invert_involution(v: Vector3)
    requires
        v.x > i64::MIN,
        v.y > i64::MIN,
        v.z > i64::MIN,
    ensures
        negated(negated(v)) == v,
{
}

/// The dot product is symmetric in its two operands, both before and
/// after rescaling.
pub proof fn lemma_dot_symmetric(a: Vector3, b: Vector3)
    ensures
        dot_raw(a, b) == dot_raw(b, a),
        dot_val(a, b) == dot_val(b, a),
{
    assert(dot_raw(a, b) == dot_raw(b, a)) by (nonlinear_arith);
}

/// The cross product is perpendicular to both of its operands: its
/// unscaled components have an exactly zero dot product with each. The
/// rescaled executable components differ from the unscaled ones only by
/// the final division, so their dot products with the operands vanish up
/// to that rounding.
pub proof fn lemma_cross_perpendicular(a: Vector3, b: Vector3)
    ensures
        cross_raw_x(a, b) * a.x + cross_raw_y(a, b) * a.y + cross_raw_z(a, b) * a.z == 0,
        cross_raw_x(a, b) * b.x + cross_raw_y(a, b) * b.y + cross_raw_z(a, b) * b.z == 0,
{
    let cx = cross_raw_x(a, b);
    let cy = cross_raw_y(a, b);
    let cz = cross_raw_z(a, b);
    assert(cx * a.x + cy * a.y + cz * a.z == 0) by (nonlinear_arith)
        requires
            cx == a.y * b.z - a.z * b.y,
            cy == a.z * b.x - a.x * b.z,
            cz == a.x * b.y - a.y * b.x,
    ;
    assert(cx * b.x + cy * b.y + cz * b.z == 0) by (nonlinear_arith)
        requires
            cx == a.y * b.z - a.z * b.y,
            cy == a.z * b.x - a.x * b.z,
            cz == a.x * b.y - a.y * b.x,
    ;
}

/// The cross product is anti-commutative: swapping the operands negates
/// every unscaled component.
pub proof fn lemma_cross_anticommutative(a: Vector3, b: Vector3)
    by (nonlinear_arith)
    ensures
        cross_raw_x(b, a) == -cross_raw_x(a, b),
        cross_raw_y(b, a) == -cross_raw_y(a, b),
        cross_raw_z(b, a) == -cross_raw_z(a, b),
{
}


/// Lagrange's identity: the squared length of the unscaled cross product
/// is the product of the squared norms minus the squared unscaled dot
/// product — the squared area of the parallelogram the operands span.
pub proof fn lemma_cross_magnitude_area(a: Vector3, b: Vector3)
    ensures
        cross_raw_x(a, b) * cross_raw_x(a, b) + cross_raw_y(a, b) * cross_raw_y(a, b)
            + cross_raw_z(a, b) * cross_raw_z(a, b) == norm_sq(a) * norm_sq(b) - dot_raw(a, b)
            * dot_raw(a, b),
{
    let pxx = a.x * b.x;
    let pxy = a.x * b.y;
    let pxz = a.x * b.z;
    let pyx = a.y * b.x;
    let pyy = a.y * b.y;
    let pyz = a.y * b.z;
    let pzx = a.z * b.x;
    let pzy = a.z * b.y;
    let pzz = a.z * b.z;
    let qx = a.x * a.x;
    let qy = a.y * a.y;
    let qz = a.z * a.z;
    let rx = b.x * b.x;
    let ry = b.y * b.y;
    let rz = b.z * b.z;
    lemma_product_of_squares(a.x as int, b.x as int);
    lemma_product_of_squares(a.x as int, b.y as int);
    lemma_product_of_squares(a.x as int, b.z as int);
    lemma_product_of_squares(a.y as int, b.x as int);
    lemma_product_of_squares(a.y as int, b.y as int);
    lemma_product_of_squares(a.y as int, b.z as int);
    lemma_product_of_squares(a.z as int, b.x as int);
    lemma_product_of_squares(a.z as int, b.y as int);
    lemma_product_of_squares(a.z as int, b.z as int);
    lemma_swapped_products(a.y as int, a.z as int, b.y as int, b.z as int);
    lemma_swapped_products(a.z as int, a.x as int, b.z as int, b.x as int);
    lemma_swapped_products(a.x as int, a.y as int, b.x as int, b.y as int);
    lemma_square_of_difference(pyz, pzy);
    lemma_square_of_difference(pzx, pxz);
    lemma_square_of_difference(pxy, pyx);
    lemma_product_of_trinomials(qx, qy, qz, rx, ry, rz);
    lemma_square_of_trinomial(pxx, pyy, pzz);
    assert((pyz - pzy) * (pyz - pzy) + (pzx - pxz) * (pzx - pxz) + (pxy - pyx) * (pxy - pyx) == (qx
        + qy + qz) * (rx + ry + rz) - (pxx + pyy + pzz) * (pxx + pyy + pzz));
}

/// Expanding the square of a difference.
proof fn lemma_square_of_difference(u: int, v: int)
    by (nonlinear_arith)
    ensures
        (u - v) * (u - v) == u * u - 2 * (u * v) + v * v,
{
}

/// Expanding the product of two sums of three terms.
proof fn lemma_product_of_trinomials(u: int, v: int, w: int, s: int, t: int, o: int)
    by (nonlinear_arith)
    ensures
        (u + v + w) * (s + t + o) == u * s + u * t + u * o + v * s + v * t + v * o + w * s + w * t
            + w * o,
{
}

/// Expanding the square of a sum of three terms.
proof fn lemma_square_of_trinomial(u: int, v: int, w: int)
    by (nonlinear_arith)
    ensures
        (u + v + w) * (u + v + w) == u * u + v * v + w * w + 2 * (u * v) + 2 * (u * w) + 2 * (v
            * w),
{
}

/// The product of two squares is the square of the product.
proof fn lemma_product_of_squares(u: int, v: int)
    by (nonlinear_arith)
    ensures
        (u * u) * (v * v) == (u * v) * (u * v),
{
}

/// Swapping the second factors of two products leaves their product
/// unchanged.
proof fn lemma_swapped_products(u: int, v: int, s: int, t: int)
    by (nonlinear_arith)
    ensures
        (u * t) * (v * s) == (u * s) * (v * t),
{
}


/// An integer square root of a number at least `k` squared is at least
/// `k`.
proof fn lemma_isqrt_ge(n: int, r: int, k: int)
    by (nonlinear_arith)
    requires
        is_isqrt(n, r),
        0 <= k,
        k * k <= n,
    ensures
        k <= r,
{
}

/// One rescaled component, for a nonnegative dividend: the square of `m`
/// times the quotient tracks the square of the dividend to within twice
/// `m` squared times the scale.
proof fn lemma_scaled_component_nonneg(t: int, m: int, q: int)
    requires
        0 < m,
        0 <= t <= m * (SCALE as int),
        q == t / m,
    ensures
        t * t - 2 * ((m * m) * (SCALE as int)) < (m * q) * (m * q) <= t * t,
{
    lemma_fundamental_div_mod(t, m);
    lemma_mod_bound(t, m);
    lemma_div_pos_is_pos(t, m);
    let e = t % m;
    assert(t * t - 2 * ((m * m) * (SCALE as int)) < (m * q) * (m * q) <= t * t)
        by (nonlinear_arith)
        requires
            t == m * q + e,
            0 <= e < m,
            0 <= q,
            0 < m,
            t <= m * (SCALE as int),
    ;
}

/// One rescaled component of either sign.
proof fn lemma_scaled_component(x: int, n: int, m: int, q: int)
    requires
        x * x <= n,
        is_isqrt(n, m),
        0 < m,
        q == tdiv(x * SCALE, m),
    ensures
        (x * (SCALE as int)) * (x * (SCALE as int)) - 2 * ((m * m) * (SCALE as int)) < (m * q) * (m
            * q),
        (m * q) * (m * q) <= (x * (SCALE as int)) * (x * (SCALE as int)),
{
    let s: int = SCALE as int;
    assert(-m <= x <= m) by (nonlinear_arith)
        requires
            x * x <= n,
            is_isqrt(n, m),
    ;
    if x >= 0 {
        assert(0 <= x * s <= m * s) by (nonlinear_arith)
            requires
                0 <= x <= m,
                0 <= s,
        ;
        lemma_scaled_component_nonneg(x * s, m, q);
    } else {
        let t = -(x * s);
        assert(1 <= t <= m * s && t * t == (x * s) * (x * s)) by (nonlinear_arith)
            requires
                t == -(x * s),
                -m <= x < 0,
                1 <= s,
        ;
        lemma_scaled_component_nonneg(t, m, -q);
        assert((m * (-q)) * (m * (-q)) == (m * q) * (m * q)) by (nonlinear_arith);
    }
}

/// Normalizing a nonzero vector brings its magnitude within a handful of
/// fixed-point units of one: at least four units under the scale, and at
/// most one unit over the scale plus the scale divided by the original
/// magnitude. A vector no shorter than a hundredth of a unit is thus
/// normalized to within one part in ten thousand of unit length; the
/// shortest representable vectors keep a large relative rounding error.
pub proof fn lemma_normalize_near_unit(v: Vector3, w: Vector3)
    requires
        0 < norm_sq(v) <= i64::MAX * i64::MAX,
        w.x as int == div_fx(v.x as int, isqrt_of(norm_sq(v))),
        w.y as int == div_fx(v.y as int, isqrt_of(norm_sq(v))),
        w.z as int == div_fx(v.z as int, isqrt_of(norm_sq(v))),
    ensures
        norm_sq(w) <= i64::MAX * i64::MAX,
        SCALE - 4 <= isqrt_of(norm_sq(w)),
        isqrt_of(norm_sq(w)) <= SCALE + (SCALE as int) / isqrt_of(norm_sq(v)) + 1,
{
    let n = norm_sq(v);
    lemma_isqrt_of_correct(n);
    let m = isqrt_of(n);
    lemma_isqrt_pos(n, m);
    let s: int = SCALE as int;
    let x = v.x as int;
    let y = v.y as int;
    let z = v.z as int;
    lemma_square_nonneg(x);
    lemma_square_nonneg(y);
    lemma_square_nonneg(z);
    let qx = w.x as int;
    let qy = w.y as int;
    let qz = w.z as int;
    lemma_scaled_component(x, n, m, qx);
    lemma_scaled_component(y, n, m, qy);
    lemma_scaled_component(z, n, m, qz);
    lemma_product_of_squares(m, qx);
    lemma_product_of_squares(m, qy);
    lemma_product_of_squares(m, qz);
    lemma_product_of_squares(x, s);
    lemma_product_of_squares(y, s);
    lemma_product_of_squares(z, s);
    let nw = norm_sq(w);
    assert((m * m) * nw == (m * m) * (qx * qx) + (m * m) * (qy * qy) + (m * m) * (qz * qz))
        by (nonlinear_arith)
        requires
            nw == qx * qx + qy * qy + qz * qz,
    ;
    assert((s * s) * n == (x * x) * (s * s) + (y * y) * (s * s) + (z * z) * (s * s))
        by (nonlinear_arith)
        requires
            n == x * x + y * y + z * z,
    ;
    assert((m * m) * nw <= (s * s) * n);
    assert((s * s) * n - 6 * ((m * m) * s) < (m * m) * nw);
    assert((s * s) * (m * m) <= (s * s) * n) by (nonlinear_arith)
        requires
            m * m <= n,
    ;
    assert(s * s - 6 * s < nw) by (nonlinear_arith)
        requires
            (s * s) * (m * m) - 6 * ((m * m) * s) < (m * m) * nw,
            1 <= m,
    ;
    assert((s - 4) * (s - 4) <= nw) by (nonlinear_arith)
        requires
            s * s - 6 * s < nw,
            8 <= s,
    ;
    lemma_square_nonneg(qx);
    lemma_square_nonneg(qy);
    lemma_square_nonneg(qz);
    lemma_isqrt_of_correct(nw);
    lemma_isqrt_ge(nw, isqrt_of(nw), s - 4);
    let k = s / m;
    lemma_div_pos_is_pos(s, m);
    lemma_fundamental_div_mod(s, m);
    lemma_mod_bound(s, m);
    assert(s < m * (k + 1)) by (nonlinear_arith)
        requires
            s == m * k + s % m,
            s % m < m,
    ;
    assert(n <= m * m + 2 * m) by (nonlinear_arith)
        requires
            n < (m + 1) * (m + 1),
    ;
    let u = s + k + 1;
    assert((s * s) * n <= (m * m) * (u * u)) by (nonlinear_arith)
        requires
            n <= m * m + 2 * m,
            0 < m,
            0 <= k,
            0 <= s,
            s < m * (k + 1),
            u == s + k + 1,
    ;
    assert(nw <= u * u) by (nonlinear_arith)
        requires
            (m * m) * nw <= (m * m) * (u * u),
            1 <= m,
    ;
    lemma_isqrt_le(nw, isqrt_of(nw), u);
    lemma_div_nonincreasing(s, m);
    assert(nw <= i64::MAX * i64::MAX) by (nonlinear_arith)
        requires
            nw <= u * u,
            u == s + k + 1,
            0 <= k <= s,
            s == 1000000,
    ;
}

} // verus!
