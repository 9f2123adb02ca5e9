//! Fixed-point scalar arithmetic.
//!
//! A scalar is an `i64` holding a real number times [`SCALE`]: six decimal
//! digits of fraction. Products and quotients are rescaled with division
//! that rounds toward zero, exactly as `/` does on Rust's signed integers;
//! the spec functions here state that arithmetic over `int`, and every
//! executable operation is proved to match them.

use vstd::arithmetic::div_mod::{
    lemma_div_is_ordered, lemma_div_multiples_vanish, lemma_div_pos_is_pos,
    lemma_fundamental_div_mod, lemma_mod_bound,
};
use vstd::prelude::*;

verus! {

/// Number of fixed-point units in one real unit.
pub const SCALE: i64 = 1_000_000;

/// The scalar one half, at the fixed-point scale.
pub const HALF: i64 = 500_000;

/// Whether a mathematical integer is representable as an `i64`.
pub open spec fn fits_i64(n: int) -> bool {
    i64::MIN <= n <= i64::MAX
}

/// Division rounding toward zero, the behaviour of `/` on Rust's signed
/// integers (ghost `/` on `int` rounds toward negative infinity instead).
pub open spec fn tdiv(n: int, d: int) -> int {
    if n >= 0 {
        n / d
    } else {
        -((-n) / d)
    }
}

/// Product of two fixed-point scalars: the wide product, scaled back down
/// rounding toward zero.
pub open spec fn mul_fx(a: int, b: int) -> int {
    tdiv(a * b, SCALE as int)
}

/// Quotient of two fixed-point scalars: the dividend widened by the scale,
/// then divided rounding toward zero.
pub open spec fn div_fx(a: int, b: int) -> int {
    tdiv(a * SCALE, b)
}

/// A quotient is bounded by `k` whenever the dividend is bounded by `k`
/// times the (positive) divisor.
pub proof fn lemma_tdiv_in_range(n: int, d: int, k: int)
    requires
        0 < d,
        0 <= k,
        -(k * d) <= n <= k * d,
    ensures
        -k <= tdiv(n, d) <= k,
{
    lemma_div_multiples_vanish(k, d);
    if n >= 0 {
        lemma_div_pos_is_pos(n, d);
        lemma_div_is_ordered(n, k * d, d);
        assert(k * d == d * k);
    } else {
        lemma_div_pos_is_pos(-n, d);
        lemma_div_is_ordered(-n, k * d, d);
        assert(k * d == d * k);
    }
}

/// Conversely, a dividend is strictly bounded by `k + 1` times the
/// (positive) divisor whenever its quotient is bounded by `k`.
pub proof fn lemma_tdiv_range_converse(n: int, d: int, k: int)
    requires
        0 < d,
        0 <= k,
        -k <= tdiv(n, d) <= k,
    ensures
        -((k + 1) * d) < n < (k + 1) * d,
{
    assert((k + 1) * d == d * k + d) by (nonlinear_arith);
    assert((k + 1) * d > 0) by (nonlinear_arith)
        requires
            0 < d,
            0 <= k,
    ;
    if n >= 0 {
        lemma_fundamental_div_mod(n, d);
        lemma_mod_bound(n, d);
        assert(n == d * (n / d) + n % d);
        assert(d * (n / d) <= d * k) by (nonlinear_arith)
            requires
                0 < d,
                n / d <= k,
        ;
        assert(d * k < (k + 1) * d) by (nonlinear_arith)
            requires
                0 < d,
        ;
    } else {
        lemma_fundamental_div_mod(-n, d);
        lemma_mod_bound(-n, d);
        assert(-n == d * ((-n) / d) + (-n) % d);
        assert(d * ((-n) / d) <= d * k) by (nonlinear_arith)
            requires
                0 < d,
                (-n) / d <= k,
        ;
        assert(d * k < (k + 1) * d) by (nonlinear_arith)
            requires
                0 < d,
        ;
    }
}

/// The product of two `i64` values lies within the `i128` range.
pub proof fn lemma_i64_product_in_i128(a: int, b: int)
    by (nonlinear_arith)
    requires
        i64::MIN <= a <= i64::MAX,
        i64::MIN <= b <= i64::MAX,
    ensures
        i128::MIN < a * b < i128::MAX,
{
}

/// Multiplies two fixed-point scalars, exactly as [`mul_fx`] describes.
pub fn fixed_mul(a: i64, b: i64) -> (r: i64)
    requires
        fits_i64(mul_fx(a as int, b as int)),
    ensures
        r as int == mul_fx(a as int, b as int),
{
    proof {
        lemma_i64_product_in_i128(a as int, b as int);
    }
    let wide: i128 = (a as i128) * (b as i128);
    let q: i128 = wide / (SCALE as i128);
    q as i64
}

/// Divides one fixed-point scalar by another, exactly as [`div_fx`]
/// describes. The divisor must be nonzero: there is no representation of
/// an infinite quotient among fixed-point scalars.
pub fn fixed_div(a: i64, b: i64) -> (r: i64)
    requires
        b != 0,
        fits_i64(div_fx(a as int, b as int)),
    ensures
        r as int == div_fx(a as int, b as int),
{
    proof {
        lemma_i64_product_in_i128(a as int, SCALE as int);
    }
    let wide: i128 = (a as i128) * (SCALE as i128);
    let q: i128 = wide / (b as i128);
    q as i64
}

/// Whether `r` is the integer square root of `n`: the greatest integer
/// whose square does not exceed `n`.
pub open spec fn is_isqrt(n: int, r: int) -> bool {
    &&& 0 <= r
    &&& r * r <= n
    &&& n < (r + 1) * (r + 1)
}

/// The integer square root of `n`, defined by counting up.
pub open spec fn isqrt_of(n: int) -> int
    decreases n,
{
    if n <= 0 {
        0
    } else {
        let r = isqrt_of(n - 1);
        if (r + 1) * (r + 1) <= n {
            r + 1
        } else {
            r
        }
    }
}

/// [`isqrt_of`] satisfies the square-root characterisation [`is_isqrt`].
pub proof fn lemma_isqrt_of_correct(n: int)
    requires
        0 <= n,
    ensures
        is_isqrt(n, isqrt_of(n)),
    decreases n,
{
    if n == 0 {
        assert(isqrt_of(0) == 0);
    } else {
        lemma_isqrt_of_correct(n - 1);
        let r = isqrt_of(n - 1);
        if (r + 1) * (r + 1) <= n {
            assert(n < (r + 2) * (r + 2)) by (nonlinear_arith)
                requires
                    0 <= r,
                    n <= (r + 1) * (r + 1),
            ;
        }
    }
}

/// At most one integer satisfies the square-root characterisation.
pub proof fn lemma_isqrt_unique(n: int, a: int, b: int)
    by (nonlinear_arith)
    requires
        is_isqrt(n, a),
        is_isqrt(n, b),
    ensures
        a == b,
{
}

/// Integer square root by binary search on the result.
pub fn isqrt(n: u128) -> (r: u128)
    ensures
        is_isqrt(n as int, r as int),
        r as int == isqrt_of(n as int),
{
    let mut lo: u128 = 0;
    let mut hi: u128 = 0x1_0000_0000_0000_0000;
    assert((hi as int) * (hi as int) == 0x100000000000000000000000000000000int);
    while lo + 1 < hi
        invariant
            lo < hi,
            hi <= 0x1_0000_0000_0000_0000u128,
            (lo as int) * (lo as int) <= n as int,
            (n as int) < (hi as int) * (hi as int),
        decreases hi - lo,
    {
        let mid: u128 = lo + (hi - lo) / 2;
        assert((mid as int) * (mid as int) < 0x100000000000000000000000000000000int)
            by (nonlinear_arith)
            requires
                mid < 0x1_0000_0000_0000_0000u128,
        ;
        if mid * mid <= n {
            lo = mid;
        } else {
            hi = mid;
        }
    }
    proof {
        lemma_isqrt_of_correct(n as int);
        lemma_isqrt_unique(n as int, lo as int, isqrt_of(n as int));
    }
    lo
}

} // verus!
