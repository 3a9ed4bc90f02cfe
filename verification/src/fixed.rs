//! Fixed-point scalars.
//!
//! Every quantity of the simulation (lengths, speeds, weights, light
//! intensities) is an `i64` that counts millionths of a unit. Products are
//! formed in 128 bits and quotients are rounded toward zero, so that an
//! operation and its mirror image give mirrored results.

use vstd::prelude::*;

verus! {

/// The raw value that stands for `1.0`.
pub const ONE: i64 = 1_000_000;

/// `ONE * ONE`: what stands for `1.0` among products of two raw scalars.
pub const ONE_SQUARED: i64 = 1_000_000_000_000;

/// Largest magnitude that a raw scalar handled by this crate may have (2^62).
pub const SCALAR_MAX: i64 = 4_611_686_018_427_387_904;

/// Arguments of [`isqrt`] lie below this bound (2^126).
pub const SQRT_DOMAIN: u128 = 85_070_591_730_234_615_865_843_651_857_942_052_864;

/// `|a|`.
pub open spec fn abs(a: int) -> int {
    if a < 0 {
        -a
    } else {
        a
    }
}

/// `n / d` rounded toward zero, for a positive divisor.
pub open spec fn div_trunc(n: int, d: int) -> int
    recommends
        d > 0,
{
    if n >= 0 {
        n / d
    } else {
        -((-n) / d)
    }
}

/// `a * b / c` rounded toward zero: the one rounding step of fixed-point
/// multiplication (`c == ONE`), division (`b == ONE`) and rescaling.
pub open spec fn mul_div(a: int, b: int, c: int) -> int
    recommends
        c > 0,
{
    div_trunc(a * b, c)
}

/// `r` is the integer square root of `n`, rounded down.
pub open spec fn is_sqrt_floor(n: int, r: int) -> bool {
    0 <= r && r * r <= n < (r + 1) * (r + 1)
}

/// The integer square root of `n`, rounded down.
pub open spec fn sqrt_floor(n: int) -> int
    recommends
        n >= 0,
{
    choose|r: int| is_sqrt_floor(n, r)
}

/// The integer square root of `n`, rounded up.
pub open spec fn sqrt_ceil(n: int) -> int
    recommends
        n >= 0,
{
    let r = sqrt_floor(n);
    if r * r == n {
        r
    } else {
        r + 1
    }
}

/// Squaring is monotone on the non-negative integers.
pub proof fn lemma_square_monotone(a: int, b: int)
    requires
        0 <= a <= b,
    ensures
        a * a <= b * b,
{
    assert(a * a <= b * b) by (nonlinear_arith)
        requires
            0 <= a <= b,
    ;
}

/// At most one integer is the rounded-down square root of `n`.
pub proof fn lemma_sqrt_floor_unique(n: int, r: int, s: int)
    requires
        is_sqrt_floor(n, r),
        is_sqrt_floor(n, s),
    ensures
        r == s,
{
    if r < s {
        lemma_square_monotone(r + 1, s);
    } else if s < r {
        lemma_square_monotone(s + 1, r);
    }
}

/// Every non-negative integer has a rounded-down square root, and
/// [`sqrt_floor`] names it.
pub proof fn lemma_sqrt_floor_exists(n: int)
    requires
        n >= 0,
    ensures
        is_sqrt_floor(n, sqrt_floor(n)),
    decreases n,
{
    if n == 0 {
        assert(is_sqrt_floor(0, 0));
    } else {
        lemma_sqrt_floor_exists(n - 1);
        let r = sqrt_floor(n - 1);
        if (r + 1) * (r + 1) <= n {
            assert((r + 2) * (r + 2) > (r + 1) * (r + 1)) by (nonlinear_arith)
                requires
                    r >= 0,
            ;
            assert((r + 1) * (r + 1) == n);
            assert(is_sqrt_floor(n, r + 1));
        } else {
            assert(is_sqrt_floor(n, r));
        }
    }
}

/// What [`sqrt_ceil`] returns: the least `c >= 0` with `c * c >= n`.
pub proof fn lemma_sqrt_ceil(n: int)
    requires
        n >= 0,
    ensures
        0 <= sqrt_ceil(n),
        n <= sqrt_ceil(n) * sqrt_ceil(n),
        n > 0 ==> sqrt_ceil(n) >= 1 && (sqrt_ceil(n) - 1) * (sqrt_ceil(n) - 1) < n,
        n == 0 ==> sqrt_ceil(n) == 0,
{
    lemma_sqrt_floor_exists(n);
    let r = sqrt_floor(n);
    if n == 0 {
        lemma_sqrt_floor_unique(0, r, 0);
    } else if r * r == n {
        assert(r >= 1);
        assert((r - 1) * (r - 1) < r * r) by (nonlinear_arith)
            requires
                r >= 1,
        ;
    }
}

/// `|a|` of a raw scalar, widened so that `i64::MIN` has one.
pub fn magnitude(a: i64) -> (m: u64)
    ensures
        m == abs(a as int),
{
    if a >= 0 {
        a as u64
    } else if a == i64::MIN {
        9_223_372_036_854_775_808u64
    } else {
        (-a) as u64
    }
}

/// `a * b / c` on magnitudes, rounded down.
pub fn mul_div_magnitude(a: u64, b: u64, c: u128) -> (q: u128)
    requires
        c > 0,
    ensures
        q == (a as int * b as int) / (c as int),
{
    assert(a * b <= 0xffff_ffff_ffff_ffff * 0xffff_ffff_ffff_ffff) by (nonlinear_arith)
        requires
            a <= 0xffff_ffff_ffff_ffff,
            b <= 0xffff_ffff_ffff_ffff,
    ;
    let p: u128 = (a as u128) * (b as u128);
    p / c
}

/// The sign rule behind [`scale`]: the truncated quotient of a product is the
/// quotient of the magnitudes, negated when the factors differ in sign.
pub proof fn lemma_mul_div_by_magnitude(a: int, b: int, c: int)
    requires
        c > 0,
    ensures
        (a < 0) != (b < 0) ==> mul_div(a, b, c) == -((abs(a) * abs(b)) / c),
        (a < 0) == (b < 0) ==> mul_div(a, b, c) == (abs(a) * abs(b)) / c,
        abs(mul_div(a, b, c)) == (abs(a) * abs(b)) / c,
{
    assert(abs(a) * abs(b) == abs(a * b)) by (nonlinear_arith);
    assert((a < 0) != (b < 0) ==> a * b <= 0) by (nonlinear_arith);
    assert((a < 0) == (b < 0) ==> a * b >= 0) by (nonlinear_arith);
    let q = (abs(a) * abs(b)) / c;
    assert(q >= 0) by (nonlinear_arith)
        requires
            q == (abs(a) * abs(b)) / c,
            abs(a) * abs(b) >= 0,
            c > 0,
    ;
    if a * b == 0 {
        assert(0int / c == 0);
    }
}

/// Rounding toward zero loses less than one: `c` times the rounded
/// quotient of `a * b` by `c` is within `c` of `a * b`.
pub proof fn lemma_mul_div_remainder(a: int, b: int, c: int)
    requires
        c > 0,
    ensures
        abs(c * mul_div(a, b, c) - a * b) < c,
{
    lemma_mul_div_by_magnitude(a, b, c);
    let p = abs(a) * abs(b);
    let q = p / c;
    assert(abs(a) * abs(b) == abs(a * b)) by (nonlinear_arith);
    assert(c * q <= p < c * q + c && q >= 0) by (nonlinear_arith)
        requires
            q == p / c,
            p >= 0,
            c > 0,
    ;
    assert((a < 0) != (b < 0) ==> a * b <= 0) by (nonlinear_arith);
    assert((a < 0) == (b < 0) ==> a * b >= 0) by (nonlinear_arith);
    assert(c * (-q) == -(c * q)) by (nonlinear_arith);
}

/// A bound on a rescaled value from bounds on what goes into it.
pub proof fn lemma_mul_div_bound(a: int, b: int, c: int, bound_a: int, bound_b: int)
    requires
        c > 0,
        abs(a) <= bound_a,
        abs(b) <= bound_b,
    ensures
        abs(mul_div(a, b, c)) <= (bound_a * bound_b) / c,
        abs(mul_div(a, b, c)) <= bound_a * bound_b,
{
    lemma_mul_div_by_magnitude(a, b, c);
    let p = abs(a) * abs(b);
    let q = bound_a * bound_b;
    assert(0 <= p <= q) by (nonlinear_arith)
        requires
            p == abs(a) * abs(b),
            q == bound_a * bound_b,
            0 <= abs(a) <= bound_a,
            0 <= abs(b) <= bound_b,
    ;
    assert(p / c <= q / c && q / c <= q) by (nonlinear_arith)
        requires
            0 <= p <= q,
            c > 0,
    ;
}

/// Fixed-point rescaling: `a * b / c`, rounded toward zero.
pub fn scale(a: i64, b: i64, c: u128) -> (r: i64)
    requires
        c > 0,
        abs(mul_div(a as int, b as int, c as int)) <= i64::MAX,
    ensures
        r == mul_div(a as int, b as int, c as int),
{
    proof {
        lemma_mul_div_by_magnitude(a as int, b as int, c as int);
    }
    let q = mul_div_magnitude(magnitude(a), magnitude(b), c);
    if (a < 0) != (b < 0) {
        -(q as i64)
    } else {
        q as i64
    }
}

/// Integer square root, rounded down, by bisection.
pub fn isqrt(n: u128) -> (r: u64)
    requires
        n < SQRT_DOMAIN,
    ensures
        r == sqrt_floor(n as int),
        is_sqrt_floor(n as int, r as int),
{
    let mut lo: u64 = 0;
    let mut hi: u64 = 9_223_372_036_854_775_808;
    assert(hi * hi == SQRT_DOMAIN) by (nonlinear_arith)
        requires
            hi == 9_223_372_036_854_775_808u64,
    ;
    while hi - lo > 1
        invariant
            lo < hi <= 9_223_372_036_854_775_808,
            lo * lo <= n < hi * hi,
        decreases hi - lo,
    {
        let mid: u64 = lo + (hi - lo) / 2;
        assert(mid * mid < SQRT_DOMAIN) by (nonlinear_arith)
            requires
                mid < 9_223_372_036_854_775_808,
        ;
        let square: u128 = (mid as u128) * (mid as u128);
        if square <= n {
            lo = mid;
        } else {
            hi = mid;
        }
    }
    proof {
        assert(hi == lo + 1);
        assert(is_sqrt_floor(n as int, lo as int));
        lemma_sqrt_floor_exists(n as int);
        lemma_sqrt_floor_unique(n as int, lo as int, sqrt_floor(n as int));
    }
    lo
}

/// Integer square root, rounded up.
pub fn isqrt_ceil(n: u128) -> (r: u64)
    requires
        n < SQRT_DOMAIN,
    ensures
        r == sqrt_ceil(n as int),
{
    let floor = isqrt(n);
    assert(floor * floor <= n);
    let square: u128 = (floor as u128) * (floor as u128);
    if square == n {
        floor
    } else {
        assert(floor < 9_223_372_036_854_775_808) by (nonlinear_arith)
            requires
                floor * floor < SQRT_DOMAIN,
        ;
        floor + 1
    }
}

} // verus!
