//! Three-dimensional fixed-point vectors.
//!
//! [`Vector`] is the mathematical model, with unbounded integer components;
//! [`Vec3`] is the executable vector of raw `i64` scalars. Every operation of
//! `Vec3` is specified by the operation of the same name on its view.

use crate::fixed::{
    abs, isqrt, isqrt_ceil, lemma_mul_div_bound, lemma_mul_div_by_magnitude, lemma_sqrt_ceil,
    lemma_sqrt_floor_exists, lemma_sqrt_floor_unique, lemma_square_monotone, magnitude, mul_div,
    scale, sqrt_ceil, sqrt_floor, ONE, SCALAR_MAX, SQRT_DOMAIN,
};
use vstd::prelude::*;

verus! {

/// A vector with integer components of any size.
pub struct Vector {
    pub x: int,
    pub y: int,
    pub z: int,
}

impl Vector {
    pub open spec fn zero() -> Vector {
        Vector { x: 0, y: 0, z: 0 }
    }

    pub open spec fn plus(self, other: Vector) -> Vector {
        Vector { x: self.x + other.x, y: self.y + other.y, z: self.z + other.z }
    }

    pub open spec fn minus(self, other: Vector) -> Vector {
        Vector { x: self.x - other.x, y: self.y - other.y, z: self.z - other.z }
    }

    /// Every component multiplied by the integer `k`.
    pub open spec fn times(self, k: int) -> Vector {
        Vector { x: self.x * k, y: self.y * k, z: self.z * k }
    }

    /// Every component multiplied by `num / den`, rounded toward zero.
    pub open spec fn scaled(self, num: int, den: int) -> Vector
        recommends
            den > 0,
    {
        Vector {
            x: mul_div(self.x, num, den),
            y: mul_div(self.y, num, den),
            z: mul_div(self.z, num, den),
        }
    }

    pub open spec fn dot(self, other: Vector) -> int {
        self.x * other.x + self.y * other.y + self.z * other.z
    }

    /// The squared Euclidean length.
    pub open spec fn norm2(self) -> int {
        self.dot(self)
    }

    /// The Euclidean length, rounded down.
    pub open spec fn length(self) -> int {
        sqrt_floor(self.norm2())
    }

    /// The largest magnitude among the components.
    pub open spec fn max_abs(self) -> int {
        let a = abs(self.x);
        let b = abs(self.y);
        let c = abs(self.z);
        if a >= b && a >= c {
            a
        } else if b >= c {
            b
        } else {
            c
        }
    }

    /// No component exceeds `bound` in magnitude.
    pub open spec fn within(self, bound: int) -> bool {
        abs(self.x) <= bound && abs(self.y) <= bound && abs(self.z) <= bound
    }

    /// The vector multiplied by the largest integer that keeps it within
    /// `SCALAR_MAX`: the same direction at the finest resolution available.
    pub open spec fn stretched(self) -> Vector
        recommends
            0 < self.max_abs() <= SCALAR_MAX,
    {
        self.times(SCALAR_MAX as int / self.max_abs())
    }

    /// The direction of the vector as a vector of length `ONE`, or zero for
    /// the zero vector. The length is rounded up and the components toward
    /// zero, so the result is never longer than `ONE`.
    pub open spec fn unit(self) -> Vector
        recommends
            self.max_abs() <= SCALAR_MAX,
    {
        if self.max_abs() == 0 {
            Vector::zero()
        } else {
            let wide = self.stretched();
            wide.scaled(ONE as int, sqrt_ceil(wide.norm2()))
        }
    }

    /// The vector of length `len` in the direction of this one, or zero for
    /// the zero vector.
    pub open spec fn with_length(self, len: int) -> Vector
        recommends
            self.max_abs() <= SCALAR_MAX,
            len >= 0,
    {
        self.unit().scaled(len, ONE as int)
    }

    /// The squared distance between two points.
    pub open spec fn dist2(self, other: Vector) -> int {
        self.minus(other).norm2()
    }
}

/// Points within this distance of the origin along every axis can be
/// subtracted from one another and the difference measured (2^61).
pub const REACH: i64 = 2_305_843_009_213_693_952;

/// A vector of raw fixed-point scalars.
#[derive(Clone, Copy, Debug, PartialEq, Eq, Structural)]
pub struct Vec3 {
    pub x: i64,
    pub y: i64,
    pub z: i64,
}

impl View for Vec3 {
    type V = Vector;

    open spec fn view(&self) -> Vector {
        Vector { x: self.x as int, y: self.y as int, z: self.z as int }
    }
}

/// `a * a <= bound * bound` whenever `|a| <= bound`.
pub proof fn lemma_square_within(a: int, bound: int)
    requires
        abs(a) <= bound,
    ensures
        0 <= a * a <= bound * bound,
{
    assert(a * a == abs(a) * abs(a)) by (nonlinear_arith);
    lemma_square_monotone(abs(a), bound);
    assert(abs(a) * abs(a) >= 0) by (nonlinear_arith);
}

/// `|a * b| <= bound_a * bound_b` whenever `|a| <= bound_a` and `|b| <= bound_b`.
pub proof fn lemma_product_bound(a: int, b: int, bound_a: int, bound_b: int)
    requires
        abs(a) <= bound_a,
        abs(b) <= bound_b,
    ensures
        abs(a * b) <= bound_a * bound_b,
{
    assert(abs(a * b) == abs(a) * abs(b)) by (nonlinear_arith);
    assert(abs(a) * abs(b) <= bound_a * bound_b) by (nonlinear_arith)
        requires
            0 <= abs(a) <= bound_a,
            0 <= abs(b) <= bound_b,
    ;
}

/// A vector no longer than `bound` has no component beyond `bound`.
pub proof fn lemma_within_by_norm(v: Vector, bound: int)
    requires
        0 <= bound,
        v.norm2() <= bound * bound,
    ensures
        v.within(bound),
{
    let a = abs(v.x);
    let b = abs(v.y);
    let c = abs(v.z);
    assert(v.x * v.x == a * a && v.y * v.y == b * b && v.z * v.z == c * c) by (nonlinear_arith)
        requires
            a == abs(v.x),
            b == abs(v.y),
            c == abs(v.z),
    ;
    assert(a <= bound && b <= bound && c <= bound) by (nonlinear_arith)
        requires
            a * a + b * b + c * c <= bound * bound,
            0 <= a,
            0 <= b,
            0 <= c,
            0 <= bound,
    ;
}

/// Bounds of the squared length of a bounded vector.
pub proof fn lemma_norm2_within(v: Vector, bound: int)
    requires
        v.within(bound),
    ensures
        0 <= v.norm2() <= 3 * (bound * bound),
        v.max_abs() * v.max_abs() <= v.norm2(),
        v.max_abs() == 0 <==> v == Vector::zero(),
        v.max_abs() == 0 <==> v.norm2() == 0,
        0 <= v.max_abs() <= bound,
{
    lemma_square_within(v.x, bound);
    lemma_square_within(v.y, bound);
    lemma_square_within(v.z, bound);
    assert(v.x * v.x == abs(v.x) * abs(v.x)) by (nonlinear_arith);
    assert(v.y * v.y == abs(v.y) * abs(v.y)) by (nonlinear_arith);
    assert(v.z * v.z == abs(v.z) * abs(v.z)) by (nonlinear_arith);
    let m = v.max_abs();
    if m > 0 {
        assert(m * m > 0) by (nonlinear_arith)
            requires
                m > 0,
        ;
    }
}

impl Vec3 {
    pub fn new(x: i64, y: i64, z: i64) -> (v: Vec3)
        ensures
            v == (Vec3 { x, y, z }),
    {
        Vec3 { x, y, z }
    }

    /// The zero vector.
    pub fn zero() -> (v: Vec3)
        ensures
            v@ == Vector::zero(),
            v == (Vec3 { x: 0, y: 0, z: 0 }),
    {
        Vec3 { x: 0, y: 0, z: 0 }
    }

    /// The vector whose components are whole numbers of units.
    pub fn from_units(x: i32, y: i32, z: i32) -> (v: Vec3)
        ensures
            v@ == (Vector { x: x as int, y: y as int, z: z as int }).times(ONE as int),
    {
        Vec3 { x: (x as i64) * ONE, y: (y as i64) * ONE, z: (z as i64) * ONE }
    }

    /// Whether no component exceeds `bound` in magnitude.
    pub fn is_within(&self, bound: i64) -> (b: bool)
        requires
            bound >= 0,
        ensures
            b == self@.within(bound as int),
    {
        self.max_abs() <= bound as u64
    }

    pub fn is_zero(&self) -> (b: bool)
        ensures
            b == (self@ == Vector::zero()),
            b == (self@.max_abs() == 0),
    {
        self.x == 0 && self.y == 0 && self.z == 0
    }

    pub fn plus(&self, other: &Vec3) -> (v: Vec3)
        requires
            self@.plus(other@).within(i64::MAX as int),
        ensures
            v@ == self@.plus(other@),
    {
        Vec3 { x: self.x + other.x, y: self.y + other.y, z: self.z + other.z }
    }

    pub fn minus(&self, other: &Vec3) -> (v: Vec3)
        requires
            self@.minus(other@).within(i64::MAX as int),
        ensures
            v@ == self@.minus(other@),
    {
        Vec3 { x: self.x - other.x, y: self.y - other.y, z: self.z - other.z }
    }

    /// Every component multiplied by `num / den`, rounded toward zero.
    pub fn scaled(&self, num: i64, den: u128) -> (v: Vec3)
        requires
            den > 0,
            self@.scaled(num as int, den as int).within(i64::MAX as int),
        ensures
            v@ == self@.scaled(num as int, den as int),
    {
        Vec3 { x: scale(self.x, num, den), y: scale(self.y, num, den), z: scale(self.z, num, den) }
    }

    pub fn max_abs(&self) -> (m: u64)
        ensures
            m == self@.max_abs(),
    {
        let a = magnitude(self.x);
        let b = magnitude(self.y);
        let c = magnitude(self.z);
        if a >= b && a >= c {
            a
        } else if b >= c {
            b
        } else {
            c
        }
    }

    /// The dot product.
    pub fn dot(&self, other: &Vec3) -> (d: i128)
        requires
            self@.within(SCALAR_MAX as int),
            other@.within(SCALAR_MAX as int),
        ensures
            d == self@.dot(other@),
    {
        proof {
            let bound = SCALAR_MAX as int;
            lemma_product_bound(self.x as int, other.x as int, bound, bound);
            lemma_product_bound(self.y as int, other.y as int, bound, bound);
            lemma_product_bound(self.z as int, other.z as int, bound, bound);
        }
        (self.x as i128) * (other.x as i128) + (self.y as i128) * (other.y as i128) + (
        self.z as i128) * (other.z as i128)
    }

    /// The squared Euclidean length.
    pub fn norm2(&self) -> (n: u128)
        requires
            self@.within(SCALAR_MAX as int),
        ensures
            n == self@.norm2(),
            n < SQRT_DOMAIN,
    {
        proof {
            lemma_norm2_within(self@, SCALAR_MAX as int);
            lemma_square_within(self.x as int, SCALAR_MAX as int);
            lemma_square_within(self.y as int, SCALAR_MAX as int);
            lemma_square_within(self.z as int, SCALAR_MAX as int);
            assert(self.x * self.x == abs(self.x as int) * abs(self.x as int)) by (nonlinear_arith);
            assert(self.y * self.y == abs(self.y as int) * abs(self.y as int)) by (nonlinear_arith);
            assert(self.z * self.z == abs(self.z as int) * abs(self.z as int)) by (nonlinear_arith);
        }
        let a = magnitude(self.x) as u128;
        let b = magnitude(self.y) as u128;
        let c = magnitude(self.z) as u128;
        a * a + b * b + c * c
    }

    /// The Euclidean length, rounded down.
    pub fn length(&self) -> (len: i64)
        requires
            self@.within(SCALAR_MAX as int),
        ensures
            len == self@.length(),
            0 <= len,
            self@.norm2() > 0 ==> len >= 1,
    {
        let n = self.norm2();
        let root = isqrt(n);
        proof {
            assert(root < 9_223_372_036_854_775_808) by (nonlinear_arith)
                requires
                    root * root < SQRT_DOMAIN,
            ;
            assert(n > 0 ==> root >= 1) by (nonlinear_arith)
                requires
                    n < (root + 1) * (root + 1),
                    root >= 0,
            ;
        }
        root as i64
    }

    /// The direction of the vector at length `ONE`; the zero vector has none
    /// and is returned as it is.
    pub fn normalize_or_zero(&self) -> (v: Vec3)
        requires
            self@.within(SCALAR_MAX as int),
        ensures
            v@ == self@.unit(),
            v@.within(ONE as int),
    {
        let m = self.max_abs();
        if m == 0 {
            return Vec3::zero();
        }
        let k: u64 = (SCALAR_MAX as u64) / m;
        proof {
            lemma_stretched_within(self@);
            lemma_unit_within(self@);
        }
        let wide = Vec3 { x: self.x * (k as i64), y: self.y * (k as i64), z: self.z * (k as i64) };
        assert(wide@ == self@.stretched());
        let len = isqrt_ceil(wide.norm2());
        proof {
            lemma_norm2_within(wide@, SCALAR_MAX as int);
            lemma_sqrt_ceil(wide@.norm2());
        }
        wide.scaled(ONE, len as u128)
    }

    /// The vector of length `len` in the direction of this one; the zero
    /// vector stays zero.
    pub fn with_length(&self, len: i64) -> (v: Vec3)
        requires
            self@.within(SCALAR_MAX as int),
            len >= 0,
        ensures
            v@ == self@.with_length(len as int),
            v@.within(len as int),
    {
        let unit = self.normalize_or_zero();
        proof {
            lemma_mul_div_within(unit.x as int, len as int, ONE as int);
            lemma_mul_div_within(unit.y as int, len as int, ONE as int);
            lemma_mul_div_within(unit.z as int, len as int, ONE as int);
        }
        unit.scaled(len, ONE as u128)
    }

    /// The squared distance between two points.
    pub fn dist2(&self, other: &Vec3) -> (d: u128)
        requires
            self@.within(REACH as int),
            other@.within(REACH as int),
        ensures
            d == self@.dist2(other@),
            d < SQRT_DOMAIN,
    {
        self.minus(other).norm2()
    }
}

/// Stretching keeps a vector within `SCALAR_MAX` and brings its largest
/// component above half of it.
pub proof fn lemma_stretched_within(v: Vector)
    requires
        0 < v.max_abs() <= SCALAR_MAX,
    ensures
        v.stretched().within(SCALAR_MAX as int),
        v.stretched().max_abs() == v.max_abs() * (SCALAR_MAX as int / v.max_abs()),
        2 * v.stretched().max_abs() > SCALAR_MAX,
        1 <= SCALAR_MAX as int / v.max_abs() <= SCALAR_MAX,
{
    let m = v.max_abs();
    let t = SCALAR_MAX as int;
    let k = t / m;
    assert(1 <= k <= t && m * k <= t < m * k + m) by (nonlinear_arith)
        requires
            0 < m <= t,
            k == t / m,
    ;
    lemma_times_abs(v.x, k);
    lemma_times_abs(v.y, k);
    lemma_times_abs(v.z, k);
    assert(abs(v.x) * k <= m * k && abs(v.y) * k <= m * k && abs(v.z) * k <= m * k)
        by (nonlinear_arith)
        requires
            abs(v.x) <= m,
            abs(v.y) <= m,
            abs(v.z) <= m,
            k >= 0,
    ;
    if 2 * m <= t {
        assert(2 * (m * k) > t);
    } else {
        assert(k == 1 && m * k == m) by (nonlinear_arith)
            requires
                0 < m <= t,
                2 * m > t,
                m * k <= t,
                k >= 1,
        ;
    }
}

/// `|a * k| == |a| * k` for a non-negative factor.
pub proof fn lemma_times_abs(a: int, k: int)
    requires
        k >= 0,
    ensures
        abs(a * k) == abs(a) * k,
{
    assert(abs(a * k) == abs(a) * k) by (nonlinear_arith)
        requires
            k >= 0,
    ;
}

/// Rescaling by `num / den` cannot lengthen a component beyond `num` when
/// the component does not exceed `den`.
pub proof fn lemma_mul_div_within(a: int, num: int, den: int)
    requires
        den > 0,
        num >= 0,
        abs(a) <= den,
    ensures
        abs(mul_div(a, num, den)) <= num,
        a >= 0 ==> mul_div(a, num, den) >= 0,
        a <= 0 ==> mul_div(a, num, den) <= 0,
{
    lemma_mul_div_by_magnitude(a, num, den);
    let p = abs(a) * num;
    assert(p / den <= num && p / den >= 0 && (a == 0 ==> p / den == 0)) by (nonlinear_arith)
        requires
            p == abs(a) * num,
            0 <= abs(a) <= den,
            num >= 0,
            den > 0,
    ;
}

/// A bound on a rescaled vector from bounds on the vector and the factor.
pub proof fn lemma_scaled_within(v: Vector, num: int, den: int, bound_v: int, bound_num: int)
    requires
        den > 0,
        v.within(bound_v),
        abs(num) <= bound_num,
    ensures
        v.scaled(num, den).within((bound_v * bound_num) / den),
        v.scaled(num, den).within(bound_v * bound_num),
{
    lemma_mul_div_bound(v.x, num, den, bound_v, bound_num);
    lemma_mul_div_bound(v.y, num, den, bound_v, bound_num);
    lemma_mul_div_bound(v.z, num, den, bound_v, bound_num);
}

/// The components of a unit vector lie within `ONE` and keep their signs.
pub proof fn lemma_unit_within(v: Vector)
    requires
        v.within(SCALAR_MAX as int),
    ensures
        v.unit().within(ONE as int),
        v.x >= 0 ==> v.unit().x >= 0,
        v.x <= 0 ==> v.unit().x <= 0,
        v.y >= 0 ==> v.unit().y >= 0,
        v.y <= 0 ==> v.unit().y <= 0,
        v.z >= 0 ==> v.unit().z >= 0,
        v.z <= 0 ==> v.unit().z <= 0,
{
    lemma_norm2_within(v, SCALAR_MAX as int);
    if v.max_abs() > 0 {
        lemma_stretched_within(v);
        let w = v.stretched();
        let k = SCALAR_MAX as int / v.max_abs();
        lemma_norm2_within(w, SCALAR_MAX as int);
        lemma_sqrt_ceil(w.norm2());
        let len = sqrt_ceil(w.norm2());
        assert(w.max_abs() <= len) by {
            if w.max_abs() > len {
                lemma_square_monotone(len + 1, w.max_abs());
                assert((len + 1) * (len + 1) > len * len) by (nonlinear_arith)
                    requires
                        len >= 0,
                ;
            }
        }
        lemma_mul_div_within(w.x, ONE as int, len);
        lemma_mul_div_within(w.y, ONE as int, len);
        lemma_mul_div_within(w.z, ONE as int, len);
        assert(v.x >= 0 ==> w.x >= 0) by (nonlinear_arith)
            requires
                w.x == v.x * k,
                k >= 1,
        ;
        assert(v.x <= 0 ==> w.x <= 0) by (nonlinear_arith)
            requires
                w.x == v.x * k,
                k >= 1,
        ;
        assert(v.y >= 0 ==> w.y >= 0) by (nonlinear_arith)
            requires
                w.y == v.y * k,
                k >= 1,
        ;
        assert(v.y <= 0 ==> w.y <= 0) by (nonlinear_arith)
            requires
                w.y == v.y * k,
                k >= 1,
        ;
        assert(v.z >= 0 ==> w.z >= 0) by (nonlinear_arith)
            requires
                w.z == v.z * k,
                k >= 1,
        ;
        assert(v.z <= 0 ==> w.z <= 0) by (nonlinear_arith)
            requires
                w.z == v.z * k,
                k >= 1,
        ;
    }
}

/// How far a rounded quotient `q = a * num / den` can fall short: `q * den`
/// lies within `den` of `a * num`, on the side of zero.
pub proof fn lemma_mul_div_square(a: int, num: int, den: int)
    requires
        den > 0,
        num >= 0,
    ensures
        ({
            let q = mul_div(a, num, den);
            &&& (q * q) * (den * den) <= (a * a) * (num * num)
            &&& (q * q) * (den * den) >= (a * a) * (num * num) - 2 * (abs(a) * num) * den
        }),
{
    lemma_mul_div_by_magnitude(a, num, den);
    let q = mul_div(a, num, den);
    let t = abs(a) * num;
    let b = abs(q);
    let u = b * den;
    assert(t >= 0) by (nonlinear_arith)
        requires
            t == abs(a) * num,
            abs(a) >= 0,
            num >= 0,
    ;
    assert(u <= t < u + den && u >= 0 && b >= 0) by (nonlinear_arith)
        requires
            b == t / den,
            u == b * den,
            t >= 0,
            den > 0,
    ;
    assert(u * u <= t * t) by (nonlinear_arith)
        requires
            0 <= u <= t,
    ;
    assert(u * u >= t * t - 2 * t * den) by (nonlinear_arith)
        requires
            0 <= u,
            u > t - den,
            t >= 0,
            den > 0,
    ;
    assert(u * u == (q * q) * (den * den)) by (nonlinear_arith)
        requires
            u == b * den,
            b == abs(q),
    ;
    assert(t * t == (a * a) * (num * num)) by (nonlinear_arith)
        requires
            t == abs(a) * num,
    ;
}

/// The sum of the component magnitudes of `v`.
pub open spec fn abs_sum(v: Vector) -> int {
    abs(v.x) + abs(v.y) + abs(v.z)
}

/// The sum of the component magnitudes is at most `sqrt(3)` lengths.
pub proof fn lemma_abs_sum(v: Vector)
    ensures
        0 <= abs_sum(v),
        abs_sum(v) * abs_sum(v) <= 3 * v.norm2(),
{
    let a = abs(v.x);
    let b = abs(v.y);
    let c = abs(v.z);
    assert(v.norm2() == a * a + b * b + c * c) by (nonlinear_arith)
        requires
            a == abs(v.x),
            b == abs(v.y),
            c == abs(v.z),
            v.norm2() == v.x * v.x + v.y * v.y + v.z * v.z,
    ;
    assert((a + b + c) * (a + b + c) <= 3 * (a * a + b * b + c * c)) by (nonlinear_arith);
}

/// Rescaling a vector by `num / den` rescales its length by the same ratio,
/// up to the rounding of the three components: never longer, and shorter by
/// less than one raw unit per component.
pub proof fn lemma_scaled_norm(v: Vector, num: int, den: int)
    requires
        den > 0,
        num >= 0,
    ensures
        (den * den) * v.scaled(num, den).norm2() <= (num * num) * v.norm2(),
        (den * den) * v.scaled(num, den).norm2() >= (num * num) * v.norm2() - 2 * (num * den)
            * abs_sum(v),
{
    lemma_mul_div_square(v.x, num, den);
    lemma_mul_div_square(v.y, num, den);
    lemma_mul_div_square(v.z, num, den);
    let s = v.scaled(num, den);
    let d2 = den * den;
    let n2 = num * num;
    let nd = num * den;
    assert(d2 * s.norm2() == (s.x * s.x) * d2 + (s.y * s.y) * d2 + (s.z * s.z) * d2)
        by (nonlinear_arith)
        requires
            s.norm2() == s.x * s.x + s.y * s.y + s.z * s.z,
    ;
    assert(n2 * v.norm2() == (v.x * v.x) * n2 + (v.y * v.y) * n2 + (v.z * v.z) * n2)
        by (nonlinear_arith)
        requires
            v.norm2() == v.x * v.x + v.y * v.y + v.z * v.z,
    ;
    assert(2 * nd * abs_sum(v) == 2 * (abs(v.x) * num) * den + 2 * (abs(v.y) * num) * den + 2 * (
    abs(v.z) * num) * den) by (nonlinear_arith)
        requires
            nd == num * den,
            abs_sum(v) == abs(v.x) + abs(v.y) + abs(v.z),
    ;
}

/// A unit vector is never longer than `ONE`, and the unit vector of a
/// non-zero vector is shorter than `ONE` by less than three raw units:
/// its squared length is at least `ONE * ONE - 5 * ONE`.
pub proof fn lemma_unit_norm(v: Vector)
    requires
        v.within(SCALAR_MAX as int),
    ensures
        0 <= v.unit().norm2() <= ONE * ONE,
        v != Vector::zero() ==> v.unit().norm2() >= ONE * ONE - 5 * ONE,
        v == Vector::zero() ==> v.unit() == Vector::zero(),
{
    lemma_norm2_within(v, SCALAR_MAX as int);
    lemma_unit_within(v);
    lemma_norm2_within(v.unit(), ONE as int);
    if v.max_abs() > 0 {
        lemma_stretched_within(v);
        let w = v.stretched();
        lemma_norm2_within(w, SCALAR_MAX as int);
        let w2 = w.norm2();
        lemma_sqrt_ceil(w2);
        let len = sqrt_ceil(w2);
        let one = ONE as int;
        let u2 = v.unit().norm2();
        let l2 = len * len;
        lemma_scaled_norm(w, one, len);
        lemma_abs_sum(w);
        let sum = abs_sum(w);
        assert(w.max_abs() <= len) by {
            if w.max_abs() > len {
                lemma_square_monotone(len + 1, w.max_abs());
                assert((len + 1) * (len + 1) > len * len) by (nonlinear_arith)
                    requires
                        len >= 0,
                ;
            }
        }
        assert(len >= 2 * one);
        assert(l2 > 0) by (nonlinear_arith)
            requires
                l2 == len * len,
                len > 0,
        ;
        // upper bound
        assert(l2 * u2 <= (one * one) * l2) by (nonlinear_arith)
            requires
                l2 * u2 <= (one * one) * w2,
                w2 <= l2,
                one * one >= 0,
        ;
        assert(u2 <= one * one) by (nonlinear_arith)
            requires
                l2 * u2 <= (one * one) * l2,
                l2 > 0,
        ;
        // lower bound
        assert(sum <= 2 * len) by (nonlinear_arith)
            requires
                sum * sum <= 3 * w2,
                w2 <= len * len,
                sum >= 0,
                len >= 0,
        ;
        assert(2 * (one * len) * sum <= 4 * one * l2) by (nonlinear_arith)
            requires
                0 <= sum <= 2 * len,
                l2 == len * len,
                one == 1_000_000,
                len >= 0,
        ;
        assert(w2 >= l2 - 2 * len) by (nonlinear_arith)
            requires
                (len - 1) * (len - 1) < w2,
                l2 == len * len,
        ;
        assert(2 * (one * one) * len <= one * l2) by (nonlinear_arith)
            requires
                len >= 2 * one,
                l2 == len * len,
                one == 1_000_000,
        ;
        assert(l2 * u2 >= l2 * (one * one - 5 * one)) by (nonlinear_arith)
            requires
                l2 * u2 >= (one * one) * w2 - 2 * (one * len) * sum,
                2 * (one * len) * sum <= 4 * one * l2,
                w2 >= l2 - 2 * len,
                2 * (one * one) * len <= one * l2,
                one == 1_000_000,
        ;
        assert(u2 >= one * one - 5 * one) by (nonlinear_arith)
            requires
                l2 * u2 >= l2 * (one * one - 5 * one),
                l2 > 0,
        ;
    }
}

/// The square root of a square is exact.
pub proof fn lemma_sqrt_of_square(r: int)
    requires
        r >= 0,
    ensures
        sqrt_floor(r * r) == r,
        sqrt_ceil(r * r) == r,
{
    assert(r * r >= 0 && r * r < (r + 1) * (r + 1)) by (nonlinear_arith)
        requires
            r >= 0,
    ;
    lemma_sqrt_floor_exists(r * r);
    lemma_sqrt_floor_unique(r * r, r, sqrt_floor(r * r));
}

/// What becomes of the components of a vector along an axis when its
/// direction is taken: `a`, stretched by `k`, over its own magnitude.
proof fn lemma_axis_component(a: int, k: int)
    requires
        a != 0,
        k >= 1,
    ensures
        ({
            let r = abs(a) * k;
            &&& r > 0
            &&& (a * k) * (a * k) == r * r
            &&& mul_div(a * k, ONE as int, r) == if a > 0 {
                ONE as int
            } else {
                -ONE
            }
            &&& mul_div(0, ONE as int, r) == 0
        }),
{
    let r = abs(a) * k;
    lemma_times_abs(a, k);
    assert(r > 0 && (a * k) * (a * k) == r * r && (a > 0 ==> a * k > 0) && (a < 0 ==> a * k < 0))
        by (nonlinear_arith)
        requires
            r == abs(a) * k,
            a != 0,
            k >= 1,
    ;
    lemma_mul_div_by_magnitude(a * k, ONE as int, r);
    lemma_mul_div_by_magnitude(0, ONE as int, r);
    assert((r * ONE) / r == ONE && (0 * ONE) / r == 0) by (nonlinear_arith)
        requires
            r > 0,
    ;
}

/// Along an axis the direction is exact: the unit vector of a vector
/// that has one component other than zero has `ONE` there, with the sign
/// of that component.
pub proof fn lemma_unit_along_axis(v: Vector)
    requires
        v.within(SCALAR_MAX as int),
    ensures
        v.y == 0 && v.z == 0 && v.x > 0 ==> v.unit() == (Vector { x: ONE as int, y: 0, z: 0 }),
        v.y == 0 && v.z == 0 && v.x < 0 ==> v.unit() == (Vector { x: -ONE, y: 0, z: 0 }),
        v.x == 0 && v.z == 0 && v.y > 0 ==> v.unit() == (Vector { x: 0, y: ONE as int, z: 0 }),
        v.x == 0 && v.z == 0 && v.y < 0 ==> v.unit() == (Vector { x: 0, y: -ONE, z: 0 }),
        v.x == 0 && v.y == 0 && v.z > 0 ==> v.unit() == (Vector { x: 0, y: 0, z: ONE as int }),
        v.x == 0 && v.y == 0 && v.z < 0 ==> v.unit() == (Vector { x: 0, y: 0, z: -ONE }),
{
    let m = v.max_abs();
    if m > 0 {
        lemma_stretched_within(v);
        let k = SCALAR_MAX as int / m;
        let w = v.stretched();
        let r = m * k;
        lemma_sqrt_of_square(r);
        if v.y == 0 && v.z == 0 {
            lemma_axis_component(v.x, k);
            assert(w.y == 0 && w.z == 0) by (nonlinear_arith)
                requires
                    w.y == v.y * k,
                    w.z == v.z * k,
                    v.y == 0,
                    v.z == 0,
            ;
            assert(w.norm2() == r * r);
        } else if v.x == 0 && v.z == 0 {
            lemma_axis_component(v.y, k);
            assert(w.x == 0 && w.z == 0) by (nonlinear_arith)
                requires
                    w.x == v.x * k,
                    w.z == v.z * k,
                    v.x == 0,
                    v.z == 0,
            ;
            assert(w.norm2() == r * r);
        } else if v.x == 0 && v.y == 0 {
            lemma_axis_component(v.z, k);
            assert(w.x == 0 && w.y == 0) by (nonlinear_arith)
                requires
                    w.x == v.x * k,
                    w.y == v.y * k,
                    v.x == 0,
                    v.y == 0,
            ;
            assert(w.norm2() == r * r);
        }
    }
}

/// `ONE` times the least squared length that a vector other than zero can
/// have once it is given the length `len`: `len * len`, less what the
/// rounding of the direction and of the three components may take.
pub open spec fn least_norm2(len: int) -> int {
    (ONE - 5) * (len * len) - 4 * (ONE * len)
}

/// The least squared length falls short of `len * len`.
pub proof fn lemma_least_norm2_below(len: int)
    requires
        0 <= len,
    ensures
        least_norm2(len) <= ONE * (len * len),
{
    assert((ONE - 5) * (len * len) - 4 * (ONE * len) <= ONE * (len * len)) by (nonlinear_arith)
        requires
            0 <= len,
    ;
}

/// A vector given a length `len` is never longer than `len`; unless it was
/// zero, its squared length falls short of `len * len` by less than
/// `5 * len * len / ONE + 4 * len`.
pub proof fn lemma_with_length_norm(v: Vector, len: int)
    requires
        v.within(SCALAR_MAX as int),
        len >= 0,
    ensures
        0 <= v.with_length(len).norm2() <= len * len,
        v != Vector::zero() ==> ONE * v.with_length(len).norm2() >= least_norm2(len),
        v == Vector::zero() ==> v.with_length(len) == Vector::zero(),
{
    let one = ONE as int;
    let u = v.unit();
    let out = v.with_length(len);
    lemma_unit_norm(v);
    lemma_unit_within(v);
    lemma_scaled_norm(u, len, one);
    lemma_abs_sum(u);
    let o2 = out.norm2();
    let u2 = u.norm2();
    let l2 = len * len;
    let sum = abs_sum(u);
    assert(l2 >= 0) by (nonlinear_arith)
        requires
            l2 == len * len,
    ;
    assert(out.x * out.x >= 0 && out.y * out.y >= 0 && out.z * out.z >= 0) by (nonlinear_arith);
    assert((one * one) * o2 <= l2 * (one * one)) by (nonlinear_arith)
        requires
            (one * one) * o2 <= l2 * u2,
            u2 <= one * one,
            l2 >= 0,
    ;
    if v == Vector::zero() {
        lemma_mul_div_within(0, len, one);
    } else {
        assert(v.max_abs() > 0);
        assert(sum <= 2 * one) by (nonlinear_arith)
            requires
                sum * sum <= 3 * u2,
                u2 <= one * one,
                sum >= 0,
                one == 1_000_000,
        ;
        assert(2 * (len * one) * sum <= 4 * (one * one) * len) by (nonlinear_arith)
            requires
                0 <= sum <= 2 * one,
                len >= 0,
                one == 1_000_000,
        ;
        assert(l2 * u2 >= l2 * (one * one - 5 * one)) by (nonlinear_arith)
            requires
                u2 >= one * one - 5 * one,
                l2 >= 0,
        ;
        assert(l2 * (one * one - 5 * one) == one * ((one - 5) * l2)) by (nonlinear_arith);
        assert(4 * (one * one) * len == one * (4 * (one * len))) by (nonlinear_arith);
        assert((one * one) * o2 == one * (one * o2)) by (nonlinear_arith);
        assert(one * (one * o2) >= one * ((one - 5) * l2 - 4 * (one * len))) by (nonlinear_arith)
            requires
                (one * one) * o2 >= l2 * u2 - 2 * (len * one) * sum,
                2 * (len * one) * sum <= 4 * (one * one) * len,
                l2 * u2 >= l2 * (one * one - 5 * one),
                l2 * (one * one - 5 * one) == one * ((one - 5) * l2),
                4 * (one * one) * len == one * (4 * (one * len)),
                (one * one) * o2 == one * (one * o2),
        ;
    }
}

} // verus!
