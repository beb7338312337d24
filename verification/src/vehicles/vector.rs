//! Two-dimensional fixed-point vectors and their mathematical model.

use vstd::prelude::*;

verus! {

/// What stands for one: every coordinate, speed and constant is a whole
/// number of thousandths.
pub const SCALE: i64 = 1000;

/// The square of `SCALE`: what stands for one among squared lengths.
pub const UNIT_SQ: i64 = 1_000_000;

/// The largest magnitude that a constant of a car or a coordinate handed to
/// the engine may have (a thousand units): within it every product of the
/// engine's laws fits the machine's integers.
pub const LIMIT: i64 = 1_000_000;

/// The largest magnitude that a coordinate of a momentum may have:
/// `LIMIT` times `LIMIT` times `SCALE`, a speed of `LIMIT` at a mass of
/// `LIMIT`.
pub const REACH: i64 = 1_000_000_000_000_000;

/// Division of `n` by a positive `d`, rounded toward zero.
pub open spec fn trunc_div(n: int, d: int) -> int {
    if n >= 0 {
        n / d
    } else {
        -((-n) / d)
    }
}

/// The magnitude of `n`.
pub open spec fn magnitude(n: int) -> int {
    if n >= 0 {
        n
    } else {
        -n
    }
}

/// `r` is the square root of `n`, rounded down.
pub open spec fn is_floor_sqrt(n: int, r: int) -> bool {
    0 <= r && r * r <= n < (r + 1) * (r + 1)
}

/// The square root of `n`, rounded down.
pub open spec fn floor_sqrt(n: int) -> int {
    choose|r: int| is_floor_sqrt(n, r)
}

/// At most one number is the rounded-down square root of `n`.
pub proof fn lemma_floor_sqrt_unique(n: int, a: int, b: int)
    requires
        is_floor_sqrt(n, a),
        is_floor_sqrt(n, b),
    ensures
        a == b,
{
    if a < b {
        assert((a + 1) * (a + 1) <= b * b) by (nonlinear_arith)
            requires
                0 <= a,
                a + 1 <= b,
        ;
    } else if b < a {
        assert((b + 1) * (b + 1) <= a * a) by (nonlinear_arith)
            requires
                0 <= b,
                b + 1 <= a,
        ;
    }
}

/// Every number from zero on has a rounded-down square root, and
/// `floor_sqrt` is it.
pub proof fn lemma_floor_sqrt(n: int)
    requires
        n >= 0,
    ensures
        is_floor_sqrt(n, floor_sqrt(n)),
    decreases n,
{
    if n == 0 {
        assert(is_floor_sqrt(0, 0));
    } else {
        lemma_floor_sqrt(n - 1);
        let r = floor_sqrt(n - 1);
        if n < (r + 1) * (r + 1) {
            assert(is_floor_sqrt(n, r));
        } else {
            assert((r + 2) * (r + 2) == (r + 1) * (r + 1) + 2 * r + 3) by (nonlinear_arith);
            assert(is_floor_sqrt(n, r + 1));
        }
    }
}

/// What `floor_sqrt` is of a number with a known root.
pub proof fn lemma_floor_sqrt_is(n: int, r: int)
    requires
        is_floor_sqrt(n, r),
    ensures
        floor_sqrt(n) == r,
{
    lemma_floor_sqrt_unique(n, floor_sqrt(n), r);
}

/// Computes the square root of `n`, rounded down.
pub fn isqrt(n: u128) -> (r: u128)
    ensures
        r == floor_sqrt(n as int),
        is_floor_sqrt(n as int, r as int),
        r <= 0xffff_ffff_ffff_ffff,
{
    let mut lo: u128 = 0;
    let mut hi: u128 = 0x1_0000_0000_0000_0000;
    assert(0x1_0000_0000_0000_0000int * 0x1_0000_0000_0000_0000int > n) by (nonlinear_arith)
        requires
            n <= u128::MAX,
    ;
    while hi - lo > 1
        invariant
            lo < hi <= 0x1_0000_0000_0000_0000,
            lo * lo <= n < hi * hi,
        decreases hi - lo,
    {
        let mid: u128 = lo + (hi - lo) / 2;
        assert(mid * mid <= 0xffff_ffff_ffff_ffff * 0xffff_ffff_ffff_ffff) by (nonlinear_arith)
            requires
                0 <= mid <= 0xffff_ffff_ffff_ffff,
        ;
        if mid * mid <= n {
            lo = mid;
        } else {
            hi = mid;
        }
    }
    proof {
        lemma_floor_sqrt_is(n as int, lo as int);
    }
    lo
}

/// Computes `n / d` rounded toward zero.
pub fn div_toward_zero(n: i128, d: i128) -> (q: i128)
    requires
        d > 0,
        n > i128::MIN,
    ensures
        q == trunc_div(n as int, d as int),
{
    if n >= 0 {
        n / d
    } else {
        -((-n) / d)
    }
}

/// Rounding toward zero never moves a quotient away from zero: the quotient
/// has the sign of `n`, and times `d` it is no further from zero than `n`.
pub proof fn lemma_trunc_div_bounds(n: int, d: int)
    requires
        d > 0,
    ensures
        n >= 0 ==> 0 <= trunc_div(n, d) * d <= n,
        n <= 0 ==> n <= trunc_div(n, d) * d <= 0,
        magnitude(trunc_div(n, d)) <= magnitude(n),
        n >= 0 ==> trunc_div(n, d) >= 0,
        n <= 0 ==> trunc_div(n, d) <= 0,
        magnitude(trunc_div(n, d)) * d <= magnitude(n),
        magnitude(n) < (magnitude(trunc_div(n, d)) + 1) * d,
{
    let m = magnitude(n);
    let q = m / d;
    assert(0 <= q * d <= m && q <= m && q >= 0 && m < (q + 1) * d) by (nonlinear_arith)
        requires
            q == m / d,
            m >= 0,
            d > 0,
    ;
    if n >= 0 {
        assert(trunc_div(n, d) == q);
    } else {
        assert(trunc_div(n, d) == -q);
        assert((-q) * d == -(q * d)) by (nonlinear_arith);
    }
}

/// A vector of the plane with whole-number coordinates: the mathematical
/// model of a `Vec2`.
pub struct Vector {
    pub x: int,
    pub y: int,
}

impl Vector {
    /// The zero vector.
    pub open spec fn zero() -> Vector {
        Vector { x: 0, y: 0 }
    }

    /// The square of the vector's length.
    pub open spec fn norm_sq(self) -> int {
        self.x * self.x + self.y * self.y
    }

    /// The vector's length, rounded down.
    pub open spec fn length(self) -> int {
        floor_sqrt(self.norm_sq())
    }

    /// The sum of two vectors.
    pub open spec fn plus(self, other: Vector) -> Vector {
        Vector { x: self.x + other.x, y: self.y + other.y }
    }

    /// The vector times `factor`.
    pub open spec fn times(self, factor: int) -> Vector {
        Vector { x: self.x * factor, y: self.y * factor }
    }

    /// The vector times `num / den`, each coordinate rounded toward zero.
    pub open spec fn scaled(self, num: int, den: int) -> Vector {
        Vector { x: trunc_div(self.x * num, den), y: trunc_div(self.y * num, den) }
    }

    /// The point `k / d` of the way from the vector to `target`, each
    /// coordinate rounded toward zero.
    pub open spec fn blend(self, target: Vector, k: int, d: int) -> Vector {
        Vector {
            x: trunc_div((d - k) * self.x + k * target.x, d),
            y: trunc_div((d - k) * self.y + k * target.y, d),
        }
    }

    /// The vector of length one (`SCALE`) that points where this one does,
    /// each coordinate rounded toward zero.
    pub open spec fn direction(self) -> Vector {
        Vector {
            x: unit_coordinate(self.x, self.norm_sq()),
            y: unit_coordinate(self.y, self.norm_sq()),
        }
    }

    /// The vector is no longer than one.
    pub open spec fn at_most_unit(self) -> bool {
        self.norm_sq() <= UNIT_SQ
    }

    /// The vector has length one as nearly as whole coordinates allow: it
    /// is no longer than one, and one step more in each coordinate would
    /// make it longer.
    pub open spec fn is_unit(self) -> bool {
        &&& self.at_most_unit()
        &&& (magnitude(self.x) + 1) * (magnitude(self.x) + 1) + (magnitude(self.y) + 1) * (
        magnitude(self.y) + 1) > UNIT_SQ
    }

    /// Both coordinates are within `bound` of zero.
    pub open spec fn within(self, bound: int) -> bool {
        &&& -bound <= self.x <= bound
        &&& -bound <= self.y <= bound
    }
}

/// The coordinate `c` of a vector whose squared length is `n`, once the
/// vector is brought to length one.
pub open spec fn unit_coordinate(c: int, n: int) -> int {
    let r = floor_sqrt((c * c * UNIT_SQ) / n);
    if c >= 0 {
        r
    } else {
        -r
    }
}

/// A vector of the plane in fixed-point coordinates.
#[derive(Clone, Copy, Debug, PartialEq, Eq, Structural)]
pub struct Vec2 {
    pub x: i64,
    pub y: i64,
}

impl View for Vec2 {
    type V = Vector;

    open spec fn view(&self) -> Vector {
        Vector { x: self.x as int, y: self.y as int }
    }
}

impl Vec2 {
    /// The vector with the given coordinates.
    pub fn new(x: i64, y: i64) -> (v: Vec2)
        ensures
            v.x == x,
            v.y == y,
    {
        Vec2 { x, y }
    }

    /// The zero vector.
    pub fn zero() -> (v: Vec2)
        ensures
            v@ == Vector::zero(),
    {
        Vec2 { x: 0, y: 0 }
    }

    /// The vector of length one along the first axis.
    pub fn unit_x() -> (v: Vec2)
        ensures
            v.x == SCALE,
            v.y == 0,
            v@.is_unit(),
    {
        proof {
            lemma_axis_is_unit();
        }
        Vec2 { x: SCALE, y: 0 }
    }

    /// The first coordinate.
    pub fn x(&self) -> (r: i64)
        ensures
            r == self.x,
    {
        self.x
    }

    /// The second coordinate.
    pub fn y(&self) -> (r: i64)
        ensures
            r == self.y,
    {
        self.y
    }

    /// Whether this is the zero vector.
    pub fn is_zero(&self) -> (r: bool)
        ensures
            r == (self@ == Vector::zero()),
    {
        self.x == 0 && self.y == 0
    }

    /// The square of the vector's length.
    pub fn norm_sq(&self) -> (r: i128)
        requires
            self@.within(0x4000_0000_0000_0000),
        ensures
            r == self@.norm_sq(),
            r >= 0,
    {
        let x: i128 = self.x as i128;
        let y: i128 = self.y as i128;
        assert(0 <= x * x <= 0x4000_0000_0000_0000 * 0x4000_0000_0000_0000) by (nonlinear_arith)
            requires
                -0x4000_0000_0000_0000 <= x <= 0x4000_0000_0000_0000,
        ;
        assert(0 <= y * y <= 0x4000_0000_0000_0000 * 0x4000_0000_0000_0000) by (nonlinear_arith)
            requires
                -0x4000_0000_0000_0000 <= y <= 0x4000_0000_0000_0000,
        ;
        x * x + y * y
    }

    /// Whether the vector is no longer than one.
    pub fn is_at_most_unit(&self) -> (r: bool)
        ensures
            r == self@.at_most_unit(),
    {
        if self.x < -SCALE || self.x > SCALE || self.y < -SCALE || self.y > SCALE {
            proof {
                lemma_long_coordinate(self@, SCALE as int);
            }
            false
        } else {
            self.norm_sq() <= UNIT_SQ as i128
        }
    }

    /// The sum of two vectors.
    pub fn plus(self, other: Vec2) -> (r: Vec2)
        requires
            i64::MIN <= self.x + other.x <= i64::MAX,
            i64::MIN <= self.y + other.y <= i64::MAX,
        ensures
            r@ == self@.plus(other@),
    {
        Vec2 { x: self.x + other.x, y: self.y + other.y }
    }

    /// The vector times `factor`.
    pub fn times(self, factor: i64) -> (r: Vec2)
        requires
            i64::MIN <= self.x * factor <= i64::MAX,
            i64::MIN <= self.y * factor <= i64::MAX,
        ensures
            r@ == self@.times(factor as int),
    {
        Vec2 { x: self.x * factor, y: self.y * factor }
    }

    /// The vector over `den`, each coordinate rounded toward zero.
    pub fn over(self, den: i64) -> (r: Vec2)
        requires
            den > 0,
            self.x > i64::MIN,
            self.y > i64::MIN,
        ensures
            r@ == self@.scaled(1, den as int),
    {
        proof {
            lemma_trunc_div_bounds(self.x as int, den as int);
            lemma_trunc_div_bounds(self.y as int, den as int);
            assert(self.x * 1 == self.x && self.y * 1 == self.y);
        }
        let x: i128 = div_toward_zero(self.x as i128, den as i128);
        let y: i128 = div_toward_zero(self.y as i128, den as i128);
        Vec2 { x: x as i64, y: y as i64 }
    }

    /// The vector times `num / den`, each coordinate rounded toward zero.
    pub fn scaled(self, num: i64, den: i64) -> (r: Vec2)
        requires
            den > 0,
            self@.within(den as int),
            num > i64::MIN,
        ensures
            r@ == self@.scaled(num as int, den as int),
            r@.within(magnitude(num as int)),
    {
        proof {
            lemma_scale_coordinate(self.x as int, num as int, den as int);
            lemma_scale_coordinate(self.y as int, num as int, den as int);
            lemma_product_fits(self.x as int, num as int);
            lemma_product_fits(self.y as int, num as int);
        }
        let x: i128 = div_toward_zero((self.x as i128) * (num as i128), den as i128);
        let y: i128 = div_toward_zero((self.y as i128) * (num as i128), den as i128);
        Vec2 { x: x as i64, y: y as i64 }
    }

    /// The vector's length, rounded down.
    pub fn length(&self) -> (r: i64)
        requires
            self@.within(REACH as int),
        ensures
            r == self@.length(),
            0 <= r,
            r * r <= self@.norm_sq(),
            r <= 2 * REACH,
    {
        let n: i128 = self.norm_sq();
        assert(n <= 2 * (1_000_000_000_000_000 * 1_000_000_000_000_000)) by (nonlinear_arith)
            requires
                n == self.x * self.x + self.y * self.y,
                -1_000_000_000_000_000 <= self.x <= 1_000_000_000_000_000,
                -1_000_000_000_000_000 <= self.y <= 1_000_000_000_000_000,
        ;
        let r: u128 = isqrt(n as u128);
        assert(r <= 2_000_000_000_000_000) by (nonlinear_arith)
            requires
                r * r <= n,
                n <= 2 * (1_000_000_000_000_000 * 1_000_000_000_000_000),
        ;
        r as i64
    }

    /// The point `k / d` of the way from the vector to `target`, each
    /// coordinate rounded toward zero.
    pub fn blend(self, target: Vec2, k: u32, d: u32) -> (r: Vec2)
        requires
            0 < d,
            k <= d,
            self@.within(REACH as int),
            target@.within(REACH as int),
        ensures
            r@ == self@.blend(target@, k as int, d as int),
            r@.within(REACH as int),
    {
        proof {
            lemma_blend_coordinate(self.x as int, target.x as int, k as int, d as int, REACH as int);
            lemma_blend_coordinate(self.y as int, target.y as int, k as int, d as int, REACH as int);
        }
        let rest: i128 = (d - k) as i128;
        let step: i128 = k as i128;
        proof {
            lemma_small_product(rest as int, self.x as int);
            lemma_small_product(rest as int, self.y as int);
            lemma_small_product(step as int, target.x as int);
            lemma_small_product(step as int, target.y as int);
        }
        let x: i128 = div_toward_zero(
            rest * (self.x as i128) + step * (target.x as i128),
            d as i128,
        );
        let y: i128 = div_toward_zero(
            rest * (self.y as i128) + step * (target.y as i128),
            d as i128,
        );
        Vec2 { x: x as i64, y: y as i64 }
    }

    /// The vector of length one that points where this one does; the zero
    /// vector has no direction.
    pub fn direction(self) -> (r: Vec2)
        requires
            self@.within(REACH as int),
            self@ != Vector::zero(),
        ensures
            r@ == self@.direction(),
            r@.is_unit(),
    {
        proof {
            lemma_nonzero_norm(self@);
            lemma_direction_is_unit(self@);
        }
        let n: i128 = self.norm_sq();
        let x: i64 = unit_coordinate_of(self.x, n);
        let y: i64 = unit_coordinate_of(self.y, n);
        Vec2 { x, y }
    }
}

/// The vector of length one along the first axis is a unit vector.
pub proof fn lemma_axis_is_unit()
    ensures
        (Vector { x: SCALE as int, y: 0 }).is_unit(),
{
    let v = Vector { x: SCALE as int, y: 0 };
    let a = magnitude(v.x) + 1;
    let b = magnitude(v.y) + 1;
    assert(v.x * v.x + v.y * v.y == 1_000_000) by (nonlinear_arith)
        requires
            v.x == 1000,
            v.y == 0,
    ;
    assert(a * a + b * b > 1_000_000) by (nonlinear_arith)
        requires
            a == 1001,
            b == 1,
    ;
}

/// A vector with a coordinate further than `m` from zero is longer than `m`.
pub proof fn lemma_long_coordinate(v: Vector, m: int)
    requires
        m >= 0,
        !v.within(m),
    ensures
        v.norm_sq() > m * m,
{
    assert(v.x * v.x + v.y * v.y > m * m) by (nonlinear_arith)
        requires
            m >= 0,
            v.x < -m || v.x > m || v.y < -m || v.y > m,
    ;
}

/// Computes one coordinate of the unit vector along a vector with
/// coordinate `c` and squared length `n`.
fn unit_coordinate_of(c: i64, n: i128) -> (r: i64)
    requires
        -REACH <= c <= REACH,
        n >= c * c,
        n > 0,
    ensures
        r == unit_coordinate(c as int, n as int),
        -SCALE <= r <= SCALE,
{
    let c_wide: i128 = c as i128;
    assert(0 <= c_wide * c_wide <= 1_000_000_000_000_000 * 1_000_000_000_000_000)
        by (nonlinear_arith)
        requires
            -1_000_000_000_000_000 <= c_wide <= 1_000_000_000_000_000,
    ;
    let square: i128 = c_wide * c_wide;
    let ratio: i128 = (square * (UNIT_SQ as i128)) / n;
    assert(0 <= ratio <= 1_000_000) by (nonlinear_arith)
        requires
            ratio == (square * 1_000_000) / (n as int),
            0 <= square <= n,
            n > 0,
    ;
    let root: u128 = isqrt(ratio as u128);
    assert(root <= 1000) by (nonlinear_arith)
        requires
            root * root <= ratio,
            ratio <= 1_000_000,
    ;
    if c >= 0 {
        root as i64
    } else {
        -(root as i64)
    }
}

/// A product of two numbers that fit in 64 bits fits in 127.
proof fn lemma_product_fits(a: int, b: int)
    requires
        -0x8000_0000_0000_0000 <= a <= 0x8000_0000_0000_0000,
        -0x8000_0000_0000_0000 <= b <= 0x8000_0000_0000_0000,
    ensures
        -0x4000_0000_0000_0000_0000_0000_0000_0000 <= a * b
            <= 0x4000_0000_0000_0000_0000_0000_0000_0000,
{
    assert(-0x4000_0000_0000_0000_0000_0000_0000_0000 <= a * b
        <= 0x4000_0000_0000_0000_0000_0000_0000_0000) by (nonlinear_arith)
        requires
            -0x8000_0000_0000_0000 <= a <= 0x8000_0000_0000_0000,
            -0x8000_0000_0000_0000 <= b <= 0x8000_0000_0000_0000,
    ;
}

/// A product of a 32-bit count and a coordinate within `REACH` of zero
/// stays far inside 127 bits.
proof fn lemma_small_product(a: int, b: int)
    requires
        0 <= a <= 0xffff_ffff,
        -REACH <= b <= REACH,
    ensures
        -0xffff_ffff * 1_000_000_000_000_000 <= a * b <= 0xffff_ffff * 1_000_000_000_000_000,
{
    assert(-0xffff_ffff * 1_000_000_000_000_000 <= a * b <= 0xffff_ffff * 1_000_000_000_000_000)
        by (nonlinear_arith)
        requires
            0 <= a <= 0xffff_ffff,
            -1_000_000_000_000_000 <= b <= 1_000_000_000_000_000,
    ;
}

/// The square of a weighted sum, written out.
proof fn lemma_square_of_sum(a: int, x: int, k: int, w: int)
    ensures
        (a * x + k * w) * (a * x + k * w) == (a * a) * (x * x) + (a * k) * (2 * (x * w)) + (k * k)
            * (w * w),
{
    let p = a * x;
    let q = k * w;
    assert((p + q) * (p + q) == p * p + 2 * (p * q) + q * q) by (nonlinear_arith);
    lemma_magnitude_of_product(a, x);
    lemma_magnitude_of_product(k, w);
    assert((a * x) * (k * w) == (a * k) * (x * w)) by (nonlinear_arith);
    let c = a * k;
    let e = x * w;
    assert(c * (2 * e) == 2 * (c * e)) by (nonlinear_arith);
}

/// The magnitude of a product is the product of the magnitudes.
proof fn lemma_magnitude_of_product(a: int, b: int)
    ensures
        magnitude(a * b) == magnitude(a) * magnitude(b),
        (a * b) * (a * b) == (a * a) * (b * b),
        magnitude(a) * magnitude(a) == a * a,
{
    assert(magnitude(a * b) == magnitude(a) * magnitude(b)) by (nonlinear_arith)
        requires
            magnitude(a) == (if a >= 0 { a } else { -a }),
            magnitude(b) == (if b >= 0 { b } else { -b }),
            magnitude(a * b) == (if a * b >= 0 { a * b } else { -(a * b) }),
    ;
    assert((a * b) * (a * b) == (a * a) * (b * b)) by (nonlinear_arith);
    assert(magnitude(a) * magnitude(a) == a * a) by (nonlinear_arith)
        requires
            magnitude(a) == (if a >= 0 { a } else { -a }),
    ;
}

/// Scaling a coordinate that is within `den` of zero by `num / den` gives
/// one within `num` of zero, and never lengthens it beyond the exact
/// quotient.
proof fn lemma_scale_coordinate(x: int, num: int, den: int)
    requires
        den > 0,
    ensures
        -den <= x <= den ==> magnitude(trunc_div(x * num, den)) <= magnitude(num),
        trunc_div(x * num, den) * trunc_div(x * num, den) * (den * den) <= (x * x) * (num * num),
{
    let n = x * num;
    let t = trunc_div(n, den);
    let mt = magnitude(t);
    let mn = magnitude(n);
    let mx = magnitude(x);
    let mnum = magnitude(num);
    lemma_trunc_div_bounds(n, den);
    lemma_magnitude_of_product(x, num);
    lemma_magnitude_of_product(t, t);
    lemma_magnitude_of_product(n, n);
    if -den <= x <= den {
        assert(mt <= mnum) by (nonlinear_arith)
            requires
                mt * den <= mx * mnum,
                0 <= mx <= den,
                mnum >= 0,
                mt >= 0,
                den > 0,
        ;
    }
    assert((mt * mt) * (den * den) <= mn * mn) by (nonlinear_arith)
        requires
            0 <= mt * den <= mn,
            mt >= 0,
            den > 0,
    ;
}

/// Scaling by `num / den` never lengthens a vector beyond the exact
/// quotient.
pub proof fn lemma_scaled_norm(v: Vector, num: int, den: int)
    requires
        den > 0,
    ensures
        v.scaled(num, den).norm_sq() * (den * den) <= v.norm_sq() * (num * num),
{
    let r = v.scaled(num, den);
    lemma_scale_coordinate(v.x, num, den);
    lemma_scale_coordinate(v.y, num, den);
    let d2 = den * den;
    let n2 = num * num;
    assert((r.x * r.x + r.y * r.y) * d2 <= (v.x * v.x + v.y * v.y) * n2) by (nonlinear_arith)
        requires
            r.x * r.x * d2 <= (v.x * v.x) * n2,
            r.y * r.y * d2 <= (v.y * v.y) * n2,
    ;
}

/// A vector no longer than `s`, scaled by `m / s`, is no longer than `m`.
pub proof fn lemma_scaled_no_longer(v: Vector, m: int, s: int)
    requires
        s > 0,
        v.norm_sq() <= s * s,
    ensures
        v.scaled(m, s).norm_sq() <= m * m,
{
    lemma_scaled_norm(v, m, s);
    let r = v.scaled(m, s).norm_sq();
    let n = v.norm_sq();
    let s2 = s * s;
    let m2 = m * m;
    assert(s2 > 0 && m2 >= 0) by (nonlinear_arith)
        requires
            s > 0,
            s2 == s * s,
            m2 == m * m,
    ;
    assert(r <= m2) by (nonlinear_arith)
        requires
            r * s2 <= n * m2,
            n <= s2,
            s2 > 0,
            m2 >= 0,
    ;
}

/// A blend of two coordinates within `m` of zero is within `m` of zero,
/// and never lies beyond the exact blend.
proof fn lemma_blend_coordinate(x: int, w: int, k: int, d: int, m: int)
    requires
        d > 0,
        0 <= k <= d,
    ensures
        -m <= x <= m && -m <= w <= m ==> -m <= trunc_div((d - k) * x + k * w, d) <= m,
        trunc_div((d - k) * x + k * w, d) * trunc_div((d - k) * x + k * w, d) * (d * d) <= ((d - k)
            * x + k * w) * ((d - k) * x + k * w),
{
    let n = (d - k) * x + k * w;
    let t = trunc_div(n, d);
    let mt = magnitude(t);
    let mn = magnitude(n);
    lemma_trunc_div_bounds(n, d);
    lemma_magnitude_of_product(t, t);
    lemma_magnitude_of_product(n, n);
    if -m <= x <= m && -m <= w <= m {
        assert(-(d * m) <= n <= d * m) by (nonlinear_arith)
            requires
                n == (d - k) * x + k * w,
                0 <= k <= d,
                -m <= x <= m,
                -m <= w <= m,
        ;
        assert(mt <= m) by (nonlinear_arith)
            requires
                mt * d <= mn,
                mn <= d * m,
                d > 0,
                mt >= 0,
        ;
    }
    assert((mt * mt) * (d * d) <= mn * mn) by (nonlinear_arith)
        requires
            0 <= mt * d <= mn,
            mt >= 0,
            d > 0,
    ;
}

/// A blend of two vectors is no longer than the longer of them: where both
/// have a squared length of at most `q`, so has the blend.
pub proof fn lemma_blend_no_longer(v: Vector, w: Vector, k: int, d: int, q: int)
    requires
        d > 0,
        0 <= k <= d,
        v.norm_sq() <= q,
        w.norm_sq() <= q,
    ensures
        v.blend(w, k, d).norm_sq() <= q,
{
    let a = d - k;
    let u = v.blend(w, k, d);
    let nx = a * v.x + k * w.x;
    let ny = a * v.y + k * w.y;
    let nv = v.norm_sq();
    let nw = w.norm_sq();
    let dot = v.x * w.x + v.y * w.y;
    lemma_blend_coordinate(v.x, w.x, k, d, 0);
    lemma_blend_coordinate(v.y, w.y, k, d, 0);
    let d2 = d * d;
    lemma_square_of_sum(a, v.x, k, w.x);
    lemma_square_of_sum(a, v.y, k, w.y);
    let aa = a * a;
    let ak = a * k;
    let kk = k * k;
    assert(aa * (v.x * v.x) + aa * (v.y * v.y) == aa * nv) by (nonlinear_arith)
        requires
            nv == v.x * v.x + v.y * v.y,
    ;
    assert(kk * (w.x * w.x) + kk * (w.y * w.y) == kk * nw) by (nonlinear_arith)
        requires
            nw == w.x * w.x + w.y * w.y,
    ;
    assert(ak * (2 * (v.x * w.x)) + ak * (2 * (v.y * w.y)) == ak * (2 * dot)) by (nonlinear_arith)
        requires
            dot == v.x * w.x + v.y * w.y,
    ;
    assert(nx * nx + ny * ny == aa * nv + ak * (2 * dot) + kk * nw);
    assert(2 * dot <= nv + nw) by (nonlinear_arith)
        requires
            nv == v.x * v.x + v.y * v.y,
            nw == w.x * w.x + w.y * w.y,
            dot == v.x * w.x + v.y * w.y,
    ;
    assert((a * a) * nv <= (a * a) * q) by (nonlinear_arith)
        requires
            nv <= q,
    ;
    assert((k * k) * nw <= (k * k) * q) by (nonlinear_arith)
        requires
            nw <= q,
    ;
    assert((a * k) * (2 * dot) <= (a * k) * (2 * q)) by (nonlinear_arith)
        requires
            2 * dot <= 2 * q,
            a >= 0,
            k >= 0,
    ;
    assert((a * a) * q + (a * k) * (2 * q) + (k * k) * q == d2 * q) by (nonlinear_arith)
        requires
            d == a + k,
            d2 == d * d,
    ;
    let un = u.norm_sq();
    assert(un * d2 <= nx * nx + ny * ny) by (nonlinear_arith)
        requires
            un == u.x * u.x + u.y * u.y,
            u.x * u.x * d2 <= nx * nx,
            u.y * u.y * d2 <= ny * ny,
    ;
    assert(un <= q) by (nonlinear_arith)
        requires
            un * d2 <= d2 * q,
            d2 == d * d,
            d > 0,
    ;
}

/// Only the zero vector has length zero.
pub proof fn lemma_nonzero_norm(v: Vector)
    ensures
        v.norm_sq() >= 0,
        v.norm_sq() >= v.x * v.x,
        v.norm_sq() >= v.y * v.y,
        v != Vector::zero() ==> v.norm_sq() > 0,
        v == Vector::zero() ==> v.norm_sq() == 0,
{
    assert(v.x * v.x >= 0 && (v.x != 0 ==> v.x * v.x > 0)) by (nonlinear_arith);
    assert(v.y * v.y >= 0 && (v.y != 0 ==> v.y * v.y > 0)) by (nonlinear_arith);
}

/// The coordinate of a direction, squared and held against the exact
/// quotient from both sides.
proof fn lemma_unit_coordinate(c: int, n: int)
    requires
        n > 0,
    ensures
        ({
            let r = magnitude(unit_coordinate(c, n));
            r * r * n <= (c * c) * UNIT_SQ < (r + 1) * (r + 1) * n
        }),
{
    let sq = c * c;
    assert(sq >= 0) by (nonlinear_arith)
        requires
            sq == c * c,
    ;
    let f = (sq * UNIT_SQ) / n;
    assert(0 <= f && f * n <= sq * 1_000_000 < (f + 1) * n) by (nonlinear_arith)
        requires
            f == (sq * 1_000_000) / n,
            sq >= 0,
            n > 0,
    ;
    lemma_floor_sqrt(f);
    let r = floor_sqrt(f);
    assert(magnitude(unit_coordinate(c, n)) == r);
    assert(r * r * n <= f * n) by (nonlinear_arith)
        requires
            r * r <= f,
            n > 0,
    ;
    assert((f + 1) * n <= (r + 1) * (r + 1) * n) by (nonlinear_arith)
        requires
            f + 1 <= (r + 1) * (r + 1),
            n > 0,
    ;
}

/// The direction of a vector other than zero is a unit vector.
pub proof fn lemma_direction_is_unit(v: Vector)
    requires
        v != Vector::zero(),
    ensures
        v.direction().is_unit(),
{
    lemma_nonzero_norm(v);
    let n = v.norm_sq();
    let h = v.direction();
    lemma_unit_coordinate(v.x, n);
    lemma_unit_coordinate(v.y, n);
    let p = magnitude(h.x);
    let q = magnitude(h.y);
    lemma_magnitude_of_product(h.x, h.x);
    lemma_magnitude_of_product(h.y, h.y);
    let sx = v.x * v.x;
    let sy = v.y * v.y;
    assert(p * p + q * q <= 1_000_000) by (nonlinear_arith)
        requires
            p * p * n <= sx * 1_000_000,
            q * q * n <= sy * 1_000_000,
            n == sx + sy,
            n > 0,
    ;
    assert((p + 1) * (p + 1) + (q + 1) * (q + 1) > 1_000_000) by (nonlinear_arith)
        requires
            sx * 1_000_000 < (p + 1) * (p + 1) * n,
            sy * 1_000_000 < (q + 1) * (q + 1) * n,
            n == sx + sy,
            n > 0,
    ;
}

/// A vector times a factor is longer by that factor, exactly.
pub proof fn lemma_times_norm(v: Vector, factor: int)
    ensures
        v.times(factor).norm_sq() == v.norm_sq() * (factor * factor),
{
    lemma_magnitude_of_product(v.x, factor);
    lemma_magnitude_of_product(v.y, factor);
    let f2 = factor * factor;
    assert((v.x * v.x) * f2 + (v.y * v.y) * f2 == (v.x * v.x + v.y * v.y) * f2)
        by (nonlinear_arith);
}

/// A vector times a positive factor, over that factor, is the vector.
pub proof fn lemma_times_over(v: Vector, factor: int)
    requires
        factor > 0,
    ensures
        v.times(factor).scaled(1, factor) == v,
{
    lemma_product_over(v.x, factor);
    lemma_product_over(v.y, factor);
}

/// A product over one of its factors, rounded toward zero, is the other.
proof fn lemma_product_over(x: int, factor: int)
    requires
        factor > 0,
    ensures
        trunc_div((x * factor) * 1, factor) == x,
{
    let m = magnitude(x);
    assert((m * factor) / factor == m) by (nonlinear_arith)
        requires
            m >= 0,
            factor > 0,
    ;
    if x >= 0 {
        assert(x * factor >= 0) by (nonlinear_arith)
            requires
                x >= 0,
                factor > 0,
        ;
    } else {
        assert(x * factor < 0 && -(x * factor) == m * factor) by (nonlinear_arith)
            requires
                x < 0,
                m == -x,
                factor > 0,
        ;
    }
}

} // verus!
