//! Fixed-point scalars and the integer arithmetic the engine is built on.
//!
//! A scalar is a signed 64-bit count of thousandths: the raw value `1500`
//! stands for `1.5`. Products and quotients are carried out in 128 bits; a
//! quotient rounds towards zero ([`trunc_div`]) or away from it
//! ([`away_div`]), as its name says.

use vstd::prelude::*;
use vstd::arithmetic::div_mod::lemma_fundamental_div_mod_converse;

verus! {

/// A length or a velocity component, in thousandths.
pub type Coord = i64;

/// A duration, in thousandths of a time unit.
pub type Time = i64;

/// An amount of health, in thousandths.
pub type Hp = i64;

/// The raw value that stands for `1`.
pub const SCALE: i64 = 1000;

/// A two-dimensional vector of fixed-point scalars.
#[derive(Clone, Copy, Debug, PartialEq, Eq, Structural)]
pub struct Vec2 {
    pub x: Coord,
    pub y: Coord,
}

pub type Position = Vec2;

pub type Velocity = Vec2;

/// A point or a displacement with unbounded integer components.
pub ghost struct Point {
    pub x: int,
    pub y: int,
}

/// The point with the components `x` and `y`.
pub open spec fn point(x: int, y: int) -> Point {
    Point { x, y }
}

/// The components of `v` as unbounded integers.
pub open spec fn point_of(v: Vec2) -> Point {
    Point { x: v.x as int, y: v.y as int }
}

/// The displacement that leads from `from` to `to`.
pub open spec fn displacement(from: Point, to: Point) -> Point {
    Point { x: to.x - from.x, y: to.y - from.y }
}

/// The point that the displacement `by` leads to from `from`.
pub open spec fn displaced(from: Point, by: Point) -> Point {
    Point { x: from.x + by.x, y: from.y + by.y }
}

/// The absolute value of `x`.
pub open spec fn magnitude(x: int) -> int {
    if x < 0 {
        -x
    } else {
        x
    }
}

/// `x` lies between `-limit` and `limit`.
pub open spec fn within(x: int, limit: int) -> bool {
    -limit <= x <= limit
}

/// The sign of `x` as `-1` or `1`; zero counts as positive.
pub open spec fn signum(x: int) -> int {
    if x < 0 {
        -1
    } else {
        1
    }
}

/// The quotient of `a` by `b` rounded towards zero.
pub open spec fn trunc_div(a: int, b: int) -> int
    recommends
        b != 0,
{
    if a >= 0 {
        if b > 0 {
            a / b
        } else {
            -(a / (-b))
        }
    } else {
        if b > 0 {
            -((-a) / b)
        } else {
            (-a) / (-b)
        }
    }
}

/// The quotient of `a` by a positive `b` rounded away from zero.
pub open spec fn away_div(a: int, b: int) -> int
    recommends
        b > 0,
{
    if a >= 0 {
        (a + b - 1) / b
    } else {
        -((-a + b - 1) / b)
    }
}

/// `r` is the integer square root of `n`: the largest number whose square
/// does not exceed `n`.
pub open spec fn is_sqrt_floor(n: nat, r: nat) -> bool {
    r * r <= n < r * r + 2 * r + 1
}

/// The integer square root of `n`.
pub open spec fn sqrt_floor(n: nat) -> nat {
    choose|r: nat| is_sqrt_floor(n, r)
}

/// Every number has an integer square root.
pub proof fn lemma_sqrt_floor_exists(n: nat)
    ensures
        is_sqrt_floor(n, sqrt_floor(n)),
    decreases n,
{
    if n == 0 {
        assert(is_sqrt_floor(0, 0));
    } else {
        lemma_sqrt_floor_exists((n - 1) as nat);
        let r = sqrt_floor((n - 1) as nat);
        if n < r * r + 2 * r + 1 {
            assert(is_sqrt_floor(n, r));
        } else {
            assert((r + 1) * (r + 1) == r * r + 2 * r + 1) by (nonlinear_arith);
            assert(is_sqrt_floor(n, r + 1));
        }
    }
}

/// The integer square root is unique.
pub proof fn lemma_sqrt_floor_unique(n: nat, r: nat)
    requires
        is_sqrt_floor(n, r),
    ensures
        sqrt_floor(n) == r,
{
    let c = sqrt_floor(n);
    assert(is_sqrt_floor(n, c));
    assert(c == r) by (nonlinear_arith)
        requires
            r * r <= n < r * r + 2 * r + 1,
            c * c <= n < c * c + 2 * c + 1,
    ;
}

/// The integer square root never decreases as its argument grows.
pub proof fn lemma_sqrt_floor_monotonic(a: nat, b: nat)
    requires
        a <= b,
    ensures
        sqrt_floor(a) <= sqrt_floor(b),
{
    lemma_sqrt_floor_exists(a);
    lemma_sqrt_floor_exists(b);
    let p = sqrt_floor(a);
    let q = sqrt_floor(b);
    assert(p <= q) by (nonlinear_arith)
        requires
            a <= b,
            p * p <= a,
            b < q * q + 2 * q + 1,
    ;
}

/// The integer square root of a perfect square is its root.
pub proof fn lemma_sqrt_floor_of_square(r: nat)
    ensures
        sqrt_floor(r * r) == r,
{
    lemma_sqrt_floor_unique(r * r, r);
}

/// A product is bounded by the product of the bounds of its factors.
pub proof fn lemma_product_within(a: int, b: int, limit_a: int, limit_b: int)
    by (nonlinear_arith)
    requires
        within(a, limit_a),
        within(b, limit_b),
    ensures
        within(a * b, limit_a * limit_b),
{
}

/// Truncating division by a positive divisor: the quotient has the sign of
/// the dividend, and its magnitude is the floor of the magnitudes' quotient.
pub proof fn lemma_trunc_div_by_positive(a: int, z: int)
    requires
        z > 0,
    ensures
        magnitude(trunc_div(a, z)) * z <= magnitude(a) < (magnitude(trunc_div(a, z)) + 1) * z,
        -z < a - trunc_div(a, z) * z < z,
        a >= 0 ==> trunc_div(a, z) >= 0,
        a <= 0 ==> trunc_div(a, z) <= 0,
        a >= 0 ==> trunc_div(a, z) == a / z,
{
    let p = magnitude(a);
    let q = p / z;
    assert(p == z * q + p % z && 0 <= p % z < z) by (nonlinear_arith)
        requires
            z > 0,
            q == p / z,
    ;
    assert(0 <= q && q * z == z * q && (q + 1) * z == z * q + z) by (nonlinear_arith)
        requires
            z > 0,
            p >= 0,
            p == z * q + p % z,
            p % z < z,
    ;
    assert(trunc_div(a, z) == q || trunc_div(a, z) == -q);
    assert((-q) * z == -(q * z)) by (nonlinear_arith);
}

/// Division by a positive divisor that rounds away from zero: the quotient
/// has the sign of the dividend, vanishes only with it, and its magnitude is
/// the magnitudes' quotient rounded up.
pub proof fn lemma_away_div_by_positive(a: int, z: int)
    requires
        z > 0,
    ensures
        magnitude(a) <= magnitude(away_div(a, z)) * z < magnitude(a) + z,
        -z < a - away_div(a, z) * z < z,
        a > 0 ==> away_div(a, z) >= 1,
        a < 0 ==> away_div(a, z) <= -1,
        a == 0 ==> away_div(a, z) == 0,
{
    let p = magnitude(a);
    lemma_round_up(p, z);
    let m = (p + z - 1) / z;
    assert(away_div(a, z) == m || away_div(a, z) == -m);
    assert((-m) * z == -(m * z)) by (nonlinear_arith);
}

/// The quotient `(p + z - 1) / z` is `p / z` rounded up.
proof fn lemma_round_up(p: int, z: int)
    requires
        p >= 0,
        z > 0,
    ensures
        p <= ((p + z - 1) / z) * z < p + z,
        (p + z - 1) / z >= 0,
        p > 0 ==> (p + z - 1) / z >= 1,
        p % z == 0 ==> (p + z - 1) / z == p / z,
        p % z != 0 ==> (p + z - 1) / z == p / z + 1,
{
    let q = p / z;
    let rem = p % z;
    assert(p == z * q + rem && 0 <= rem < z && q >= 0) by (nonlinear_arith)
        requires
            z > 0,
            p >= 0,
            q == p / z,
            rem == p % z,
    ;
    if rem == 0 {
        assert(p + z - 1 == q * z + (z - 1)) by (nonlinear_arith)
            requires
                p == z * q,
        ;
        lemma_fundamental_div_mod_converse(p + z - 1, z, q, z - 1);
        assert(q * z == p) by (nonlinear_arith)
            requires
                p == z * q,
        ;
        if p > 0 {
            assert(q >= 1) by (nonlinear_arith)
                requires
                    p == z * q,
                    p > 0,
                    q >= 0,
                    z > 0,
            ;
        }
    } else {
        assert(p + z - 1 == (q + 1) * z + (rem - 1)) by (nonlinear_arith)
            requires
                p == z * q + rem,
        ;
        lemma_fundamental_div_mod_converse(p + z - 1, z, q + 1, rem - 1);
        assert((q + 1) * z == p - rem + z) by (nonlinear_arith)
            requires
                p == z * q + rem,
        ;
    }
}

/// Divides `a` by the positive `b`, rounding away from zero.
pub fn div_away(a: i128, b: i128) -> (q: i128)
    requires
        b > 0,
        a > i128::MIN,
    ensures
        q == away_div(a as int, b as int),
{
    let p: u128 = if a < 0 {
        (-a) as u128
    } else {
        a as u128
    };
    let d: u128 = b as u128;
    proof {
        lemma_round_up(p as int, d as int);
        assert(p / d <= p) by (nonlinear_arith)
            requires
                d > 0,
                p >= 0,
        ;
        assert((p + d - 1) / (d as int) <= p) by (nonlinear_arith)
            requires
                ((p + d - 1) / (d as int)) * d < p + d,
                (p + d - 1) / (d as int) >= 0,
                d >= 1,
                p >= 0,
        ;
    }
    let m: u128 = if p % d == 0 {
        p / d
    } else {
        p / d + 1
    };
    if a < 0 {
        -(m as i128)
    } else {
        m as i128
    }
}

/// Divides `a` by `b`, rounding towards zero.
pub fn div_trunc(a: i128, b: i128) -> (q: i128)
    requires
        b != 0,
        a > i128::MIN,
    ensures
        q == trunc_div(a as int, b as int),
{
    let p: u128 = if a < 0 { (-a) as u128 } else { a as u128 };
    let d: u128 = if b < 0 { ((-(b + 1)) as u128) + 1 } else { b as u128 };
    let q: u128 = p / d;
    assert(q <= p) by (nonlinear_arith)
        requires
            d > 0,
            q == p / d,
    ;
    if (a < 0) == (b < 0) {
        q as i128
    } else {
        -(q as i128)
    }
}

/// Computes the integer square root of `n` by bisection.
pub fn isqrt(n: u128) -> (r: u64)
    ensures
        r == sqrt_floor(n as nat),
        is_sqrt_floor(n as nat, r as nat),
{
    let mut lo: u128 = 0;
    let mut hi: u128 = 0x1_0000_0000_0000_0000;
    assert(0x1_0000_0000_0000_0000int * 0x1_0000_0000_0000_0000int
        == 0x1_0000_0000_0000_0000_0000_0000_0000_0000int) by (nonlinear_arith);
    while hi - lo > 1
        invariant
            lo < hi <= 0x1_0000_0000_0000_0000,
            lo * lo <= n,
            n < hi * hi,
        decreases hi - lo,
    {
        let mid: u128 = lo + (hi - lo) / 2;
        assert(mid * mid <= 0xffff_ffff_ffff_ffff * 0xffff_ffff_ffff_ffff) by (nonlinear_arith)
            requires
                0 <= mid <= 0xffff_ffff_ffff_ffff,
        ;
        if mid * mid <= n {
            lo = mid;
        } else {
            hi = mid;
        }
    }
    proof {
        assert(hi * hi == lo * lo + 2 * lo + 1) by (nonlinear_arith)
            requires
                hi == lo + 1,
        ;
        lemma_sqrt_floor_unique(n as nat, lo as nat);
    }
    lo as u64
}

} // verus!
