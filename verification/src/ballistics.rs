//! Closed-form ballistic targeting.
//!
//! A projectile launched with velocity `(vx, vy)` under vertical acceleration
//! `g` is displaced after time `t` by `dx = vx t` and `dy = vy t + g t^2 / 2`.
//! Fixing the launch speed, `vx^2 + vy^2 = s^2`, and eliminating `t` and `vy`
//! leaves a quadratic in `vx^2` with roots
//!
//! ```text
//!           dx^2 w
//!   vx^2 = --------,   w = g dy + s^2 +/- sqrt(D),   D = s^4 + 2 g dy s^2 - g^2 dx^2,
//!            2 r
//! ```
//!
//! where `r = dx^2 + dy^2`. With `vx` the signed square root of a positive
//! root, `t = dx / vx` and `vy = dy / t - g t / 2`, all three come out as
//! quotients over one divisor, `z = sqrt(2 r w)`:
//!
//! ```text
//!   vx = dx w / z,   vy = (dy w - g r) / z,   t = 2 r / z.
//! ```
//!
//! The solver evaluates them in this form, so that each is rounded once, and
//! returns the launch that lands first. `vx` and `t` are rounded away from
//! zero: a launch always moves towards the target and always takes time.

use vstd::prelude::*;
use crate::fixed::{
    away_div, div_away, div_trunc, isqrt, lemma_away_div_by_positive, lemma_product_within,
    lemma_sqrt_floor_exists, lemma_sqrt_floor_monotonic, lemma_sqrt_floor_of_square,
    lemma_trunc_div_by_positive, magnitude, sqrt_floor, trunc_div, within, Coord, Position, Time,
    Vec2, Velocity, SCALE,
};
use crate::rounding::{lemma_horizontal, lemma_speed, lemma_vertical};

verus! {

/// The largest magnitude, in raw units, that the solver accepts for a
/// displacement component, the gravity and the speed. It keeps the fourth
/// powers that the discriminant is made of inside 128 bits.
pub const AIM_LIMIT: i64 = 1_000_000_000;

/// A launch velocity together with the flight time to the target.
pub ghost struct Launch {
    pub vx: int,
    pub vy: int,
    pub time: int,
}

/// The discriminant `s^4 + 2 g dy s^2 - g^2 dx^2` of the quadratic in `vx^2`.
pub open spec fn discriminant(dx: int, dy: int, g: int, s: int) -> int {
    (s * s) * (s * s) + 2 * (g * dy) * (s * s) - (g * g) * (dx * dx)
}

/// The squared length `dx^2 + dy^2` of the displacement.
pub open spec fn reach(dx: int, dy: int) -> int {
    dx * dx + dy * dy
}

/// The weight `w` of one root of the quadratic, `vx^2 = dx^2 w / (2 r)`: the
/// upper one takes the square root of the discriminant with a plus sign, the
/// lower one with a minus sign.
pub open spec fn weight(dx: int, dy: int, g: int, s: int, upper: bool) -> int {
    let root = sqrt_floor(discriminant(dx, dy, g, s) as nat) as int;
    let term = g * dy + s * s;
    if upper {
        term + root
    } else {
        term - root
    }
}

/// The launch that belongs to a root of weight `w`, if the root is strictly
/// positive. The horizontal velocity and the flight time are rounded away
/// from zero, the vertical velocity towards zero.
pub open spec fn launch_for(dx: int, dy: int, g: int, w: int) -> Option<Launch> {
    if w <= 0 {
        None
    } else {
        let r = reach(dx, dy);
        let z = sqrt_floor((2 * r * w) as nat) as int;
        Some(
            Launch {
                vx: away_div(dx * w, z),
                vy: trunc_div(dy * w - g * r, z),
                time: away_div(2 * r * SCALE, z),
            },
        )
    }
}

/// The launch that belongs to one root of the quadratic.
pub open spec fn candidate(dx: int, dy: int, g: int, s: int, upper: bool) -> Option<Launch> {
    launch_for(dx, dy, g, weight(dx, dy, g, s, upper))
}

/// Of two optional launches the one with the shorter flight; the first one
/// wins a tie.
pub open spec fn earlier(a: Option<Launch>, b: Option<Launch>) -> Option<Launch> {
    match (a, b) {
        (Some(p), Some(q)) => if q.time < p.time {
            b
        } else {
            a
        },
        (Some(_), None) => a,
        _ => b,
    }
}

/// The launch that reaches the displacement `(dx, dy)` at speed `s` under
/// gravity `g` in the shortest time, if there is one.
///
/// A target straight above or below (`dx == 0`) has no launch: both roots of
/// the quadratic vanish there.
pub open spec fn aim(dx: int, dy: int, g: int, s: int) -> Option<Launch> {
    if dx == 0 || discriminant(dx, dy, g, s) < 0 {
        None
    } else {
        earlier(candidate(dx, dy, g, s, true), candidate(dx, dy, g, s, false))
    }
}

/// What an executable result says as a [`Launch`].
pub open spec fn launch_of(result: Option<(Velocity, Time)>) -> Option<Launch> {
    match result {
        Some((v, t)) => Some(Launch { vx: v.x as int, vy: v.y as int, time: t as int }),
        None => None,
    }
}

/// A launch keeps to the equations of motion up to the rounding of its three
/// numbers:
/// - it takes time, and it moves towards the target;
/// - `|vx| t` is no less than `|dx|` and exceeds it by less than
///   `|vx| + 2 t`, in units of `1 / SCALE^2`;
/// - `vy t + g t^2 / 2` is within `SCALE (|vy| + 2 t + 4) + |g| (t + 3/2)` of
///   `dy`, in units of `1 / SCALE^3`.
pub open spec fn reaches(l: Launch, dx: int, dy: int, g: int) -> bool {
    &&& l.time > 0
    &&& dx > 0 ==> l.vx > 0
    &&& dx < 0 ==> l.vx < 0
    &&& magnitude(dx) * SCALE <= magnitude(l.vx) * l.time <= magnitude(dx) * SCALE + magnitude(
        l.vx,
    ) + 2 * l.time - 2
    &&& magnitude(2 * SCALE * (l.vy * l.time) + g * (l.time * l.time) - 2 * SCALE * SCALE * dy) < 2
        * SCALE * (magnitude(l.vy) + 2 * l.time + 4) + magnitude(g) * (2 * l.time + 3)
}

/// The magnitude of `x` less one, but not less than zero.
pub open spec fn shortened(x: int) -> int {
    if x == 0 {
        0
    } else {
        magnitude(x) - 1
    }
}

/// The velocity `(vx, vy)` has the speed `s` up to rounding. With the
/// horizontal component one unit shorter, the squared speed is at most
/// `s^2 + 2 |s|`; with each component one unit longer, it exceeds `s^2 - 3`.
pub open spec fn at_speed(vx: int, vy: int, s: int) -> bool {
    &&& shortened(vx) * shortened(vx) + vy * vy <= s * s + 2 * magnitude(s)
    &&& (magnitude(vx) + 1) * (magnitude(vx) + 1) + (magnitude(vy) + 1) * (magnitude(vy) + 1) + 3
        > s * s
}

/// The discriminant is the square of `g dy + s^2` less `g^2 r`.
proof fn lemma_discriminant(dx: int, dy: int, g: int, s: int)
    ensures
        discriminant(dx, dy, g, s) == (g * dy + s * s) * (g * dy + s * s) - (g * g) * reach(
            dx,
            dy,
        ),
{
    let a = s * s;
    let p = g * dy;
    let gg = g * g;
    assert((p + a) * (p + a) == a * a + 2 * p * a + p * p) by (nonlinear_arith);
    assert(p * p == gg * (dy * dy)) by (nonlinear_arith)
        requires
            p == g * dy,
            gg == g * g,
    ;
    assert(gg * (dx * dx + dy * dy) == gg * (dx * dx) + gg * (dy * dy)) by (nonlinear_arith);
}

/// What holds of the two weights where the discriminant is not negative:
/// `g dy + s^2` is no smaller than the root of the discriminant, at speed
/// zero both weights vanish, and at any other speed the upper weight is at
/// least half the squared speed.
proof fn lemma_weights(dx: int, dy: int, g: int, s: int)
    requires
        dx != 0,
        discriminant(dx, dy, g, s) >= 0,
    ensures
        ({
            let root = sqrt_floor(discriminant(dx, dy, g, s) as nat) as int;
            let term = g * dy + s * s;
            &&& 0 <= root <= term
            &&& root * root <= discriminant(dx, dy, g, s) <= root * root + 2 * root
            &&& s == 0 ==> term == 0 && root == 0
            &&& s != 0 ==> 2 * term >= s * s >= 1
            &&& reach(dx, dy) >= 1
            &&& reach(dx, dy) >= dx * dx >= 1
            &&& reach(dx, dy) >= dy * dy
        }),
{
    let d = discriminant(dx, dy, g, s);
    let root = sqrt_floor(d as nat) as int;
    let term = g * dy + s * s;
    let r = reach(dx, dy);
    let a = s * s;
    let p = g * dy;
    let gg = g * g;
    let xx = dx * dx;
    lemma_sqrt_floor_exists(d as nat);
    lemma_discriminant(dx, dy, g, s);
    assert(xx >= 1 && dy * dy >= 0 && gg >= 0 && a >= 0) by (nonlinear_arith)
        requires
            dx != 0,
            xx == dx * dx,
            gg == g * g,
            a == s * s,
    ;
    assert(gg * xx >= 0 && gg * r >= 0 && (gg >= 1 ==> gg * xx >= 1)) by (nonlinear_arith)
        requires
            gg >= 0,
            xx >= 1,
            r >= xx,
    ;
    assert(d == a * a + 2 * p * a - gg * xx);
    if s == 0 {
        assert(a == 0);
        assert(a * a + 2 * p * a == 0) by (nonlinear_arith)
            requires
                a == 0,
        ;
        assert(gg == 0);
        assert(g == 0) by (nonlinear_arith)
            requires
                gg == g * g,
                gg == 0,
        ;
        assert(p == 0) by (nonlinear_arith)
            requires
                p == g * dy,
                g == 0,
        ;
        assert(root == 0) by (nonlinear_arith)
            requires
                root >= 0,
                root * root <= d,
                d == 0,
        ;
    } else {
        assert(a >= 1) by (nonlinear_arith)
            requires
                s != 0,
                a == s * s,
        ;
        assert(a * a + 2 * p * a == a * (a + 2 * p)) by (nonlinear_arith);
        assert(a + 2 * p >= 0) by (nonlinear_arith)
            requires
                a * (a + 2 * p) >= 0,
                a >= 1,
        ;
    }
    assert(term >= 0);
    assert(root <= term) by (nonlinear_arith)
        requires
            root >= 0,
            term >= 0,
            root * root <= d,
            d == term * term - gg * r,
            gg * r >= 0,
    ;
}

/// Every candidate of a reachable target reaches it up to rounding, and no
/// launch is faster than thrice the squared speed allows; the upper
/// candidate has the speed `s` up to rounding.
proof fn lemma_candidate(dx: int, dy: int, g: int, s: int, upper: bool)
    requires
        dx != 0,
        discriminant(dx, dy, g, s) >= 0,
        weight(dx, dy, g, s, upper) >= 1,
    ensures
        candidate(dx, dy, g, s, upper) matches Some(l) && {
            &&& reaches(l, dx, dy, g)
            &&& shortened(l.vx) * shortened(l.vx) + l.vy * l.vy <= 3 * (s * s)
            &&& l.time * l.time <= 32 * (SCALE * SCALE) * reach(dx, dy)
            &&& upper ==> at_speed(l.vx, l.vy, s)
        },
{
    let d = discriminant(dx, dy, g, s);
    let root = sqrt_floor(d as nat) as int;
    let term = g * dy + s * s;
    let w = weight(dx, dy, g, s, upper);
    let r = reach(dx, dy);
    let n = 2 * r * w;
    lemma_weights(dx, dy, g, s);
    assert(n >= 2 * r && n >= 2 * w && n >= 2) by (nonlinear_arith)
        requires
            n == 2 * r * w,
            r >= 1,
            w >= 1,
    ;
    lemma_sqrt_floor_exists(n as nat);
    let z = sqrt_floor(n as nat) as int;
    assert(z >= 1) by (nonlinear_arith)
        requires
            z >= 0,
            n >= 2,
            n < z * z + 2 * z + 1,
    ;
    let l = candidate(dx, dy, g, s, upper)->0;
    let a = dx * w;
    let b = dy * w - g * r;
    lemma_away_div_by_positive(a, z);
    lemma_trunc_div_by_positive(b, z);
    lemma_away_div_by_positive(2 * r * SCALE, z);
    let x = magnitude(dx);
    let m = magnitude(l.vx);
    let q = magnitude(l.vy);
    let t = l.time;
    assert(magnitude(a) == x * w && (dx > 0 ==> a > 0) && (dx < 0 ==> a < 0))
        by (nonlinear_arith)
        requires
            a == dx * w,
            x == magnitude(dx),
            w >= 1,
    ;
    assert(2 * r * SCALE > 0);
    assert((m - 1) * z == m * z - z && (t - 1) * z == t * z - z && (m + 1) * z == m * z + z)
        by (nonlinear_arith);
    assert(x * x == dx * dx) by (nonlinear_arith)
        requires
            x == magnitude(dx),
    ;
    // the horizontal equation
    lemma_horizontal(x, w, r, SCALE as int, z, m, t);
    // the vertical equation
    lemma_vertical(dy, g, w, r, z, l.vy, t, q, magnitude(g), magnitude(dy));
    // the flight time
    lemma_sqrt_floor_exists((2 * r) as nat);
    lemma_sqrt_floor_monotonic((2 * r) as nat, n as nat);
    let k = sqrt_floor((2 * r) as nat) as int;
    assert(k >= 1) by (nonlinear_arith)
        requires
            k >= 0,
            2 * r >= 2,
            2 * r < k * k + 2 * k + 1,
    ;
    assert(t - 1 < 4 * SCALE * k) by (nonlinear_arith)
        requires
            t >= 1,
            (t - 1) * z < 2 * r * SCALE,
            z >= k,
            k >= 1,
            2 * r < k * k + 2 * k + 1,
            SCALE == 1000,
    ;
    assert(t * t <= 32 * (SCALE * SCALE) * r) by (nonlinear_arith)
        requires
            0 <= t <= 4 * SCALE * k,
            k >= 1,
            k * k <= 2 * r,
            SCALE == 1000,
    ;
    // the speed
    let v = magnitude(s);
    let slack = r * (d - root * root);
    assert(v * v == s * s) by (nonlinear_arith)
        requires
            v == magnitude(s),
    ;
    assert(slack >= 0 && slack <= 2 * (r * root)) by (nonlinear_arith)
        requires
            slack == r * (d - root * root),
            0 <= d - root * root <= 2 * root,
            r >= 1,
    ;
    lemma_discriminant(dx, dy, g, s);
    lemma_speed_identity(dx, dy, g, s, w, root);
    let aa = magnitude(a);
    let bb = magnitude(b);
    assert(aa * aa == a * a && bb * bb == b * b) by (nonlinear_arith)
        requires
            aa == magnitude(a),
            bb == magnitude(b),
    ;
    lemma_speed(aa, bb, n, z, v, slack, m - 1, m + 1, q, q + 1);
    assert(q * q == l.vy * l.vy) by (nonlinear_arith)
        requires
            q == magnitude(l.vy),
    ;
    assert(shortened(l.vx) == m - 1);
    if upper {
        assert(r * root <= r * w && 2 * (r * w) == 2 * r * w) by (nonlinear_arith)
            requires
                r >= 1,
                root <= w,
        ;
        assert(slack <= n);
        if s != 0 {
            assert(n >= v * v);
            lemma_sqrt_floor_of_square(v as nat);
            lemma_sqrt_floor_monotonic((v * v) as nat, n as nat);
            assert(z >= v);
        } else {
            assert(z >= v);
        }
    }
}

/// For a weight `w` that is `g dy + s^2` plus or minus `root`, the squares of
/// the dividends of `vx` and `vy` add up to `2 r w s^2` less
/// `r (D - root^2)`.
proof fn lemma_speed_identity(dx: int, dy: int, g: int, s: int, w: int, root: int)
    requires
        w == g * dy + s * s + root || w == g * dy + s * s - root,
    ensures
        (dx * w) * (dx * w) + (dy * w - g * reach(dx, dy)) * (dy * w - g * reach(dx, dy)) + reach(
            dx,
            dy,
        ) * (discriminant(dx, dy, g, s) - root * root) == (2 * reach(dx, dy) * w) * (s * s),
{
    let r = reach(dx, dy);
    let d = discriminant(dx, dy, g, s);
    let term = g * dy + s * s;
    let p = g * dy;
    let a = s * s;
    let gg = g * g;
    let ww = w * w;
    let pw = p * w;
    lemma_discriminant(dx, dy, g, s);
    // the bracket: w^2 - 2 p w + g^2 r == root^2 + 2 s^2 w - d
    assert((w - term) * (w - term) == root * root) by (nonlinear_arith)
        requires
            w == term + root || w == term - root,
    ;
    assert((w - term) * (w - term) == ww - 2 * (w * term) + term * term) by (nonlinear_arith)
        requires
            ww == w * w,
    ;
    assert(w * term == pw + a * w) by (nonlinear_arith)
        requires
            term == p + a,
            pw == p * w,
    ;
    let bracket = ww - 2 * pw + gg * r;
    assert(bracket == root * root + 2 * (a * w) - d);
    // the dividends
    assert((dx * w) * (dx * w) == (dx * dx) * ww) by (nonlinear_arith)
        requires
            ww == w * w,
    ;
    let gr = g * r;
    let yw = dy * w;
    assert((yw - gr) * (yw - gr) == yw * yw - 2 * (yw * gr) + gr * gr) by (nonlinear_arith);
    assert(yw * yw == (dy * dy) * ww) by (nonlinear_arith)
        requires
            yw == dy * w,
            ww == w * w,
    ;
    assert(yw * gr == r * pw) by (nonlinear_arith)
        requires
            yw == dy * w,
            gr == g * r,
            pw == p * w,
            p == g * dy,
    ;
    assert(gr * gr == r * (gg * r)) by (nonlinear_arith)
        requires
            gr == g * r,
            gg == g * g,
    ;
    assert((dx * dx) * ww + (dy * dy) * ww == r * ww) by (nonlinear_arith)
        requires
            r == dx * dx + dy * dy,
    ;
    assert(r * bracket == r * ww - 2 * (r * pw) + r * (gg * r)) by (nonlinear_arith)
        requires
            bracket == ww - 2 * pw + gg * r,
    ;
    assert(r * bracket == r * (root * root) + 2 * (r * (a * w)) - r * d) by (nonlinear_arith)
        requires
            bracket == root * root + 2 * (a * w) - d,
    ;
    assert(r * (d - root * root) == r * d - r * (root * root)) by (nonlinear_arith);
    assert((2 * r * w) * a == 2 * (r * (a * w))) by (nonlinear_arith);
}

/// Of two candidates the upper one lands no later.
proof fn lemma_upper_lands_first(dx: int, dy: int, g: int, s: int)
    requires
        dx != 0,
        discriminant(dx, dy, g, s) >= 0,
        weight(dx, dy, g, s, false) >= 1,
    ensures
        candidate(dx, dy, g, s, true) is Some,
        candidate(dx, dy, g, s, false) is Some,
        candidate(dx, dy, g, s, true)->0.time <= candidate(dx, dy, g, s, false)->0.time,
{
    lemma_weights(dx, dy, g, s);
    let r = reach(dx, dy);
    let high = weight(dx, dy, g, s, true);
    let low = weight(dx, dy, g, s, false);
    assert(2 * r * low <= 2 * r * high && 2 * r * low >= 2) by (nonlinear_arith)
        requires
            r >= 1,
            1 <= low <= high,
    ;
    lemma_sqrt_floor_monotonic((2 * r * low) as nat, (2 * r * high) as nat);
    lemma_sqrt_floor_exists((2 * r * low) as nat);
    let z_low = sqrt_floor((2 * r * low) as nat) as int;
    let z_high = sqrt_floor((2 * r * high) as nat) as int;
    assert(z_low >= 1) by (nonlinear_arith)
        requires
            z_low >= 0,
            2 * r * low >= 2,
            2 * r * low < z_low * z_low + 2 * z_low + 1,
    ;
    lemma_away_div_by_positive(2 * r * SCALE, z_low);
    lemma_away_div_by_positive(2 * r * SCALE, z_high);
    let t_low = away_div(2 * r * SCALE, z_low);
    let t_high = away_div(2 * r * SCALE, z_high);
    assert(t_high <= t_low) by (nonlinear_arith)
        requires
            t_high * z_high < 2 * r * SCALE + z_high,
            2 * r * SCALE <= t_low * z_low,
            1 <= z_low <= z_high,
            t_low >= 1,
            t_high >= 1,
    ;
}

/// The solver finds a launch exactly for a target that is not straight
/// above or below, at a speed other than zero, with a discriminant that is
/// not negative.
pub proof fn lemma_aim_found(dx: int, dy: int, g: int, s: int)
    ensures
        aim(dx, dy, g, s) is Some <==> dx != 0 && s != 0 && discriminant(dx, dy, g, s) >= 0,
{
    if dx != 0 && discriminant(dx, dy, g, s) >= 0 {
        lemma_weights(dx, dy, g, s);
    }
}

/// Every launch that the solver finds satisfies the equations of motion up
/// to rounding (see [`reaches`]) and has the given speed up to rounding
/// (see [`at_speed`]).
pub proof fn lemma_aim_reaches_target(dx: int, dy: int, g: int, s: int)
    requires
        aim(dx, dy, g, s) is Some,
    ensures
        reaches(aim(dx, dy, g, s)->0, dx, dy, g),
        at_speed(aim(dx, dy, g, s)->0.vx, aim(dx, dy, g, s)->0.vy, s),
{
    lemma_aim_earliest(dx, dy, g, s, true);
    lemma_aim_found(dx, dy, g, s);
    lemma_weights(dx, dy, g, s);
    lemma_candidate(dx, dy, g, s, true);
}

/// With a negative discriminant no launch at the given speed reaches the
/// target.
pub proof fn lemma_aim_unreachable(dx: int, dy: int, g: int, s: int)
    requires
        discriminant(dx, dy, g, s) < 0,
    ensures
        aim(dx, dy, g, s) is None,
{
}

/// Whatever the solver finds is the launch of the upper root, and no
/// candidate has a shorter flight.
pub proof fn lemma_aim_earliest(dx: int, dy: int, g: int, s: int, upper: bool)
    requires
        aim(dx, dy, g, s) is Some,
    ensures
        aim(dx, dy, g, s) == candidate(dx, dy, g, s, true),
        candidate(dx, dy, g, s, upper) matches Some(other) ==> aim(dx, dy, g, s)->0.time
            <= other.time,
{
    lemma_weights(dx, dy, g, s);
    if weight(dx, dy, g, s, false) >= 1 {
        lemma_upper_lands_first(dx, dy, g, s);
    }
}

/// Builds the launch for a root of weight `w`.
fn launch_from(dx: Coord, dy: Coord, g: Coord, s: Coord, w: i128) -> (result: Option<
    (Velocity, Time),
>)
    requires
        dx != 0,
        within(dx as int, AIM_LIMIT as int),
        within(dy as int, AIM_LIMIT as int),
        within(g as int, AIM_LIMIT as int),
        within(s as int, AIM_LIMIT as int),
        discriminant(dx as int, dy as int, g as int, s as int) >= 0,
        w == weight(dx as int, dy as int, g as int, s as int, true) || w == weight(
            dx as int,
            dy as int,
            g as int,
            s as int,
            false,
        ),
        w <= 4_000_000_000_000_000_000,
    ensures
        launch_of(result) == launch_for(dx as int, dy as int, g as int, w as int),
{
    if w <= 0 {
        return None;
    }
    let x: i128 = dx as i128;
    let y: i128 = dy as i128;
    proof {
        let limit = AIM_LIMIT as int;
        lemma_product_within(x as int, x as int, limit, limit);
        lemma_product_within(y as int, y as int, limit, limit);
        assert(x * x >= 1 && y * y >= 0) by (nonlinear_arith)
            requires
                x != 0,
        ;
    }
    let r: i128 = x * x + y * y;
    proof {
        lemma_product_within(
            2 * r,
            w as int,
            4_000_000_000_000_000_000,
            4_000_000_000_000_000_000,
        );
        assert(2 * r * w >= 2) by (nonlinear_arith)
            requires
                r >= 1,
                w >= 1,
        ;
        lemma_product_within(x as int, w as int, AIM_LIMIT as int, 4_000_000_000_000_000_000);
        lemma_product_within(y as int, w as int, AIM_LIMIT as int, 4_000_000_000_000_000_000);
        lemma_product_within(g as int, r as int, AIM_LIMIT as int, 2_000_000_000_000_000_000);
    }
    let z: i128 = isqrt((2 * r * w) as u128) as i128;
    assert(z >= 1) by (nonlinear_arith)
        requires
            z >= 0,
            2 * r * w >= 2,
            2 * r * w < z * z + 2 * z + 1,
    ;
    let vx: i128 = div_away(x * w, z);
    let vy: i128 = div_trunc(y * w - (g as i128) * r, z);
    let time: i128 = div_away(2 * r * (SCALE as i128), z);
    proof {
        let upper = w == weight(dx as int, dy as int, g as int, s as int, true);
        lemma_candidate(dx as int, dy as int, g as int, s as int, upper);
        lemma_product_within(s as int, s as int, AIM_LIMIT as int, AIM_LIMIT as int);
        let shorter = shortened(vx as int);
        assert(shorter <= 2_000_000_000 && -2_000_000_000 <= vy <= 2_000_000_000)
            by (nonlinear_arith)
            requires
                shorter * shorter + vy * vy <= 3 * (s * s),
                s * s <= 1_000_000_000_000_000_000,
        ;
        assert(time <= 10_000_000_000_000) by (nonlinear_arith)
            requires
                time >= 0,
                time * time <= 32 * (SCALE * SCALE) * r,
                r <= 2_000_000_000_000_000_000,
                SCALE == 1000,
        ;
    }
    Some((Vec2 { x: vx as i64, y: vy as i64 }, time as i64))
}

/// Returns the launch velocity and flight time that carry a projectile over
/// the displacement `delta_pos` at the given `speed` under vertical
/// acceleration `gravity`, preferring the earliest impact, or `None` if no
/// launch at that speed reaches the target.
pub fn aim_parabollically(delta_pos: Position, gravity: Coord, speed: Coord) -> (result: Option<
    (Velocity, Time),
>)
    requires
        within(delta_pos.x as int, AIM_LIMIT as int),
        within(delta_pos.y as int, AIM_LIMIT as int),
        within(gravity as int, AIM_LIMIT as int),
        within(speed as int, AIM_LIMIT as int),
    ensures
        launch_of(result) == aim(
            delta_pos.x as int,
            delta_pos.y as int,
            gravity as int,
            speed as int,
        ),
        result is Some <==> delta_pos.x != 0 && speed != 0 && discriminant(
            delta_pos.x as int,
            delta_pos.y as int,
            gravity as int,
            speed as int,
        ) >= 0,
        result is Some ==> launch_of(result) == candidate(
            delta_pos.x as int,
            delta_pos.y as int,
            gravity as int,
            speed as int,
            true,
        ),
        result is Some ==> reaches(
            launch_of(result)->0,
            delta_pos.x as int,
            delta_pos.y as int,
            gravity as int,
        ),
        result matches Some((v, t)) ==> at_speed(v.x as int, v.y as int, speed as int),
        result matches Some((v, t)) ==> forall|upper: bool|
            #[trigger] candidate(
                delta_pos.x as int,
                delta_pos.y as int,
                gravity as int,
                speed as int,
                upper,
            ) matches Some(other) ==> t <= other.time,
        result matches Some((v, t)) ==> 0 < t <= 10_000_000_000_000,
{
    let x: i128 = delta_pos.x as i128;
    let y: i128 = delta_pos.y as i128;
    let g: i128 = gravity as i128;
    let s: i128 = speed as i128;
    proof {
        let limit = AIM_LIMIT as int;
        lemma_product_within(s as int, s as int, limit, limit);
        lemma_product_within(g as int, y as int, limit, limit);
        lemma_product_within(g as int, g as int, limit, limit);
        lemma_product_within(x as int, x as int, limit, limit);
        lemma_product_within(s * s, s * s, limit * limit, limit * limit);
        lemma_product_within(2 * (g * y), s * s, 2 * limit * limit, limit * limit);
        lemma_product_within(g * g, x * x, limit * limit, limit * limit);
        assert(s * s >= 0 && x * x >= 0 && g * g >= 0) by (nonlinear_arith);
        assert((g * g) * (x * x) >= 0) by (nonlinear_arith);
        assert((s * s) * (s * s) >= 0) by (nonlinear_arith);
    }
    let speed_sq: i128 = s * s;
    let pull: i128 = g * y;
    let d: i128 = speed_sq * speed_sq + 2 * pull * speed_sq - (g * g) * (x * x);
    proof {
        lemma_aim_found(x as int, y as int, g as int, s as int);
        if aim(x as int, y as int, g as int, s as int) is Some {
            lemma_aim_reaches_target(x as int, y as int, g as int, s as int);
            lemma_aim_earliest(x as int, y as int, g as int, s as int, true);
            lemma_aim_earliest(x as int, y as int, g as int, s as int, false);
            lemma_candidate(x as int, y as int, g as int, s as int, true);
            lemma_product_within(y as int, y as int, AIM_LIMIT as int, AIM_LIMIT as int);
            let t = aim(x as int, y as int, g as int, s as int)->0.time;
            assert(t <= 10_000_000_000_000) by (nonlinear_arith)
                requires
                    t >= 0,
                    t * t <= 32 * (SCALE * SCALE) * (x * x + y * y),
                    x * x + y * y <= 2_000_000_000_000_000_000,
                    SCALE == 1000,
            ;
        }
    }
    if x == 0 || d < 0 {
        return None;
    }
    let root: i128 = isqrt(d as u128) as i128;
    assert(root <= 2_000_000_000_000_000_000) by (nonlinear_arith)
        requires
            0 <= root,
            root * root <= d <= 3_000_000_000_000_000_000_000_000_000_000_000_000,
    ;
    let term: i128 = pull + speed_sq;
    let upper = launch_from(delta_pos.x, delta_pos.y, gravity, speed, term + root);
    let lower = launch_from(delta_pos.x, delta_pos.y, gravity, speed, term - root);
    match (upper, lower) {
        (Some(first), Some(second)) => if second.1 < first.1 {
            lower
        } else {
            upper
        },
        (Some(_), None) => upper,
        _ => lower,
    }
}

} // verus!
