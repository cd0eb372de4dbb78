//! What rounding leaves of the equations of motion.
//!
//! A launch is three quotients over one divisor `z`, the integer square root
//! of `n = 2 r w`: `vx = dx w / z`, `vy = (dy w - g r) / z` and
//! `t = 2 r S / z`, where `r = dx^2 + dy^2` and `S` is the scale. `vx` and
//! `t` are rounded away from zero, `vy` towards zero. The lemmas here bound,
//! in plain integers, how far the rounded quotients are from satisfying the
//! equations that the exact ones satisfy.

use vstd::prelude::*;

verus! {

/// The horizontal equation `vx t = dx` up to rounding, with `m = |vx|` and
/// `x = |dx|`, both quotients rounded up.
pub(crate) proof fn lemma_horizontal(x: int, w: int, r: int, s: int, z: int, m: int, t: int)
    requires
        x >= 1,
        w >= 1,
        s >= 1,
        r >= x * x,
        z >= 1,
        z * z <= 2 * r * w <= z * z + 2 * z,
        1 <= m,
        (m - 1) * z < x * w <= m * z,
        1 <= t,
        (t - 1) * z < 2 * r * s <= t * z,
    ensures
        0 <= m * t - x * s <= m + 2 * t - 2,
{
    let n = 2 * r * w;
    let a = x * w;
    let big = 2 * r * s;
    assert(a * big == (x * s) * n) by (nonlinear_arith)
        requires
            a == x * w,
            big == 2 * r * s,
            n == 2 * r * w,
    ;
    assert(a >= 1 && big >= 1 && x * s >= 1 && 2 * (x * s) <= big) by (nonlinear_arith)
        requires
            a == x * w,
            big == 2 * r * s,
            x >= 1,
            w >= 1,
            r >= x * x,
            s >= 1,
    ;
    // from below
    assert((m * z) * (t * z) >= a * big) by (nonlinear_arith)
        requires
            0 <= a <= m * z,
            0 <= big <= t * z,
    ;
    assert((m * z) * (t * z) == (m * t) * (z * z)) by (nonlinear_arith);
    assert((x * s) * n >= (x * s) * (z * z)) by (nonlinear_arith)
        requires
            x * s >= 0,
            n >= z * z,
    ;
    assert(m * t >= x * s) by (nonlinear_arith)
        requires
            (m * t) * (z * z) >= (x * s) * (z * z),
            z >= 1,
    ;
    // from above
    let u = (m - 1) * z;
    let v = (t - 1) * z;
    assert(u >= 0 && v >= 0) by (nonlinear_arith)
        requires
            u == (m - 1) * z,
            v == (t - 1) * z,
            m >= 1,
            t >= 1,
            z >= 1,
    ;
    assert(u * v < a * big) by (nonlinear_arith)
        requires
            0 <= u < a,
            0 <= v < big,
    ;
    let less = (m - 1) * (t - 1);
    assert(u * v == less * (z * z)) by (nonlinear_arith)
        requires
            u == (m - 1) * z,
            v == (t - 1) * z,
            less == (m - 1) * (t - 1),
    ;
    assert((x * s) * n <= (x * s) * (z * z + 2 * z)) by (nonlinear_arith)
        requires
            x * s >= 0,
            n <= z * z + 2 * z,
    ;
    let e = less - x * s;
    assert(e * z < 2 * (x * s)) by (nonlinear_arith)
        requires
            less * (z * z) < (x * s) * (z * z + 2 * z),
            e == less - x * s,
            z >= 1,
    ;
    assert(e < t) by (nonlinear_arith)
        requires
            e * z < 2 * (x * s),
            2 * (x * s) <= big,
            big <= t * z,
            z >= 1,
    ;
    assert(less == m * t - m - t + 1) by (nonlinear_arith)
        requires
            less == (m - 1) * (t - 1),
    ;
}

/// The speed equation `vx^2 + vy^2 = s^2` up to rounding, with `a` and `b`
/// the magnitudes of the dividends of `vx` and `vy` and `v = |s|`. The
/// magnitude of `vx` lies between `pl` and `ph`, that of `vy` between `ql`
/// and `qh`, as the quotients `a / z` and `b / z` do.
pub(crate) proof fn lemma_speed(
    a: int,
    b: int,
    n: int,
    z: int,
    v: int,
    slack: int,
    pl: int,
    ph: int,
    ql: int,
    qh: int,
)
    requires
        z >= 1,
        v >= 0,
        z * z <= n <= z * z + 2 * z,
        0 <= slack,
        a * a + b * b + slack == n * (v * v),
        a >= 0,
        b >= 0,
        0 <= pl,
        pl * z <= a < ph * z,
        0 <= ql,
        ql * z <= b < qh * z,
    ensures
        pl * pl + ql * ql <= 3 * (v * v),
        z >= v ==> pl * pl + ql * ql <= v * v + 2 * v,
        slack <= n ==> ph * ph + qh * qh + 3 > v * v,
{
    let vv = v * v;
    assert(vv >= 0) by (nonlinear_arith)
        requires
            vv == v * v,
    ;
    assert(pl * z >= 0 && ql * z >= 0) by (nonlinear_arith)
        requires
            pl >= 0,
            ql >= 0,
            z >= 1,
    ;
    assert((pl * z) * (pl * z) <= a * a) by (nonlinear_arith)
        requires
            0 <= pl * z <= a,
    ;
    assert((ql * z) * (ql * z) <= b * b) by (nonlinear_arith)
        requires
            0 <= ql * z <= b,
    ;
    assert((pl * z) * (pl * z) + (ql * z) * (ql * z) == (pl * pl + ql * ql) * (z * z))
        by (nonlinear_arith);
    let sum = pl * pl + ql * ql;
    assert(n * vv <= (z * z + 2 * z) * vv) by (nonlinear_arith)
        requires
            vv >= 0,
            n <= z * z + 2 * z,
    ;
    assert(sum * (z * z) <= (z * z + 2 * z) * vv);
    assert(sum <= 3 * vv) by (nonlinear_arith)
        requires
            sum * (z * z) <= (z * z + 2 * z) * vv,
            z >= 1,
            vv >= 0,
    ;
    if z >= v {
        assert(sum <= vv + 2 * v) by (nonlinear_arith)
            requires
                sum * (z * z) <= (z * z + 2 * z) * vv,
                z >= 1,
                z >= v,
                v >= 0,
                vv == v * v,
        ;
    }
    assert((ph * z) * (ph * z) > a * a) by (nonlinear_arith)
        requires
            0 <= a < ph * z,
    ;
    assert((qh * z) * (qh * z) > b * b) by (nonlinear_arith)
        requires
            0 <= b < qh * z,
    ;
    let up = ph * ph + qh * qh;
    assert((ph * z) * (ph * z) + (qh * z) * (qh * z) == up * (z * z)) by (nonlinear_arith)
        requires
            up == ph * ph + qh * qh,
    ;
    assert(n * vv >= (z * z) * vv) by (nonlinear_arith)
        requires
            vv >= 0,
            n >= z * z,
    ;
    if slack <= n {
        assert(up * (z * z) > (z * z) * vv - (z * z + 2 * z));
        assert(up + 3 > vv) by (nonlinear_arith)
            requires
                up * (z * z) > (z * z) * vv - (z * z + 2 * z),
                z >= 1,
        ;
    }
}

/// The vertical equation `vy t + g t^2 / 2 = dy` up to rounding, at the
/// scale of a thousand: the left side of the conclusion is two thousand
/// million times what the equation is off by. `q`, `h` and `k` are the
/// magnitudes of `vy`, `g` and `dy`.
pub(crate) proof fn lemma_vertical(
    dy: int,
    g: int,
    w: int,
    r: int,
    z: int,
    vy: int,
    t: int,
    q: int,
    h: int,
    k: int,
)
    requires
        w >= 1,
        r >= 1,
        r >= dy * dy,
        z >= 1,
        z * z <= 2 * r * w <= z * z + 2 * z,
        -z < (dy * w - g * r) - vy * z < z,
        q >= 0 && (q == vy || q == -vy),
        h >= 0 && (h == g || h == -g),
        k >= 0 && (k == dy || k == -dy),
        0 <= t,
        -z < 2000 * r - t * z < z,
    ensures
        -(2000 * (q + 2 * t + 4) + h * (2 * t + 3)) < 2000 * (vy * t) + g * (t * t) - 2000000 * dy
            < 2000 * (q + 2 * t + 4) + h * (2 * t + 3),
{
    let n = 2 * r * w;
    let b = dy * w - g * r;
    let big = 2000 * r;
    let rb = b - vy * z;
    let rt = big - t * z;
    let e = 2000 * (vy * t) + g * (t * t) - 2000000 * dy;
    let zz = z * z;
    let pp = vy * z;
    let qq = t * z;
    assert(zz >= 1) by (nonlinear_arith)
        requires
            zz == z * z,
            z >= 1,
    ;
    assert(pp * qq == (vy * t) * zz && qq * qq == (t * t) * zz) by (nonlinear_arith)
        requires
            pp == vy * z,
            qq == t * z,
            zz == z * z,
    ;
    assert(g * ((t * t) * zz) == (g * (t * t)) * zz && g * (qq * qq) == g * ((t * t) * zz)
        && (2000 * (vy * t) + g * (t * t) - 2000000 * dy) * zz == 2000 * ((vy * t) * zz) + (g * (t
        * t)) * zz - 2000000 * (dy * zz)) by (nonlinear_arith)
        requires
            qq * qq == (t * t) * zz,
    ;
    assert(e * zz == 2000 * (pp * qq) + g * (qq * qq) - 2000000 * (dy * zz));
    let x1 = b * big;
    let x2 = b * rt;
    let x3 = rb * big;
    let x4 = rb * rt;
    let x5 = big * big;
    let x6 = big * rt;
    let x7 = rt * rt;
    assert(pp * qq == x1 - x2 - x3 + x4) by (nonlinear_arith)
        requires
            pp == b - rb,
            qq == big - rt,
            x1 == b * big,
            x2 == b * rt,
            x3 == rb * big,
            x4 == rb * rt,
    ;
    assert(qq * qq == x5 - 2 * x6 + x7) by (nonlinear_arith)
        requires
            qq == big - rt,
            x5 == big * big,
            x6 == big * rt,
            x7 == rt * rt,
    ;
    assert(g * (qq * qq) == g * x5 - 2 * (g * x6) + g * x7) by (nonlinear_arith)
        requires
            qq * qq == x5 - 2 * x6 + x7,
    ;
    assert(2000 * x1 + g * x5 == 2000000 * (dy * n)) by (nonlinear_arith)
        requires
            x1 == b * big,
            x5 == big * big,
            b == dy * w - g * r,
            big == 2000 * r,
            n == 2 * r * w,
    ;
    // what is left: e zz == 2000000 dy (n - zz) - 2000 x2 - 2000 x3 + 2000 x4 - 2 g x6 + g x7
    let slack = n - zz;
    assert(dy * n - dy * zz == dy * slack) by (nonlinear_arith)
        requires
            slack == n - zz,
    ;
    let t1 = 2000000 * (dy * slack);
    let t2 = 2000 * x2 + 2 * (g * x6);
    let t3 = 2000 * x3;
    let t4 = 2000 * x4;
    let t5 = g * x7;
    assert(e * zz == t1 - t2 - t3 + t4 + t5);
    // the bounds
    assert(vy * z <= q * z && -(vy * z) <= q * z) by (nonlinear_arith)
        requires
            q == vy || q == -vy,
            q >= 0,
            z >= 1,
    ;
    let bb = (q + 1) * z;
    assert(bb == q * z + z) by (nonlinear_arith)
        requires
            bb == (q + 1) * z,
    ;
    assert(-bb < b < bb);
    let tt = (t + 1) * z;
    assert(tt == t * z + z) by (nonlinear_arith)
        requires
            tt == (t + 1) * z,
    ;
    assert(0 <= big < tt);
    assert(-z < rt < z);
    assert(-z < rb < z);
    assert(k <= r) by (nonlinear_arith)
        requires
            r >= dy * dy,
            k >= 0,
            k == dy || k == -dy,
    ;
    assert(-(2 * z * k) <= dy * slack <= 2 * z * k) by (nonlinear_arith)
        requires
            0 <= slack <= 2 * z,
            k >= 0,
            k == dy || k == -dy,
    ;
    assert(2 * z * k <= 2 * (z * r)) by (nonlinear_arith)
        requires
            k <= r,
            z >= 1,
    ;
    assert(2000 * (z * r) < tt * z) by (nonlinear_arith)
        requires
            2000 * r < tt,
            z >= 1,
    ;
    assert(tt * z == (t + 1) * zz && bb * z == (q + 1) * zz) by (nonlinear_arith)
        requires
            tt == (t + 1) * z,
            bb == (q + 1) * z,
            zz == z * z,
    ;
    // |t1| < 2000 (t + 1) zz
    assert(-(2000 * ((t + 1) * zz)) < t1 < 2000 * ((t + 1) * zz));
    assert(-(bb * z) <= x2 <= bb * z) by (nonlinear_arith)
        requires
            x2 == b * rt,
            -bb < b < bb,
            -z < rt < z,
    ;
    assert(-(tt * z) <= x6 <= tt * z) by (nonlinear_arith)
        requires
            x6 == big * rt,
            0 <= big < tt,
            -z < rt < z,
    ;
    assert(tt * z >= 0) by (nonlinear_arith)
        requires
            tt > 0,
            z >= 1,
    ;
    assert(-(h * (tt * z)) <= g * x6 <= h * (tt * z)) by (nonlinear_arith)
        requires
            -(tt * z) <= x6 <= tt * z,
            tt * z >= 0,
            h >= 0,
            h == g || h == -g,
    ;
    assert(-(tt * z) <= x3 <= tt * z) by (nonlinear_arith)
        requires
            x3 == rb * big,
            0 <= big < tt,
            -z < rb < z,
    ;
    assert(-zz <= x4 <= zz) by (nonlinear_arith)
        requires
            x4 == rb * rt,
            -z < rb < z,
            -z < rt < z,
            zz == z * z,
    ;
    assert(0 <= x7 <= zz) by (nonlinear_arith)
        requires
            x7 == rt * rt,
            -z < rt < z,
            zz == z * z,
    ;
    assert(-(h * zz) <= g * x7 <= h * zz) by (nonlinear_arith)
        requires
            0 <= x7 <= zz,
            h >= 0,
            h == g || h == -g,
    ;
    assert(h * (tt * z) == (h * (t + 1)) * zz) by (nonlinear_arith)
        requires
            tt * z == (t + 1) * zz,
    ;
    let m = 2000 * (q + 2 * t + 4) + h * (2 * t + 3);
    assert(m * zz == 2000 * ((t + 1) * zz) + 2000 * ((q + 1) * zz) + 2 * ((h * (t + 1)) * zz)
        + 2000 * ((t + 1) * zz) + 2000 * zz + h * zz) by (nonlinear_arith)
        requires
            m == 2000 * (q + 2 * t + 4) + h * (2 * t + 3),
    ;
    assert(-(m * zz) < e * zz < m * zz);
    assert(-m < e < m) by (nonlinear_arith)
        requires
            -(m * zz) < e * zz < m * zz,
            zz >= 1,
    ;
}

} // verus!
