//! Where a projectile leaves its caster and with what velocity.
//!
//! The velocity comes from a predictive aim in two passes. The first pass
//! estimates the flight time as if the projectile flew straight at the
//! target, moves the target on by that time, and solves the ballistic
//! equations for the point reached. The second pass takes the flight time
//! that the first pass found, moves the target on by it, and solves again.
//! Where the solver finds nothing, the projectile is sent straight at the
//! point of the first pass.
//!
//! Every scalar that the aim reads, and every displacement that it hands to
//! the solver, has to lie within the solver's range, [`AIM_LIMIT`].

use vstd::prelude::*;
use crate::ballistics::{
    aim, aim_parabollically, at_speed, reach, shortened, Launch, AIM_LIMIT,
};
use crate::fixed::{
    displaced, displacement, div_trunc, isqrt, lemma_product_within, lemma_sqrt_floor_exists,
    lemma_sqrt_floor_monotonic, lemma_sqrt_floor_of_square, lemma_trunc_div_by_positive,
    magnitude, point, point_of, sqrt_floor, trunc_div, within, Coord, Point, Position, Vec2,
    Velocity, SCALE,
};
use crate::model::{bounded, ExtraUnitRender, Rotation, Unit};
use crate::rounding::lemma_speed;

verus! {

/// The scale at which lengths are taken: a thousand million to one raw unit.
pub const FINE: i64 = 1_000_000_000;

/// Both components of `p` are within the solver's range.
pub open spec fn in_range(p: Point) -> bool {
    within(p.x, AIM_LIMIT as int) && within(p.y, AIM_LIMIT as int)
}

/// `v` turned by `rotation`.
pub open spec fn rotated(v: Point, rotation: Rotation) -> Point {
    Point {
        x: trunc_div(v.x * rotation.cos - v.y * rotation.sin, SCALE as int),
        y: trunc_div(v.x * rotation.sin + v.y * rotation.cos, SCALE as int),
    }
}

/// Where the muzzle is relative to the caster: at the end of the weapon arm
/// if the caster shows one, at the effect's own offset otherwise; mirrored
/// if the caster is flipped.
pub open spec fn muzzle_offset(offset: Position, caster: Unit) -> Point {
    let base = match caster.extra_render {
        Some(ExtraUnitRender::Tank { hand_pos, weapon_pos, shoot_pos, rotation }) => displaced(
            point_of(hand_pos),
            rotated(displaced(point_of(weapon_pos), point_of(shoot_pos)), rotation),
        ),
        None => point_of(offset),
    };
    if caster.flip_sprite {
        Point { x: -base.x, y: base.y }
    } else {
        base
    }
}

/// Where the muzzle is in the world.
pub open spec fn muzzle_position(offset: Position, caster: Unit) -> Point {
    displaced(muzzle_offset(offset, caster), point_of(caster.position))
}

/// What the muzzle is made of is within the solver's range: the caster's
/// position and either the anchors of its weapon arm, whose rotation is well
/// formed, or, without such an arm, the offset.
pub open spec fn mountable(offset: Position, caster: Unit) -> bool {
    &&& in_range(point_of(caster.position))
    &&& caster.extra_render is None ==> in_range(point_of(offset))
    &&& caster.extra_render matches Some(
        ExtraUnitRender::Tank { hand_pos, weapon_pos, shoot_pos, rotation },
    ) ==> {
        &&& in_range(point_of(hand_pos))
        &&& in_range(point_of(weapon_pos))
        &&& in_range(point_of(shoot_pos))
        &&& rotation.wf()
    }
}

/// The Euclidean length of `d` at the scale [`FINE`], rounded down.
pub open spec fn fine_length(d: Point) -> int {
    sqrt_floor((reach(d.x, d.y) * (FINE * FINE)) as nat) as int
}

/// The time that a flight over `d` in a straight line takes at `speed`;
/// zero at speed zero.
pub open spec fn straight_time(d: Point, speed: int) -> int {
    if speed == 0 {
        0
    } else {
        trunc_div(fine_length(d) * SCALE, speed * FINE)
    }
}

/// Where something at `position` that moves with `velocity` is after `time`.
pub open spec fn lead(position: Position, velocity: Velocity, time: int) -> Point {
    Point {
        x: position.x + trunc_div(velocity.x * time, SCALE as int),
        y: position.y + trunc_div(velocity.y * time, SCALE as int),
    }
}

/// The velocity of the given `speed` along `d`; zero if `d` is null.
pub open spec fn straight_velocity(d: Point, speed: int) -> Point {
    if d.x == 0 && d.y == 0 {
        Point { x: 0, y: 0 }
    } else {
        Point {
            x: trunc_div((d.x * speed) * FINE, fine_length(d)),
            y: trunc_div((d.y * speed) * FINE, fine_length(d)),
        }
    }
}

/// The displacement from the muzzle to the point that the first pass aims
/// at.
pub open spec fn first_pass(
    muzzle: Point,
    target_position: Position,
    target_velocity: Velocity,
    speed: int,
) -> Point {
    displacement(
        muzzle,
        lead(
            target_position,
            target_velocity,
            straight_time(displacement(muzzle, point_of(target_position)), speed),
        ),
    )
}

/// The displacement from the muzzle to the point that the second pass aims
/// at, for a first pass that found a flight of `time`.
pub open spec fn second_pass(
    muzzle: Point,
    target_position: Position,
    target_velocity: Velocity,
    time: int,
) -> Point {
    displacement(muzzle, lead(target_position, target_velocity, time))
}

/// The launch that the second pass finds, if both passes find one.
pub open spec fn refined(
    muzzle: Point,
    target_position: Position,
    target_velocity: Velocity,
    gravity: int,
    speed: int,
) -> Option<Launch> {
    let first = first_pass(muzzle, target_position, target_velocity, speed);
    match aim(first.x, first.y, gravity, speed) {
        Some(launch) => {
            let second = second_pass(muzzle, target_position, target_velocity, launch.time);
            aim(second.x, second.y, gravity, speed)
        },
        None => None,
    }
}

/// The velocity that a projectile leaves `muzzle` with: that of the second
/// pass, or straight at the point of the first pass where a pass finds
/// nothing.
pub open spec fn launch_velocity(
    muzzle: Point,
    target_position: Position,
    target_velocity: Velocity,
    gravity: int,
    speed: int,
) -> Point {
    match refined(muzzle, target_position, target_velocity, gravity, speed) {
        Some(launch) => Point { x: launch.vx, y: launch.vy },
        None => straight_velocity(
            first_pass(muzzle, target_position, target_velocity, speed),
            speed,
        ),
    }
}

/// The aim can be computed: what it reads is within the solver's range, and
/// so is each displacement that it asks the solver about.
pub open spec fn aimable(
    muzzle: Point,
    target_position: Position,
    target_velocity: Velocity,
    gravity: int,
    speed: int,
) -> bool {
    let first = first_pass(muzzle, target_position, target_velocity, speed);
    &&& in_range(muzzle)
    &&& in_range(point_of(target_position))
    &&& in_range(point_of(target_velocity))
    &&& within(gravity, AIM_LIMIT as int)
    &&& within(speed, AIM_LIMIT as int)
    &&& in_range(first)
    &&& aim(first.x, first.y, gravity, speed) matches Some(launch) ==> in_range(
        second_pass(muzzle, target_position, target_velocity, launch.time),
    )
}

/// A straight velocity along a displacement that is not null has the given
/// speed up to rounding.
pub proof fn lemma_straight_at_speed(d: Point, speed: int)
    requires
        d.x != 0 || d.y != 0,
        within(speed, AIM_LIMIT as int),
    ensures
        at_speed(straight_velocity(d, speed).x, straight_velocity(d, speed).y, speed),
        straight_velocity(d, speed).x * straight_velocity(d, speed).x + straight_velocity(
            d,
            speed,
        ).y * straight_velocity(d, speed).y <= speed * speed + 2 * magnitude(speed),
{
    let k = FINE as int;
    let r = reach(d.x, d.y);
    let n = r * (k * k);
    assert(r >= 1 && n >= k * k) by (nonlinear_arith)
        requires
            d.x != 0 || d.y != 0,
            r == d.x * d.x + d.y * d.y,
            n == r * (k * k),
            k == 1_000_000_000,
    ;
    lemma_sqrt_floor_exists(n as nat);
    lemma_sqrt_floor_of_square(k as nat);
    lemma_sqrt_floor_monotonic((k * k) as nat, n as nat);
    let z = fine_length(d);
    let v = magnitude(speed);
    let a = (d.x * speed) * k;
    let b = (d.y * speed) * k;
    let sv = straight_velocity(d, speed);
    lemma_trunc_div_by_positive(a, z);
    lemma_trunc_div_by_positive(b, z);
    let aa = magnitude(a);
    let bb = magnitude(b);
    let p = magnitude(sv.x);
    let q = magnitude(sv.y);
    assert(aa * aa == a * a && bb * bb == b * b && p * p == sv.x * sv.x && q * q == sv.y * sv.y
        && v * v == speed * speed) by (nonlinear_arith)
        requires
            aa == magnitude(a),
            bb == magnitude(b),
            p == magnitude(sv.x),
            q == magnitude(sv.y),
            v == magnitude(speed),
    ;
    let xs = d.x * speed;
    let ys = d.y * speed;
    assert(a * a == (xs * xs) * (k * k) && b * b == (ys * ys) * (k * k)) by (nonlinear_arith)
        requires
            a == xs * k,
            b == ys * k,
    ;
    assert(xs * xs == (d.x * d.x) * (speed * speed) && ys * ys == (d.y * d.y) * (speed * speed))
        by (nonlinear_arith)
        requires
            xs == d.x * speed,
            ys == d.y * speed,
    ;
    let ss = speed * speed;
    let kk = k * k;
    assert(((d.x * d.x) * ss) * kk + ((d.y * d.y) * ss) * kk == (r * kk) * ss)
        by (nonlinear_arith)
        requires
            r == d.x * d.x + d.y * d.y,
    ;
    lemma_speed(aa, bb, n, z, v, 0, p, p + 1, q, q + 1);
    let less = shortened(sv.x);
    assert(less * less <= p * p) by (nonlinear_arith)
        requires
            0 <= less <= p,
    ;
}

/// Tests that both components of `v` are within the solver's range.
pub fn is_in_range(v: Vec2) -> (r: bool)
    ensures
        r == in_range(point_of(v)),
{
    -AIM_LIMIT <= v.x && v.x <= AIM_LIMIT && -AIM_LIMIT <= v.y && v.y <= AIM_LIMIT
}

/// Turns `v` by `rotation`.
pub fn rotate(v: Vec2, rotation: Rotation) -> (r: Vec2)
    requires
        bounded(v, 2 * AIM_LIMIT),
        rotation.wf(),
    ensures
        point_of(r) == rotated(point_of(v), rotation),
        bounded(r, 4 * AIM_LIMIT),
{
    let x: i128 = v.x as i128;
    let y: i128 = v.y as i128;
    let cos: i128 = rotation.cos as i128;
    let sin: i128 = rotation.sin as i128;
    proof {
        lemma_product_within(x as int, cos as int, 2 * AIM_LIMIT, SCALE as int);
        lemma_product_within(y as int, sin as int, 2 * AIM_LIMIT, SCALE as int);
        lemma_product_within(x as int, sin as int, 2 * AIM_LIMIT, SCALE as int);
        lemma_product_within(y as int, cos as int, 2 * AIM_LIMIT, SCALE as int);
    }
    let rx: i128 = div_trunc(x * cos - y * sin, SCALE as i128);
    let ry: i128 = div_trunc(x * sin + y * cos, SCALE as i128);
    Vec2 { x: rx as i64, y: ry as i64 }
}

/// Tests whether the muzzle can be computed for an effect with the given
/// `offset` cast by `caster`.
pub fn is_mountable(offset: Position, caster: &Unit) -> (r: bool)
    ensures
        r == mountable(offset, *caster),
{
    if !is_in_range(caster.position) {
        return false;
    }
    match caster.extra_render {
        Some(ExtraUnitRender::Tank { hand_pos, weapon_pos, shoot_pos, rotation }) => {
            is_in_range(hand_pos) && is_in_range(weapon_pos) && is_in_range(shoot_pos)
                && rotation.is_wf()
        },
        None => is_in_range(offset),
    }
}

/// Computes where the muzzle is in the world for an effect with the given
/// `offset` cast by `caster`.
pub fn muzzle(offset: Position, caster: &Unit) -> (r: Position)
    requires
        mountable(offset, *caster),
    ensures
        point_of(r) == muzzle_position(offset, *caster),
        bounded(r, 6 * AIM_LIMIT),
{
    let mut base = match caster.extra_render {
        Some(ExtraUnitRender::Tank { hand_pos, weapon_pos, shoot_pos, rotation }) => {
            let arm = rotate(
                Vec2 { x: weapon_pos.x + shoot_pos.x, y: weapon_pos.y + shoot_pos.y },
                rotation,
            );
            Vec2 { x: hand_pos.x + arm.x, y: hand_pos.y + arm.y }
        },
        None => offset,
    };
    if caster.flip_sprite {
        base.x = -base.x;
    }
    Vec2 { x: base.x + caster.position.x, y: base.y + caster.position.y }
}

/// Computes where something at `position` that moves with `velocity` is
/// after `time`.
fn lead_by(position: Position, velocity: Velocity, time: i128) -> (r: (i128, i128))
    requires
        in_range(point_of(position)),
        in_range(point_of(velocity)),
        within(time as int, 10_000_000_000_000_000_000_000),
    ensures
        point(r.0 as int, r.1 as int) == lead(position, velocity, time as int),
        within(r.0 as int, 100_000_000_000_000_000_000_000_000_000),
        within(r.1 as int, 100_000_000_000_000_000_000_000_000_000),
{
    proof {
        lemma_product_within(
            velocity.x as int,
            time as int,
            AIM_LIMIT as int,
            10_000_000_000_000_000_000_000,
        );
        lemma_product_within(
            velocity.y as int,
            time as int,
            AIM_LIMIT as int,
            10_000_000_000_000_000_000_000,
        );
    }
    let x: i128 = position.x as i128 + div_trunc((velocity.x as i128) * time, SCALE as i128);
    let y: i128 = position.y as i128 + div_trunc((velocity.y as i128) * time, SCALE as i128);
    (x, y)
}

/// Computes the length of the displacement `(dx, dy)` at the scale
/// [`FINE`].
fn fine_length_of(dx: i128, dy: i128) -> (r: i128)
    requires
        within(dx as int, 2 * AIM_LIMIT),
        within(dy as int, 2 * AIM_LIMIT),
    ensures
        r == fine_length(point(dx as int, dy as int)),
        0 <= r <= 3_000_000_000_000_000_000,
        dx != 0 || dy != 0 ==> r >= FINE,
{
    proof {
        lemma_product_within(dx as int, dx as int, 2_000_000_000, 2_000_000_000);
        lemma_product_within(dy as int, dy as int, 2_000_000_000, 2_000_000_000);
        assert(dx * dx >= 0 && dy * dy >= 0 && (dx != 0 || dy != 0 ==> dx * dx + dy * dy >= 1))
            by (nonlinear_arith);
    }
    let span: i128 = dx * dx + dy * dy;
    let fine: i128 = FINE as i128;
    assert(0 <= span * (fine * fine) <= 8_000_000_000_000_000_000_000_000_000_000_000_000
        && (span >= 1 ==> span * (fine * fine) >= fine * fine)) by (nonlinear_arith)
        requires
            0 <= span <= 8_000_000_000_000_000_000,
            fine == 1_000_000_000,
    ;
    let r = isqrt((span * (fine * fine)) as u128) as i128;
    proof {
        assert(r <= 3_000_000_000_000_000_000) by (nonlinear_arith)
            requires
                0 <= r,
                r * r <= 8_000_000_000_000_000_000_000_000_000_000_000_000,
        ;
        if dx != 0 || dy != 0 {
            lemma_sqrt_floor_of_square(fine as nat);
            lemma_sqrt_floor_monotonic((fine * fine) as nat, (span * (fine * fine)) as nat);
        }
    }
    r
}

/// Computes the displacement from `muzzle` to the point that the first pass
/// aims at.
fn first_displacement(
    muzzle: Position,
    target_position: Position,
    target_velocity: Velocity,
    speed: Coord,
) -> (r: (i128, i128))
    requires
        in_range(point_of(muzzle)),
        in_range(point_of(target_position)),
        in_range(point_of(target_velocity)),
        within(speed as int, AIM_LIMIT as int),
    ensures
        point(r.0 as int, r.1 as int) == first_pass(
            point_of(muzzle),
            target_position,
            target_velocity,
            speed as int,
        ),
{
    let dx: i128 = target_position.x as i128 - muzzle.x as i128;
    let dy: i128 = target_position.y as i128 - muzzle.y as i128;
    let time: i128 = if speed == 0 {
        0
    } else {
        let len: i128 = fine_length_of(dx, dy);
        proof {
            lemma_trunc_div_by_positive(len * SCALE, magnitude(speed * FINE));
            assert(magnitude(trunc_div(len * SCALE, speed * FINE)) == magnitude(
                trunc_div(len * SCALE, magnitude(speed * FINE)),
            ));
            assert(magnitude(trunc_div(len * SCALE, magnitude(speed * FINE))) <= len * SCALE)
                by (nonlinear_arith)
                requires
                    magnitude(trunc_div(len * SCALE, magnitude(speed * FINE))) * magnitude(
                        speed * FINE,
                    ) <= len * SCALE,
                    magnitude(speed * FINE) >= 1,
                    magnitude(trunc_div(len * SCALE, magnitude(speed * FINE))) >= 0,
            ;
        }
        div_trunc(len * (SCALE as i128), (speed as i128) * (FINE as i128))
    };
    let first = lead_by(target_position, target_velocity, time);
    (first.0 - muzzle.x as i128, first.1 - muzzle.y as i128)
}

/// Tests whether a displacement is within the solver's range.
fn fits(d: (i128, i128)) -> (r: bool)
    ensures
        r == in_range(point(d.0 as int, d.1 as int)),
{
    let limit: i128 = AIM_LIMIT as i128;
    -limit <= d.0 && d.0 <= limit && -limit <= d.1 && d.1 <= limit
}

/// Tests whether the aim can be computed.
pub fn is_aimable(
    muzzle: Position,
    target_position: Position,
    target_velocity: Velocity,
    gravity: Coord,
    speed: Coord,
) -> (r: bool)
    ensures
        r == aimable(
            point_of(muzzle),
            target_position,
            target_velocity,
            gravity as int,
            speed as int,
        ),
{
    if !(is_in_range(muzzle) && is_in_range(target_position) && is_in_range(target_velocity)
        && -AIM_LIMIT <= gravity && gravity <= AIM_LIMIT && -AIM_LIMIT <= speed && speed
        <= AIM_LIMIT) {
        return false;
    }
    let first = first_displacement(muzzle, target_position, target_velocity, speed);
    if !fits(first) {
        return false;
    }
    match aim_parabollically(Vec2 { x: first.0 as i64, y: first.1 as i64 }, gravity, speed) {
        Some((_, time)) => {
            let second = lead_by(target_position, target_velocity, time as i128);
            fits((second.0 - muzzle.x as i128, second.1 - muzzle.y as i128))
        },
        None => true,
    }
}

/// Computes the velocity of the given `speed` along `(dx, dy)`.
fn straight(dx: i128, dy: i128, speed: Coord) -> (r: Velocity)
    requires
        in_range(point(dx as int, dy as int)),
        within(speed as int, AIM_LIMIT as int),
    ensures
        point_of(r) == straight_velocity(point(dx as int, dy as int), speed as int),
{
    if dx == 0 && dy == 0 {
        return Vec2 { x: 0, y: 0 };
    }
    let len: i128 = fine_length_of(dx, dy);
    proof {
        lemma_product_within(dx as int, speed as int, AIM_LIMIT as int, AIM_LIMIT as int);
        lemma_product_within(dy as int, speed as int, AIM_LIMIT as int, AIM_LIMIT as int);
        lemma_straight_at_speed(point(dx as int, dy as int), speed as int);
        let sv = straight_velocity(point(dx as int, dy as int), speed as int);
        assert(-2_000_000_000 <= sv.x <= 2_000_000_000 && -2_000_000_000 <= sv.y
            <= 2_000_000_000) by (nonlinear_arith)
            requires
                sv.x * sv.x + sv.y * sv.y <= speed * speed + 2 * magnitude(speed as int),
                within(speed as int, 1_000_000_000),
        ;
    }
    let x: i128 = div_trunc((dx * (speed as i128)) * (FINE as i128), len);
    let y: i128 = div_trunc((dy * (speed as i128)) * (FINE as i128), len);
    Vec2 { x: x as i64, y: y as i64 }
}

/// Computes the velocity that a projectile of the given `speed` leaves
/// `muzzle` with to hit a target that is at `target_position` and moves with
/// `target_velocity`, under vertical acceleration `gravity`.
pub fn predictive_aim(
    muzzle: Position,
    target_position: Position,
    target_velocity: Velocity,
    gravity: Coord,
    speed: Coord,
) -> (r: Velocity)
    requires
        aimable(point_of(muzzle), target_position, target_velocity, gravity as int, speed as int),
    ensures
        point_of(r) == launch_velocity(
            point_of(muzzle),
            target_position,
            target_velocity,
            gravity as int,
            speed as int,
        ),
        first_pass(point_of(muzzle), target_position, target_velocity, speed as int) != point(0, 0)
            || refined(
            point_of(muzzle),
            target_position,
            target_velocity,
            gravity as int,
            speed as int,
        ) is Some ==> at_speed(r.x as int, r.y as int, speed as int),
{
    let first = first_displacement(muzzle, target_position, target_velocity, speed);
    let found = match aim_parabollically(
        Vec2 { x: first.0 as i64, y: first.1 as i64 },
        gravity,
        speed,
    ) {
        Some((_, time)) => {
            let second = lead_by(target_position, target_velocity, time as i128);
            aim_parabollically(
                Vec2 {
                    x: (second.0 - muzzle.x as i128) as i64,
                    y: (second.1 - muzzle.y as i128) as i64,
                },
                gravity,
                speed,
            )
        },
        None => None,
    };
    match found {
        Some((v, _)) => v,
        None => {
            proof {
                if first.0 != 0 || first.1 != 0 {
                    lemma_straight_at_speed(point(first.0 as int, first.1 as int), speed as int);
                }
            }
            straight(first.0, first.1, speed)
        },
    }
}

} // verus!
