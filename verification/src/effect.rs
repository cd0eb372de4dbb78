//! Effects: one-shot descriptions of a change to the simulation.

use vstd::prelude::*;
use std::rc::Rc;
use crate::aiming::{
    aimable, first_pass, is_aimable, is_mountable, launch_velocity, mountable, muzzle,
    muzzle_position, predictive_aim, refined,
};
use crate::ballistics::at_speed;
use crate::context::{EffectContext, Who};
use crate::fixed::{point, point_of, signum, Coord, Hp, Position, Time, Vec2};
use crate::model::{
    clamp, to_animation, Animation, AnimationState, Collider, Logic, Particle, Projectile,
    ProjectileAI, Status, Unit,
};

verus! {

/// A change to the simulation. Processing an effect consumes it.
#[derive(Debug)]
pub enum Effect {
    Noop,
    Projectile(Box<ProjectileEffect>),
    Damage(Box<DamageEffect>),
    Heal(Box<HealEffect>),
    Dash(Box<DashEffect>),
}

/// Launches a projectile from the caster at the target.
#[derive(Debug)]
pub struct ProjectileEffect {
    /// Where the projectile leaves the caster, relative to the caster.
    pub offset: Position,
    pub ai: ProjectileAI,
    pub speed: Coord,
    /// What the projectile does to what it hits.
    pub on_hit: Effect,
    pub animation: Rc<Animation>,
}

/// The kind of a damage. It is carried along and decides nothing yet.
#[derive(Clone, Copy, Debug, PartialEq, Eq, Structural)]
pub enum DamageType {
    Physical,
    Energy,
    Explosive,
}

/// Takes health from the target.
#[derive(Clone, Copy, Debug)]
pub struct DamageEffect {
    pub damage_type: DamageType,
    pub value: Hp,
}

/// Gives health to the target.
#[derive(Clone, Copy, Debug)]
pub struct HealEffect {
    pub value: Hp,
}

/// Sends the caster dashing towards the target.
#[derive(Debug)]
pub struct DashEffect {
    pub speed: Coord,
    pub duration: Time,
    /// What the caster does to what it runs into.
    pub on_contact: Effect,
}

/// Hands out another pointer to a shared animation. This is [`Rc::clone`],
/// taken on trust: the new pointer leads to the same value as the old one.
#[verifier::external_body]
fn share(animation: &Rc<Animation>) -> (r: Rc<Animation>)
    ensures
        r == *animation,
{
    Rc::clone(animation)
}

impl Effect {
    /// An equal effect of its own; animations are shared, not copied.
    fn duplicate(&self) -> (r: Self)
        ensures
            r == *self,
        decreases self,
    {
        match self {
            Effect::Noop => Effect::Noop,
            Effect::Projectile(effect) => Effect::Projectile(Box::new(effect.duplicate())),
            Effect::Damage(effect) => Effect::Damage(Box::new(**effect)),
            Effect::Heal(effect) => Effect::Heal(Box::new(**effect)),
            Effect::Dash(effect) => Effect::Dash(Box::new(effect.duplicate())),
        }
    }
}

impl ProjectileEffect {
    /// An equal effect of its own; the animation is shared, not copied.
    fn duplicate(&self) -> (r: Self)
        ensures
            r == *self,
        decreases self,
    {
        ProjectileEffect {
            offset: self.offset,
            ai: self.ai,
            speed: self.speed,
            on_hit: self.on_hit.duplicate(),
            animation: share(&self.animation),
        }
    }
}

impl DashEffect {
    /// An equal effect of its own.
    fn duplicate(&self) -> (r: Self)
        ensures
            r == *self,
        decreases self,
    {
        DashEffect {
            speed: self.speed,
            duration: self.duration,
            on_contact: self.on_contact.duplicate(),
        }
    }
}

impl Clone for Effect {
    fn clone(&self) -> (r: Self)
        ensures
            r == *self,
    {
        self.duplicate()
    }
}

impl Clone for ProjectileEffect {
    fn clone(&self) -> (r: Self)
        ensures
            r == *self,
    {
        self.duplicate()
    }
}

impl Clone for DashEffect {
    fn clone(&self) -> (r: Self)
        ensures
            r == *self,
    {
        self.duplicate()
    }
}

/// How long a projectile lives: ten units of time.
pub const PROJECTILE_LIFETIME: Time = 10_000;

/// The side of a projectile's square collider: one unit of length.
pub const PROJECTILE_SIZE: Coord = 1_000;

/// The scale of the heal animation, on both axes.
pub const HEAL_SCALE: Coord = 2_000;

/// How long the heal animation plays: one unit of time.
pub const HEAL_DURATION: Time = 1_000;

/// Nothing but the units differs between `pre` and `post`.
pub open spec fn same_but_units(pre: Logic, post: Logic) -> bool {
    &&& post.model.projectiles == pre.model.projectiles
    &&& post.model.particles == pre.model.particles
    &&& post.model.id_gen == pre.model.id_gen
    &&& post.model.gravity == pre.model.gravity
    &&& post.model.assets == pre.model.assets
}

/// `post` holds the units of `pre`, each in its place, and none but the one
/// at place `i` differs.
pub open spec fn same_units_but(pre: Logic, post: Logic, i: int) -> bool {
    &&& post.model.units@.len() == pre.model.units@.len()
    &&& forall|j: int|
        0 <= j < pre.model.units@.len() && j != i ==> (#[trigger] post.model.units@[j])
            == pre.model.units@[j]
}

/// `after` is `before` with its health changed by `delta` and nothing else
/// touched.
pub open spec fn health_changed(before: Unit, after: Unit, delta: int) -> bool {
    after == (Unit { health: before.health.changed(delta), ..before })
}

impl ProjectileEffect {
    /// The velocity that the aim gives a projectile of this effect, cast by
    /// `caster` at `target` under the vertical acceleration `gravity`, can be
    /// computed (see [`mountable`] and [`aimable`]).
    pub open spec fn launchable(self, caster: Unit, target: Unit, gravity: int) -> bool {
        &&& mountable(self.offset, caster)
        &&& aimable(
            muzzle_position(self.offset, caster),
            target.position,
            target.velocity,
            gravity,
            self.speed as int,
        )
    }

    /// What processing asks of the state: the caster is there; and where the
    /// target is there too, so that a projectile will be spawned, a fresh
    /// identifier is left and the aim can be computed.
    pub open spec fn ready(self, context: EffectContext, logic: Logic) -> bool {
        let units = logic.model.units@;
        &&& context.resolves(Who::Caster, logic)
        &&& context.resolves(Who::Target, logic) ==> {
            &&& logic.model.id_gen.next_id < u64::MAX
            &&& self.launchable(
                units[context.place(Who::Caster, units)->0],
                units[context.place(Who::Target, units)->0],
                logic.model.gravity.y as int,
            )
        }
    }

    /// Tests whether the effect can be processed in the given state.
    pub fn is_ready(&self, context: &EffectContext, logic: &Logic) -> (r: bool)
        ensures
            r == self.ready(*context, *logic),
    {
        let caster = match context.get(Who::Caster, logic) {
            Some(caster) => caster,
            None => {
                return false;
            },
        };
        let target = match context.get(Who::Target, logic) {
            Some(target) => target,
            None => {
                return true;
            },
        };
        if logic.model.id_gen.next_id == u64::MAX || !is_mountable(self.offset, caster) {
            return false;
        }
        let position = muzzle(self.offset, caster);
        is_aimable(position, target.position, target.velocity, logic.model.gravity.y, self.speed)
    }

    /// `projectile` is what the effect spawns in the state `pre`: it leaves
    /// the muzzle with the velocity of the predictive aim, lives ten units of
    /// time behind a collider one unit square, and carries the effect's
    /// animation, steering tag and impact effect together with the
    /// identifiers of caster and target.
    pub open spec fn spawns(self, context: EffectContext, pre: Logic, projectile: Projectile) -> bool {
        let units = pre.model.units@;
        let caster = units[context.place(Who::Caster, units)->0];
        let target = units[context.place(Who::Target, units)->0];
        let muzzle = muzzle_position(self.offset, caster);
        &&& projectile.id == pre.model.id_gen.next_id
        &&& projectile.animation_state.animation == self.animation
        &&& projectile.animation_state.elapsed == 0
        &&& projectile.ai == self.ai
        &&& projectile.lifetime == PROJECTILE_LIFETIME
        &&& projectile.collider == (Collider::Aabb {
            size: Vec2 { x: PROJECTILE_SIZE, y: PROJECTILE_SIZE },
        })
        &&& projectile.on_hit == self.on_hit
        &&& projectile.caster == context.caster
        &&& projectile.target == context.target
        &&& point_of(projectile.position) == muzzle
        &&& point_of(projectile.velocity) == launch_velocity(
            muzzle,
            target.position,
            target.velocity,
            pre.model.gravity.y as int,
            self.speed as int,
        )
    }

    /// The aim has a direction: the solver finds a launch, or the point of
    /// the first pass is not the muzzle itself.
    pub open spec fn aims_somewhere(self, context: EffectContext, pre: Logic) -> bool {
        let units = pre.model.units@;
        let caster = units[context.place(Who::Caster, units)->0];
        let target = units[context.place(Who::Target, units)->0];
        let muzzle = muzzle_position(self.offset, caster);
        ||| first_pass(muzzle, target.position, target.velocity, self.speed as int) != point(0, 0)
        ||| refined(
            muzzle,
            target.position,
            target.velocity,
            pre.model.gravity.y as int,
            self.speed as int,
        ) is Some
    }

    /// What processing makes of the state `pre`: with a target, `post` is
    /// `pre` with one projectile more and the next identifier taken;
    /// without one, nothing changes.
    pub open spec fn outcome(self, context: EffectContext, pre: Logic, post: Logic) -> bool {
        if context.resolves(Who::Target, pre) {
            &&& post.model.units == pre.model.units
            &&& post.model.particles == pre.model.particles
            &&& post.model.gravity == pre.model.gravity
            &&& post.model.assets == pre.model.assets
            &&& post.model.id_gen.next_id == pre.model.id_gen.next_id + 1
            &&& post.model.projectiles@.len() == pre.model.projectiles@.len() + 1
            &&& post.model.projectiles@.drop_last() == pre.model.projectiles@
            &&& self.spawns(context, pre, post.model.projectiles@.last())
        } else {
            post == pre
        }
    }

    /// Spawns a projectile at the caster's muzzle, aimed at where the target
    /// will be. Without a target that is still in the simulation nothing
    /// happens and `None` is returned.
    pub fn process(self, context: EffectContext, logic: &mut Logic) -> (r: Option<()>)
        requires
            self.ready(context, *old(logic)),
        ensures
            self.outcome(context, *old(logic), *final(logic)),
            old(logic).model.wf() ==> final(logic).model.wf(),
            r is Some <==> context.resolves(Who::Target, *old(logic)),
            !context.resolves(Who::Target, *old(logic)) ==> *final(logic) == *old(logic),
            context.resolves(Who::Target, *old(logic)) && self.aims_somewhere(
                context,
                *old(logic),
            ) ==> at_speed(
                final(logic).model.projectiles@.last().velocity.x as int,
                final(logic).model.projectiles@.last().velocity.y as int,
                self.speed as int,
            ),
    {
        let caster = context.get_expect(Who::Caster, logic);
        let target = match context.get(Who::Target, logic) {
            Some(target) => target,
            None => {
                return None;
            },
        };
        let position = muzzle(self.offset, caster);
        let velocity = predictive_aim(
            position,
            target.position,
            target.velocity,
            logic.model.gravity.y,
            self.speed,
        );
        let id = logic.model.id_gen.gen();
        logic.model.projectiles.push(
            Projectile {
                id,
                animation_state: AnimationState::new(self.animation),
                ai: self.ai,
                lifetime: PROJECTILE_LIFETIME,
                collider: Collider::Aabb { size: Vec2 { x: PROJECTILE_SIZE, y: PROJECTILE_SIZE } },
                on_hit: self.on_hit,
                caster: context.caster,
                target: context.target,
                position,
                velocity,
            },
        );
        proof {
            assert(final(logic).model.projectiles@.drop_last() =~= old(logic).model.projectiles@);
        }
        Some(())
    }
}

impl DamageEffect {
    /// What processing asks of the state: the target is there.
    pub open spec fn ready(self, context: EffectContext, logic: Logic) -> bool {
        context.resolves(Who::Target, logic)
    }

    /// Tests whether the effect can be processed in the given state.
    pub fn is_ready(&self, context: &EffectContext, logic: &Logic) -> (r: bool)
        ensures
            r == self.ready(*context, *logic),
    {
        context.find(Who::Target, logic).is_some()
    }

    /// What processing makes of the state `pre`: the target's health
    /// changes by the negated value, within what the health admits, and
    /// nothing else changes.
    pub open spec fn outcome(self, context: EffectContext, pre: Logic, post: Logic) -> bool {
        let i = context.place(Who::Target, pre.model.units@)->0;
        &&& same_but_units(pre, post)
        &&& same_units_but(pre, post, i)
        &&& health_changed(pre.model.units@[i], post.model.units@[i], -self.value)
    }

    /// Takes the effect's value from the target's health.
    pub fn process(self, context: EffectContext, logic: &mut Logic)
        requires
            self.ready(context, *old(logic)),
        ensures
            self.outcome(context, *old(logic), *final(logic)),
            old(logic).model.wf() ==> final(logic).model.wf(),
            ({
                let i = context.place(Who::Target, old(logic).model.units@)->0;
                let before = old(logic).model.units@[i].health;
                final(logic).model.units@[i].health.hp == clamp(
                    before.hp - self.value,
                    0,
                    before.max_hp as int,
                )
            }),
    {
        let target = context.get_mut_expect(Who::Target, logic);
        target.health.change(-(self.value as i128));
    }
}

impl HealEffect {
    /// What processing asks of the state: the target is there and a fresh
    /// identifier is left for the particle.
    pub open spec fn ready(self, context: EffectContext, logic: Logic) -> bool {
        &&& context.resolves(Who::Target, logic)
        &&& logic.model.id_gen.next_id < u64::MAX
    }

    /// Tests whether the effect can be processed in the given state.
    pub fn is_ready(&self, context: &EffectContext, logic: &Logic) -> (r: bool)
        ensures
            r == self.ready(*context, *logic),
    {
        context.find(Who::Target, logic).is_some() && logic.model.id_gen.next_id < u64::MAX
    }

    /// `particle` is what the effect emits in the state `pre`: alive, at the
    /// target's position and following the target, playing the heal sprite
    /// sheet from its start at twice its size over one unit of time.
    pub open spec fn emits(self, context: EffectContext, pre: Logic, particle: Particle) -> bool {
        let units = pre.model.units@;
        let target = units[context.place(Who::Target, units)->0];
        &&& particle.id == pre.model.id_gen.next_id
        &&& particle.alive
        &&& particle.follow_unit == context.target
        &&& particle.position == target.position
        &&& particle.animation_state.elapsed == 0
        &&& *particle.animation_state.animation == (Animation {
            sheet: pre.model.assets.effects.heal,
            scale: Vec2 { x: HEAL_SCALE, y: HEAL_SCALE },
            duration: HEAL_DURATION,
        })
    }

    /// What processing makes of the state `pre`: the target's health changes
    /// by the value, within what the health admits; one particle is added
    /// and the next identifier taken; nothing else changes.
    pub open spec fn outcome(self, context: EffectContext, pre: Logic, post: Logic) -> bool {
        let i = context.place(Who::Target, pre.model.units@)->0;
        &&& same_units_but(pre, post, i)
        &&& health_changed(pre.model.units@[i], post.model.units@[i], self.value as int)
        &&& post.model.projectiles == pre.model.projectiles
        &&& post.model.gravity == pre.model.gravity
        &&& post.model.assets == pre.model.assets
        &&& post.model.id_gen.next_id == pre.model.id_gen.next_id + 1
        &&& post.model.particles@.len() == pre.model.particles@.len() + 1
        &&& post.model.particles@.drop_last() == pre.model.particles@
        &&& self.emits(context, pre, post.model.particles@.last())
    }

    /// Adds the effect's value to the target's health and emits a particle
    /// at the target.
    pub fn process(self, context: EffectContext, logic: &mut Logic)
        requires
            self.ready(context, *old(logic)),
        ensures
            self.outcome(context, *old(logic), *final(logic)),
            old(logic).model.wf() ==> final(logic).model.wf(),
            ({
                let i = context.place(Who::Target, old(logic).model.units@)->0;
                let before = old(logic).model.units@[i];
                &&& final(logic).model.units@[i].health.hp == clamp(
                    before.health.hp + self.value,
                    0,
                    before.health.max_hp as int,
                )
                &&& final(logic).model.particles@.len() == old(logic).model.particles@.len() + 1
                &&& final(logic).model.particles@.last().position == before.position
            }),
    {
        let target = context.get_mut_expect(Who::Target, logic);
        target.health.change(self.value as i128);
        let target_position = target.position;
        let animation = to_animation(
            &logic.model.assets.effects.heal,
            Vec2 { x: HEAL_SCALE, y: HEAL_SCALE },
            HEAL_DURATION,
        );
        let id = logic.model.id_gen.gen();
        logic.model.particles.push(
            Particle {
                id,
                alive: true,
                follow_unit: context.target,
                position: target_position,
                animation_state: AnimationState::new(animation),
            },
        );
        proof {
            assert(final(logic).model.particles@.drop_last() =~= old(logic).model.particles@);
        }
    }
}

impl DashEffect {
    /// What processing asks of the state: the caster is there. The speed
    /// must have a negative, which the least number of the machine has not.
    pub open spec fn ready(self, context: EffectContext, logic: Logic) -> bool {
        &&& context.resolves(Who::Caster, logic)
        &&& self.speed > i64::MIN
    }

    /// Tests whether the effect can be processed in the given state.
    pub fn is_ready(&self, context: &EffectContext, logic: &Logic) -> (r: bool)
        ensures
            r == self.ready(*context, *logic),
    {
        context.find(Who::Caster, logic).is_some() && self.speed > i64::MIN
    }

    /// The horizontal direction of the dash, `-1` or `1`: towards the
    /// target if there is one (to the right if it is straight above or
    /// below), else the way the caster faces.
    pub open spec fn direction(context: EffectContext, logic: Logic) -> int {
        let units = logic.model.units@;
        let caster = units[context.place(Who::Caster, units)->0];
        match context.place(Who::Target, units) {
            Some(t) => signum(units[t].position.x - caster.position.x),
            None => if caster.flip_sprite {
                -1
            } else {
                1
            },
        }
    }

    /// `after` is `before` sent dashing in `direction`: its velocity is
    /// horizontal at the effect's speed, and its statuses end in a new charge
    /// of the effect's duration that carries the contact effect.
    pub open spec fn dashes(self, before: Unit, after: Unit, direction: int) -> bool {
        &&& after.id == before.id
        &&& after.health == before.health
        &&& after.position == before.position
        &&& after.flip_sprite == before.flip_sprite
        &&& after.extra_render == before.extra_render
        &&& after.velocity.x == direction * self.speed
        &&& after.velocity.y == 0
        &&& after.statuses@ == before.statuses@.push(
            Status::Charge { time: self.duration, on_contact: self.on_contact },
        )
    }

    /// What processing makes of the state `pre`: the caster dashes, and
    /// nothing else changes.
    pub open spec fn outcome(self, context: EffectContext, pre: Logic, post: Logic) -> bool {
        let i = context.place(Who::Caster, pre.model.units@)->0;
        &&& same_but_units(pre, post)
        &&& same_units_but(pre, post, i)
        &&& self.dashes(pre.model.units@[i], post.model.units@[i], Self::direction(context, pre))
    }

    /// Sets the caster moving horizontally at the effect's speed and
    /// attaches a charge that carries the contact effect.
    pub fn process(self, context: EffectContext, logic: &mut Logic)
        requires
            self.ready(context, *old(logic)),
        ensures
            self.outcome(context, *old(logic), *final(logic)),
            old(logic).model.wf() ==> final(logic).model.wf(),
            !context.resolves(Who::Target, *old(logic)) ==> ({
                let i = context.place(Who::Caster, old(logic).model.units@)->0;
                let caster = final(logic).model.units@[i];
                &&& caster.velocity.x == (if old(logic).model.units@[i].flip_sprite {
                    -self.speed
                } else {
                    self.speed as int
                })
                &&& caster.statuses@.len() == old(logic).model.units@[i].statuses@.len() + 1
                &&& caster.statuses@.last() == (Status::Charge {
                    time: self.duration,
                    on_contact: self.on_contact,
                })
            }),
    {
        let target_x = match context.get(Who::Target, logic) {
            Some(unit) => Some(unit.position.x),
            None => None,
        };
        let caster = context.get_mut_expect(Who::Caster, logic);
        let towards_left = match target_x {
            Some(x) => x < caster.position.x,
            None => caster.flip_sprite,
        };
        let speed = if towards_left {
            -self.speed
        } else {
            self.speed
        };
        caster.velocity = Vec2 { x: speed, y: 0 };
        caster.statuses.push(Status::Charge { time: self.duration, on_contact: self.on_contact });
    }
}

impl Effect {
    /// What processing asks of the state, variant by variant; `Noop` asks
    /// nothing.
    pub open spec fn ready(self, context: EffectContext, logic: Logic) -> bool {
        match self {
            Effect::Noop => true,
            Effect::Projectile(effect) => effect.ready(context, logic),
            Effect::Damage(effect) => effect.ready(context, logic),
            Effect::Heal(effect) => effect.ready(context, logic),
            Effect::Dash(effect) => effect.ready(context, logic),
        }
    }

    /// Tests whether the effect can be processed in the given state.
    pub fn is_ready(&self, context: &EffectContext, logic: &Logic) -> (r: bool)
        ensures
            r == self.ready(*context, *logic),
    {
        match self {
            Effect::Noop => true,
            Effect::Projectile(effect) => effect.is_ready(context, logic),
            Effect::Damage(effect) => effect.is_ready(context, logic),
            Effect::Heal(effect) => effect.is_ready(context, logic),
            Effect::Dash(effect) => effect.is_ready(context, logic),
        }
    }

    /// What processing makes of the state `pre`, variant by variant;
    /// `Noop` changes nothing.
    pub open spec fn outcome(self, context: EffectContext, pre: Logic, post: Logic) -> bool {
        match self {
            Effect::Noop => post == pre,
            Effect::Projectile(effect) => effect.outcome(context, pre, post),
            Effect::Damage(effect) => effect.outcome(context, pre, post),
            Effect::Heal(effect) => effect.outcome(context, pre, post),
            Effect::Dash(effect) => effect.outcome(context, pre, post),
        }
    }

    /// Applies the effect to the state, once.
    pub fn process(self, context: EffectContext, logic: &mut Logic)
        requires
            self.ready(context, *old(logic)),
        ensures
            self.outcome(context, *old(logic), *final(logic)),
            old(logic).model.wf() ==> final(logic).model.wf(),
    {
        match self {
            Effect::Noop => {},
            Effect::Projectile(effect) => {
                effect.process(context, logic);
            },
            Effect::Damage(effect) => {
                effect.process(context, logic);
            },
            Effect::Heal(effect) => {
                effect.process(context, logic);
            },
            Effect::Dash(effect) => {
                effect.process(context, logic);
            },
        }
    }
}

} // verus!
