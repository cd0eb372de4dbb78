//! The simulation state that effects act on.
//!
//! The engine owns none of this data: a host builds a [`Logic`], hands it to
//! an effect for one mutation pass, and reads the outcome back. The types
//! hold exactly what the effect processors read or write.

use vstd::prelude::*;
use std::rc::Rc;
use crate::effect::Effect;
use crate::fixed::{within, Coord, Hp, Position, Time, Vec2, Velocity, SCALE};

verus! {

/// The identifier of an entity. Identifiers are issued in increasing order
/// and never reused.
pub type Id = u64;

/// Both components of `v` lie within `limit` of zero.
pub open spec fn bounded(v: Vec2, limit: int) -> bool {
    within(v.x as int, limit) && within(v.y as int, limit)
}

/// `x` confined to the interval from `low` to `high`.
pub open spec fn clamp(x: int, low: int, high: int) -> int {
    if x < low {
        low
    } else if x > high {
        high
    } else {
        x
    }
}

/// The source of fresh entity identifiers.
#[derive(Debug)]
pub struct IdGen {
    pub next_id: Id,
}

impl IdGen {
    /// A generator that has issued nothing yet.
    pub fn new() -> (r: Self)
        ensures
            r.next_id == 0,
    {
        IdGen { next_id: 0 }
    }

    /// Issues the next identifier.
    pub fn gen(&mut self) -> (id: Id)
        requires
            old(self).next_id < u64::MAX,
        ensures
            id == old(self).next_id,
            final(self).next_id == id + 1,
    {
        let id = self.next_id;
        self.next_id = id + 1;
        id
    }
}

/// The health of a unit: never negative and never above its maximum.
#[derive(Clone, Copy, Debug)]
pub struct Health {
    pub hp: Hp,
    pub max_hp: Hp,
}

impl Health {
    /// The health is not negative and not above its maximum.
    pub open spec fn wf(self) -> bool {
        0 <= self.hp <= self.max_hp
    }

    /// The health after a change by `delta`.
    pub open spec fn changed(self, delta: int) -> Health {
        Health { hp: clamp(self.hp + delta, 0, self.max_hp as int) as Hp, max_hp: self.max_hp }
    }

    /// Tests the invariant.
    pub fn is_wf(&self) -> (r: bool)
        ensures
            r == self.wf(),
    {
        0 <= self.hp && self.hp <= self.max_hp
    }

    /// Full health with the given maximum.
    pub fn new(max_hp: Hp) -> (r: Self)
        requires
            max_hp >= 0,
        ensures
            r.wf(),
            r.hp == max_hp,
            r.max_hp == max_hp,
    {
        Health { hp: max_hp, max_hp }
    }

    /// Adds `delta` to the health and confines the result to the interval
    /// from zero to the maximum. The delta is wide so that the negation of
    /// any amount can be passed.
    pub fn change(&mut self, delta: i128)
        requires
            within(delta as int, i64::MAX as int + 1),
        ensures
            *final(self) == old(self).changed(delta as int),
            old(self).wf() ==> final(self).wf(),
            final(self).hp == clamp(old(self).hp + delta, 0, old(self).max_hp as int),
    {
        let raw: i128 = self.hp as i128 + delta;
        if raw < 0 {
            self.hp = 0;
        } else if raw > self.max_hp as i128 {
            self.hp = self.max_hp;
        } else {
            self.hp = raw as i64;
        }
    }
}

/// A direction given by its cosine and sine, each between `-1` and `1`.
#[derive(Clone, Copy, Debug)]
pub struct Rotation {
    pub cos: Coord,
    pub sin: Coord,
}

impl Rotation {
    /// Cosine and sine lie between `-1` and `1`.
    pub open spec fn wf(self) -> bool {
        within(self.cos as int, SCALE as int) && within(self.sin as int, SCALE as int)
    }

    /// Tests the invariant.
    pub fn is_wf(&self) -> (r: bool)
        ensures
            r == self.wf(),
    {
        -SCALE <= self.cos && self.cos <= SCALE && -SCALE <= self.sin && self.sin <= SCALE
    }
}

/// What a unit shows beyond its body and where a weapon is anchored on it.
#[derive(Clone, Copy, Debug)]
pub enum ExtraUnitRender {
    Tank { hand_pos: Position, weapon_pos: Position, shoot_pos: Position, rotation: Rotation },
}

/// A timed attachment on a unit.
#[derive(Debug)]
pub enum Status {
    /// The unit is dashing for `time` more; `on_contact` waits for a collision.
    Charge { time: Time, on_contact: Effect },
}

/// A live unit of the simulation.
#[derive(Debug)]
pub struct Unit {
    pub id: Id,
    pub health: Health,
    pub position: Position,
    pub velocity: Velocity,
    pub flip_sprite: bool,
    pub statuses: Vec<Status>,
    pub extra_render: Option<ExtraUnitRender>,
}

impl Unit {
    /// The health of the unit is well formed.
    pub open spec fn wf(self) -> bool {
        self.health.wf()
    }

    /// Tests the invariant.
    pub fn is_wf(&self) -> (r: bool)
        ensures
            r == self.wf(),
    {
        self.health.is_wf()
    }
}

/// A sprite sheet of the host's asset store.
#[derive(Clone, Copy, Debug)]
pub struct SpriteSheet {
    pub key: u64,
}

/// An animation template: a sprite sheet drawn at a scale over a duration.
#[derive(Clone, Copy, Debug)]
pub struct Animation {
    pub sheet: SpriteSheet,
    pub scale: Vec2,
    pub duration: Time,
}

/// The playback of an animation, from its template and the time played.
#[derive(Debug)]
pub struct AnimationState {
    pub animation: Rc<Animation>,
    pub elapsed: Time,
}

impl AnimationState {
    /// The playback of `animation` at its start.
    pub fn new(animation: Rc<Animation>) -> (r: Self)
        ensures
            r.animation == animation,
            r.elapsed == 0,
    {
        AnimationState { animation, elapsed: 0 }
    }
}

/// Makes an animation template out of a sprite sheet.
pub fn to_animation(sheet: &SpriteSheet, scale: Vec2, duration: Time) -> (r: Rc<Animation>)
    ensures
        *r == (Animation { sheet: *sheet, scale, duration }),
{
    Rc::new(Animation { sheet: *sheet, scale, duration })
}

/// The sprite sheets of the effects.
#[derive(Clone, Copy, Debug)]
pub struct EffectAssets {
    pub heal: SpriteSheet,
}

/// The assets that the engine draws on.
#[derive(Clone, Copy, Debug)]
pub struct Assets {
    pub effects: EffectAssets,
}

/// How a projectile steers once it is in flight.
#[derive(Clone, Copy, Debug, PartialEq, Eq, Structural)]
pub enum ProjectileAI {
    Idle,
    Homing,
}

/// The shape that an entity collides with.
#[derive(Clone, Copy, Debug)]
pub enum Collider {
    Aabb { size: Vec2 },
}

/// A moving entity that carries an effect to be triggered on impact.
#[derive(Debug)]
pub struct Projectile {
    pub id: Id,
    pub animation_state: AnimationState,
    pub ai: ProjectileAI,
    pub lifetime: Time,
    pub collider: Collider,
    pub on_hit: Effect,
    pub caster: Id,
    pub target: Option<Id>,
    pub position: Position,
    pub velocity: Velocity,
}

/// A cosmetic entity.
#[derive(Debug)]
pub struct Particle {
    pub id: Id,
    pub alive: bool,
    pub follow_unit: Option<Id>,
    pub position: Position,
    pub animation_state: AnimationState,
}

/// The entities of the simulation and what they share.
#[derive(Debug)]
pub struct Model {
    pub id_gen: IdGen,
    pub gravity: Vec2,
    pub assets: Assets,
    pub units: Vec<Unit>,
    pub projectiles: Vec<Projectile>,
    pub particles: Vec<Particle>,
}

impl Model {
    /// The invariant of the simulation state: the health of every unit is
    /// well formed, and the identifiers are unique among all entities and
    /// below the generator's next one.
    pub open spec fn wf(self) -> bool {
        &&& forall|i: int| 0 <= i < self.units@.len() ==> (#[trigger] self.units@[i]).wf()
        &&& self.ids_wf()
    }

    /// The identifiers are unique among all entities and below the
    /// generator's next one.
    pub open spec fn ids_wf(self) -> bool {
        &&& fresh_from(self.units@, self.projectiles@, self.particles@, self.id_gen.next_id)
        &&& forall|i: int, j: int|
            0 <= i < j < self.units@.len() ==> (#[trigger] self.units@[i]).id != (
            #[trigger] self.units@[j]).id
        &&& forall|i: int, j: int|
            0 <= i < j < self.projectiles@.len() ==> (#[trigger] self.projectiles@[i]).id != (
            #[trigger] self.projectiles@[j]).id
        &&& forall|i: int, j: int|
            0 <= i < j < self.particles@.len() ==> (#[trigger] self.particles@[i]).id != (
            #[trigger] self.particles@[j]).id
        &&& forall|i: int, j: int|
            0 <= i < self.units@.len() && 0 <= j < self.projectiles@.len() ==> (
            #[trigger] self.units@[i]).id != (#[trigger] self.projectiles@[j]).id
        &&& forall|i: int, j: int|
            0 <= i < self.units@.len() && 0 <= j < self.particles@.len() ==> (
            #[trigger] self.units@[i]).id != (#[trigger] self.particles@[j]).id
        &&& forall|i: int, j: int|
            0 <= i < self.projectiles@.len() && 0 <= j < self.particles@.len() ==> (
            #[trigger] self.projectiles@[i]).id != (#[trigger] self.particles@[j]).id
    }
}

/// Every identifier in use is below `next`.
pub open spec fn fresh_from(
    units: Seq<Unit>,
    projectiles: Seq<Projectile>,
    particles: Seq<Particle>,
    next: Id,
) -> bool {
    &&& forall|i: int| 0 <= i < units.len() ==> (#[trigger] units[i]).id < next
    &&& forall|i: int| 0 <= i < projectiles.len() ==> (#[trigger] projectiles[i]).id < next
    &&& forall|i: int| 0 <= i < particles.len() ==> (#[trigger] particles[i]).id < next
}

/// `i` is the place of the first unit with identifier `id`.
pub open spec fn is_unit_index(units: Seq<Unit>, id: Id, i: int) -> bool {
    &&& 0 <= i < units.len()
    &&& units[i].id == id
    &&& forall|j: int| 0 <= j < i ==> (#[trigger] units[j]).id != id
}

/// The place of the first unit with identifier `id`, if any unit has it.
pub open spec fn unit_index(units: Seq<Unit>, id: Id) -> Option<int> {
    if exists|i: int| is_unit_index(units, id, i) {
        Some(choose|i: int| is_unit_index(units, id, i))
    } else {
        None
    }
}

/// The first place with an identifier is the only one.
pub proof fn lemma_unit_index_found(units: Seq<Unit>, id: Id, i: int)
    requires
        is_unit_index(units, id, i),
    ensures
        unit_index(units, id) == Some(i),
{
    let c = choose|c: int| is_unit_index(units, id, c);
    assert(is_unit_index(units, id, c));
    if c < i {
        assert(units[c].id != id);
    } else if i < c {
        assert(units[i].id != id);
    }
}

/// No place is found exactly if no unit has the identifier.
pub proof fn lemma_unit_index_absent(units: Seq<Unit>, id: Id)
    requires
        forall|j: int| 0 <= j < units.len() ==> (#[trigger] units[j]).id != id,
    ensures
        unit_index(units, id) is None,
{
    if exists|i: int| is_unit_index(units, id, i) {
        let i = choose|i: int| is_unit_index(units, id, i);
        assert(units[i].id != id);
    }
}

/// What [`unit_index`] finds: the first place with the identifier if some
/// unit has it, nothing if none has.
pub proof fn lemma_unit_index_holds(units: Seq<Unit>, id: Id)
    ensures
        unit_index(units, id) matches Some(i) ==> is_unit_index(units, id, i),
        unit_index(units, id) is None <==> forall|j: int|
            0 <= j < units.len() ==> (#[trigger] units[j]).id != id,
{
    if unit_index(units, id) is None {
        assert forall|j: int| 0 <= j < units.len() implies (#[trigger] units[j]).id != id by {
            if units[j].id == id {
                lemma_some_unit_is_first(units, id, j);
            }
        }
    } else {
        let i = unit_index(units, id)->0;
        assert(is_unit_index(units, id, i));
        assert(units[i].id == id);
    }
}

/// If some unit has the identifier then there is a first one.
proof fn lemma_some_unit_is_first(units: Seq<Unit>, id: Id, j: int)
    requires
        0 <= j < units.len(),
        units[j].id == id,
    ensures
        exists|i: int| is_unit_index(units, id, i),
    decreases j,
{
    if exists|k: int| 0 <= k < j && units[k].id == id {
        let k = choose|k: int| 0 <= k < j && units[k].id == id;
        lemma_some_unit_is_first(units, id, k);
    } else {
        assert(is_unit_index(units, id, j));
    }
}

impl Model {
    /// Finds the place of the unit with identifier `id`.
    pub fn index_of(&self, id: Id) -> (r: Option<usize>)
        ensures
            r matches Some(i) ==> unit_index(self.units@, id) == Some(i as int),
            r is None ==> unit_index(self.units@, id) is None,
            r matches Some(i) ==> i < self.units@.len() && self.units@[i as int].id == id,
            r is None <==> forall|j: int|
                0 <= j < self.units@.len() ==> (#[trigger] self.units@[j]).id != id,
    {
        proof {
            lemma_unit_index_holds(self.units@, id);
        }
        let mut i: usize = 0;
        while i < self.units.len()
            invariant
                i <= self.units@.len(),
                forall|j: int| 0 <= j < i ==> (#[trigger] self.units@[j]).id != id,
            decreases self.units@.len() - i,
        {
            if self.units[i].id == id {
                proof {
                    lemma_unit_index_found(self.units@, id, i as int);
                }
                return Some(i);
            }
            i = i + 1;
        }
        proof {
            lemma_unit_index_absent(self.units@, id);
        }
        None
    }
}

/// Tests that no identifier occurs twice in `ids`.
fn all_distinct(ids: &Vec<Id>) -> (r: bool)
    ensures
        r == forall|i: int, j: int| 0 <= i < j < ids@.len() ==> ids@[i] != ids@[j],
{
    let mut j: usize = 0;
    while j < ids.len()
        invariant
            j <= ids@.len(),
            forall|a: int, b: int| 0 <= a < b < j ==> ids@[a] != ids@[b],
        decreases ids@.len() - j,
    {
        let mut i: usize = 0;
        while i < j
            invariant
                i <= j < ids@.len(),
                forall|a: int| 0 <= a < i ==> ids@[a] != ids@[j as int],
            decreases j - i,
        {
            if ids[i] == ids[j] {
                return false;
            }
            i = i + 1;
        }
        j = j + 1;
    }
    true
}

/// Tests that every identifier in `ids` is below `next`.
fn all_below(ids: &Vec<Id>, next: Id) -> (r: bool)
    ensures
        r == forall|i: int| 0 <= i < ids@.len() ==> ids@[i] < next,
{
    let mut i: usize = 0;
    while i < ids.len()
        invariant
            i <= ids@.len(),
            forall|a: int| 0 <= a < i ==> ids@[a] < next,
        decreases ids@.len() - i,
    {
        if ids[i] >= next {
            return false;
        }
        i = i + 1;
    }
    true
}

impl Model {
    /// The identifiers of all entities: units first, then projectiles, then
    /// particles.
    pub open spec fn ids(self) -> Seq<Id> {
        self.units@.map_values(|u: Unit| u.id) + self.projectiles@.map_values(
            |p: Projectile| p.id,
        ) + self.particles@.map_values(|p: Particle| p.id)
    }

    /// Collects the identifiers of all entities.
    pub fn entity_ids(&self) -> (ids: Vec<Id>)
        ensures
            ids@ == self.ids(),
    {
        let mut ids: Vec<Id> = Vec::new();
        let mut i: usize = 0;
        while i < self.units.len()
            invariant
                i <= self.units@.len(),
                ids@ == self.units@.take(i as int).map_values(|u: Unit| u.id),
            decreases self.units@.len() - i,
        {
            ids.push(self.units[i].id);
            i = i + 1;
            assert(ids@ =~= self.units@.take(i as int).map_values(|u: Unit| u.id));
        }
        assert(self.units@.take(i as int) =~= self.units@);
        let mut i: usize = 0;
        while i < self.projectiles.len()
            invariant
                i <= self.projectiles@.len(),
                ids@ == self.units@.map_values(|u: Unit| u.id) + self.projectiles@.take(
                    i as int,
                ).map_values(|p: Projectile| p.id),
            decreases self.projectiles@.len() - i,
        {
            ids.push(self.projectiles[i].id);
            i = i + 1;
            assert(ids@ =~= self.units@.map_values(|u: Unit| u.id) + self.projectiles@.take(
                i as int,
            ).map_values(|p: Projectile| p.id));
        }
        assert(self.projectiles@.take(i as int) =~= self.projectiles@);
        let mut i: usize = 0;
        while i < self.particles.len()
            invariant
                i <= self.particles@.len(),
                ids@ == self.units@.map_values(|u: Unit| u.id) + self.projectiles@.map_values(
                    |p: Projectile| p.id,
                ) + self.particles@.take(i as int).map_values(|p: Particle| p.id),
            decreases self.particles@.len() - i,
        {
            ids.push(self.particles[i].id);
            i = i + 1;
            assert(ids@ =~= self.units@.map_values(|u: Unit| u.id)
                + self.projectiles@.map_values(|p: Projectile| p.id) + self.particles@.take(
                i as int,
            ).map_values(|p: Particle| p.id));
        }
        assert(self.particles@.take(i as int) =~= self.particles@);
        ids
    }

    /// The identifiers are unique among all entities and below the
    /// generator's next one exactly if that holds of [`Model::ids`].
    pub proof fn lemma_ids(self)
        ensures
            ({
                &&& forall|i: int, j: int|
                    0 <= i < j < self.ids().len() ==> self.ids()[i] != self.ids()[j]
                &&& forall|i: int| 0 <= i < self.ids().len() ==> self.ids()[i] < self.id_gen.next_id
            }) <==> self.ids_wf(),
    {
        let ids = self.ids();
        let nu = self.units@.len() as int;
        let np = self.projectiles@.len() as int;
        let nq = self.particles@.len() as int;
        assert(ids.len() == nu + np + nq);
        assert forall|k: int| 0 <= k < nu implies #[trigger] ids[k] == self.units@[k].id by {}
        assert forall|k: int| 0 <= k < np implies #[trigger] ids[nu + k]
            == self.projectiles@[k].id by {}
        assert forall|k: int| 0 <= k < nq implies #[trigger] ids[nu + np + k]
            == self.particles@[k].id by {}
        if self.ids_wf() {
            assert forall|i: int, j: int| 0 <= i < j < ids.len() implies ids[i] != ids[j] by {
                if j < nu {
                    assert(self.units@[i].id != self.units@[j].id);
                } else if j < nu + np {
                    assert(ids[j] == ids[nu + (j - nu)]);
                    if i < nu {
                        assert(self.units@[i].id != self.projectiles@[j - nu].id);
                    } else {
                        assert(ids[i] == ids[nu + (i - nu)]);
                        assert(self.projectiles@[i - nu].id != self.projectiles@[j - nu].id);
                    }
                } else {
                    assert(ids[j] == ids[nu + np + (j - nu - np)]);
                    if i < nu {
                        assert(self.units@[i].id != self.particles@[j - nu - np].id);
                    } else if i < nu + np {
                        assert(ids[i] == ids[nu + (i - nu)]);
                        assert(self.projectiles@[i - nu].id != self.particles@[j - nu - np].id);
                    } else {
                        assert(ids[i] == ids[nu + np + (i - nu - np)]);
                        assert(self.particles@[i - nu - np].id != self.particles@[j - nu - np].id);
                    }
                }
            }
            assert forall|i: int| 0 <= i < ids.len() implies ids[i] < self.id_gen.next_id by {
                if i < nu {
                    assert(self.units@[i].id < self.id_gen.next_id);
                } else if i < nu + np {
                    assert(ids[i] == ids[nu + (i - nu)]);
                    assert(self.projectiles@[i - nu].id < self.id_gen.next_id);
                } else {
                    assert(ids[i] == ids[nu + np + (i - nu - np)]);
                    assert(self.particles@[i - nu - np].id < self.id_gen.next_id);
                }
            }
        }
        if (forall|i: int, j: int| 0 <= i < j < ids.len() ==> ids[i] != ids[j]) && (forall|i: int|
            0 <= i < ids.len() ==> ids[i] < self.id_gen.next_id) {
            assert forall|i: int| 0 <= i < nu implies (#[trigger] self.units@[i]).id
                < self.id_gen.next_id by {
                assert(ids[i] < self.id_gen.next_id);
            }
            assert forall|i: int| 0 <= i < np implies (#[trigger] self.projectiles@[i]).id
                < self.id_gen.next_id by {
                assert(ids[nu + i] < self.id_gen.next_id);
            }
            assert forall|i: int| 0 <= i < nq implies (#[trigger] self.particles@[i]).id
                < self.id_gen.next_id by {
                assert(ids[nu + np + i] < self.id_gen.next_id);
            }
            assert forall|i: int, j: int| 0 <= i < j < nu implies (#[trigger] self.units@[i]).id
                != (#[trigger] self.units@[j]).id by {
                assert(ids[i] != ids[j]);
            }
            assert forall|i: int, j: int| 0 <= i < j < np implies (
            #[trigger] self.projectiles@[i]).id != (#[trigger] self.projectiles@[j]).id by {
                assert(ids[nu + i] != ids[nu + j]);
            }
            assert forall|i: int, j: int| 0 <= i < j < nq implies (
            #[trigger] self.particles@[i]).id != (#[trigger] self.particles@[j]).id by {
                assert(ids[nu + np + i] != ids[nu + np + j]);
            }
            assert forall|i: int, j: int| 0 <= i < nu && 0 <= j < np implies (
            #[trigger] self.units@[i]).id != (#[trigger] self.projectiles@[j]).id by {
                assert(ids[i] != ids[nu + j]);
            }
            assert forall|i: int, j: int| 0 <= i < nu && 0 <= j < nq implies (
            #[trigger] self.units@[i]).id != (#[trigger] self.particles@[j]).id by {
                assert(ids[i] != ids[nu + np + j]);
            }
            assert forall|i: int, j: int| 0 <= i < np && 0 <= j < nq implies (
            #[trigger] self.projectiles@[i]).id != (#[trigger] self.particles@[j]).id by {
                assert(ids[nu + i] != ids[nu + np + j]);
            }
        }
    }

    /// Tests the invariant of the simulation state.
    pub fn is_wf(&self) -> (r: bool)
        ensures
            r == self.wf(),
    {
        let mut i: usize = 0;
        while i < self.units.len()
            invariant
                i <= self.units@.len(),
                forall|k: int| 0 <= k < i ==> (#[trigger] self.units@[k]).wf(),
            decreases self.units@.len() - i,
        {
            if !self.units[i].is_wf() {
                return false;
            }
            i = i + 1;
        }
        let ids = self.entity_ids();
        proof {
            self.lemma_ids();
        }
        all_distinct(&ids) && all_below(&ids, self.id_gen.next_id)
    }
}

/// The state that an effect is processed against.
#[derive(Debug)]
pub struct Logic {
    pub model: Model,
}

} // verus!
