//! Who an effect is about: the roles of caster and target, and their
//! resolution to live units.

use vstd::prelude::*;
use crate::model::{lemma_unit_index_holds, unit_index, Id, Logic, Unit};

verus! {

/// A role that an effect refers to.
#[derive(Clone, Copy, Debug, PartialEq, Eq, Structural)]
pub enum Who {
    Caster,
    Target,
}

/// The entities that play the roles of an effect. The roles are resolved
/// against the simulation each time they are looked up, so a unit that has
/// left the simulation is simply not found.
#[derive(Clone, Copy, Debug)]
pub struct EffectContext {
    pub caster: Id,
    pub target: Option<Id>,
}

impl EffectContext {
    /// The identifier that plays the role `who`, if the role is filled.
    pub open spec fn id_of(self, who: Who) -> Option<Id> {
        match who {
            Who::Caster => Some(self.caster),
            Who::Target => self.target,
        }
    }

    /// The place in `units` of the unit that plays the role `who`, if the
    /// role is filled and the unit is there.
    pub open spec fn place(self, who: Who, units: Seq<Unit>) -> Option<int> {
        match self.id_of(who) {
            Some(id) => unit_index(units, id),
            None => None,
        }
    }

    /// The role `who` resolves to a live unit.
    pub open spec fn resolves(self, who: Who, logic: Logic) -> bool {
        self.place(who, logic.model.units@) is Some
    }

    /// A role resolves exactly if it is filled and some unit of the
    /// simulation has its identifier; it then resolves to a unit with that
    /// identifier.
    pub proof fn lemma_resolves(self, who: Who, logic: Logic)
        ensures
            self.resolves(who, logic) <==> self.id_of(who) is Some && exists|i: int|
                0 <= i < logic.model.units@.len() && (#[trigger] logic.model.units@[i]).id
                    == self.id_of(who)->0,
            self.place(who, logic.model.units@) matches Some(i) ==> 0 <= i
                < logic.model.units@.len() && Some(logic.model.units@[i].id) == self.id_of(who),
    {
        if self.id_of(who) is Some {
            lemma_unit_index_holds(logic.model.units@, self.id_of(who)->0);
        }
    }

    /// The identifier that plays the role `who`, if the role is filled.
    pub fn get_id(&self, who: Who) -> (r: Option<Id>)
        ensures
            r == self.id_of(who),
    {
        match who {
            Who::Caster => Some(self.caster),
            Who::Target => self.target,
        }
    }

    /// Finds the place of the unit that plays the role `who`.
    pub fn find(&self, who: Who, logic: &Logic) -> (r: Option<usize>)
        ensures
            r matches Some(i) ==> self.place(who, logic.model.units@) == Some(i as int) && i
                < logic.model.units@.len() && Some(logic.model.units@[i as int].id) == self.id_of(
                who,
            ),
            r is None ==> self.place(who, logic.model.units@) is None,
    {
        match self.get_id(who) {
            Some(id) => logic.model.index_of(id),
            None => None,
        }
    }

    /// Soft lookup: the unit that plays the role `who`, or nothing if the
    /// role is empty or the unit is no longer in the simulation.
    pub fn get<'a>(&self, who: Who, logic: &'a Logic) -> (r: Option<&'a Unit>)
        ensures
            match self.place(who, logic.model.units@) {
                Some(i) => r == Some(&logic.model.units@[i]),
                None => r is None,
            },
            r is Some <==> self.resolves(who, *logic),
            r matches Some(unit) ==> Some(unit.id) == self.id_of(who),
    {
        proof {
            self.lemma_resolves(who, *logic);
        }
        match self.find(who, logic) {
            Some(i) => Some(&logic.model.units[i]),
            None => None,
        }
    }

    /// Hard lookup: the unit that plays the role `who`, which the caller
    /// knows to be there.
    pub fn get_expect<'a>(&self, who: Who, logic: &'a Logic) -> (r: &'a Unit)
        requires
            self.resolves(who, *logic),
        ensures
            *r == logic.model.units@[self.place(who, logic.model.units@)->0],
    {
        match self.find(who, logic) {
            Some(i) => &logic.model.units[i],
            None => unreached(),
        }
    }

    /// Hard lookup for mutation: the unit that plays the role `who`, which
    /// the caller knows to be there. Nothing but that unit can change
    /// through the reference.
    pub fn get_mut_expect<'a>(&self, who: Who, logic: &'a mut Logic) -> (r: &'a mut Unit)
        requires
            self.resolves(who, *old(logic)),
        ensures
            *r == old(logic).model.units@[self.place(who, old(logic).model.units@)->0],
            final(logic).model.units@ == old(logic).model.units@.update(
                self.place(who, old(logic).model.units@)->0,
                *final(r),
            ),
            final(logic).model.projectiles == old(logic).model.projectiles,
            final(logic).model.particles == old(logic).model.particles,
            final(logic).model.id_gen == old(logic).model.id_gen,
            final(logic).model.gravity == old(logic).model.gravity,
            final(logic).model.assets == old(logic).model.assets,
    {
        match self.find(who, logic) {
            Some(i) => &mut logic.model.units[i],
            None => unreached(),
        }
    }
}

} // verus!
