use combat_effects::context::{EffectContext, Who};
use combat_effects::effect::{
    DamageEffect, DamageType, DashEffect, Effect, HealEffect, ProjectileEffect,
    PROJECTILE_LIFETIME,
};
use combat_effects::fixed::Vec2;
use combat_effects::model::{
    Animation, Assets, Collider, EffectAssets, ExtraUnitRender, Health, IdGen, Logic, Model,
    ProjectileAI, Rotation, SpriteSheet, Status, Unit,
};
use std::rc::Rc;

const CASTER: u64 = 3;
const TARGET: u64 = 8;
const BYSTANDER: u64 = 5;

fn unit(id: u64, x: i64, y: i64) -> Unit {
    Unit {
        id,
        health: Health { hp: 50_000, max_hp: 100_000 },
        position: Vec2 { x, y },
        velocity: Vec2 { x: 0, y: 0 },
        flip_sprite: false,
        statuses: Vec::new(),
        extra_render: None,
    }
}

fn logic_with(units: Vec<Unit>) -> Logic {
    Logic {
        model: Model {
            id_gen: IdGen { next_id: 100 },
            gravity: Vec2 { x: 0, y: -1_000 },
            assets: Assets { effects: EffectAssets { heal: SpriteSheet { key: 42 } } },
            units,
            projectiles: Vec::new(),
            particles: Vec::new(),
        },
    }
}

fn duel() -> Logic {
    logic_with(vec![unit(CASTER, 0, 0), unit(BYSTANDER, -4_000, 0), unit(TARGET, 10_000, 0)])
}

fn context() -> EffectContext {
    EffectContext { caster: CASTER, target: Some(TARGET) }
}

fn bullet(speed: i64, on_hit: Effect) -> ProjectileEffect {
    ProjectileEffect {
        offset: Vec2 { x: 0, y: 0 },
        ai: ProjectileAI::Homing,
        speed,
        on_hit,
        animation: Rc::new(Animation {
            sheet: SpriteSheet { key: 7 },
            scale: Vec2 { x: 1_000, y: 1_000 },
            duration: 500,
        }),
    }
}

fn damage(value: i64) -> DamageEffect {
    DamageEffect { damage_type: DamageType::Physical, value }
}

fn hp_of(logic: &Logic, id: u64) -> i64 {
    logic.model.units.iter().find(|u| u.id == id).unwrap().health.hp
}

#[test]
fn damage_takes_the_value_from_the_target() {
    let mut logic = duel();
    assert!(damage(20_000).is_ready(&context(), &logic));
    damage(20_000).process(context(), &mut logic);
    assert_eq!(hp_of(&logic, TARGET), 30_000);
    assert_eq!(hp_of(&logic, CASTER), 50_000);
    assert_eq!(hp_of(&logic, BYSTANDER), 50_000);
    assert_eq!(logic.model.units.len(), 3);
    assert_eq!(logic.model.units[2].health.max_hp, 100_000);
    assert_eq!(logic.model.units[2].position, Vec2 { x: 10_000, y: 0 });
    assert!(logic.model.projectiles.is_empty());
    assert!(logic.model.particles.is_empty());
    assert_eq!(logic.model.id_gen.next_id, 100);
    assert!(logic.model.is_wf());
}

#[test]
fn damage_ignores_its_type() {
    for damage_type in [DamageType::Physical, DamageType::Energy, DamageType::Explosive] {
        let mut logic = duel();
        DamageEffect { damage_type, value: 12_345 }.process(context(), &mut logic);
        assert_eq!(hp_of(&logic, TARGET), 37_655);
    }
}

#[test]
fn damage_stops_at_zero_health() {
    let mut logic = duel();
    damage(50_001).process(context(), &mut logic);
    assert_eq!(hp_of(&logic, TARGET), 0);
    damage(i64::MAX).process(context(), &mut logic);
    assert_eq!(hp_of(&logic, TARGET), 0);
}

#[test]
fn negative_damage_restores_up_to_the_maximum() {
    let mut logic = duel();
    damage(-20_000).process(context(), &mut logic);
    assert_eq!(hp_of(&logic, TARGET), 70_000);
    damage(i64::MIN).process(context(), &mut logic);
    assert_eq!(hp_of(&logic, TARGET), 100_000);
}

#[test]
fn heal_adds_the_value_and_emits_one_particle() {
    let mut logic = duel();
    logic.model.units[2].position = Vec2 { x: 10_000, y: 2_500 };
    let heal = HealEffect { value: 20_000 };
    assert!(heal.is_ready(&context(), &logic));
    heal.process(context(), &mut logic);
    assert_eq!(hp_of(&logic, TARGET), 70_000);
    assert_eq!(hp_of(&logic, CASTER), 50_000);
    assert_eq!(logic.model.particles.len(), 1);
    let particle = &logic.model.particles[0];
    assert_eq!(particle.id, 100);
    assert!(particle.alive);
    assert_eq!(particle.follow_unit, Some(TARGET));
    assert_eq!(particle.position, Vec2 { x: 10_000, y: 2_500 });
    assert_eq!(particle.animation_state.elapsed, 0);
    assert_eq!(particle.animation_state.animation.sheet.key, 42);
    assert_eq!(particle.animation_state.animation.scale, Vec2 { x: 2_000, y: 2_000 });
    assert_eq!(particle.animation_state.animation.duration, 1_000);
    assert_eq!(logic.model.id_gen.next_id, 101);
    assert!(logic.model.projectiles.is_empty());
    assert!(logic.model.is_wf());
}

#[test]
fn heal_stops_at_the_maximum() {
    let mut logic = duel();
    HealEffect { value: 50_001 }.process(context(), &mut logic);
    assert_eq!(hp_of(&logic, TARGET), 100_000);
    HealEffect { value: i64::MAX }.process(context(), &mut logic);
    assert_eq!(hp_of(&logic, TARGET), 100_000);
    assert_eq!(logic.model.particles.len(), 2);
}

#[test]
fn particles_get_increasing_identifiers() {
    let mut logic = duel();
    HealEffect { value: 1 }.process(context(), &mut logic);
    HealEffect { value: 1 }.process(context(), &mut logic);
    bullet(5_000, Effect::Noop).process(context(), &mut logic);
    assert_eq!(logic.model.particles[0].id, 100);
    assert_eq!(logic.model.particles[1].id, 101);
    assert_eq!(logic.model.projectiles[0].id, 102);
    assert_eq!(logic.model.id_gen.next_id, 103);
    assert!(logic.model.is_wf());
}

fn dash(speed: i64) -> DashEffect {
    DashEffect { speed, duration: 750, on_contact: Effect::Damage(Box::new(damage(9_000))) }
}

fn assert_charging(unit: &Unit) {
    assert_eq!(unit.statuses.len(), 1);
    match &unit.statuses[0] {
        Status::Charge { time, on_contact } => {
            assert_eq!(*time, 750);
            match on_contact {
                Effect::Damage(effect) => assert_eq!(effect.value, 9_000),
                _ => panic!("the charge carries another effect"),
            }
        }
    }
}

#[test]
fn dash_without_a_target_goes_the_way_the_caster_faces() {
    let lonely = EffectContext { caster: CASTER, target: None };
    let mut logic = duel();
    assert!(dash(6_000).is_ready(&lonely, &logic));
    dash(6_000).process(lonely, &mut logic);
    assert_eq!(logic.model.units[0].velocity, Vec2 { x: 6_000, y: 0 });
    assert_charging(&logic.model.units[0]);

    let mut logic = duel();
    logic.model.units[0].flip_sprite = true;
    dash(6_000).process(lonely, &mut logic);
    assert_eq!(logic.model.units[0].velocity, Vec2 { x: -6_000, y: 0 });
    assert_charging(&logic.model.units[0]);
}

#[test]
fn dash_at_a_target_that_has_left_goes_the_way_the_caster_faces() {
    let gone = EffectContext { caster: CASTER, target: Some(77) };
    let mut logic = duel();
    logic.model.units[0].flip_sprite = true;
    logic.model.units[0].velocity = Vec2 { x: 1, y: 2 };
    dash(6_000).process(gone, &mut logic);
    assert_eq!(logic.model.units[0].velocity, Vec2 { x: -6_000, y: 0 });
    assert_charging(&logic.model.units[0]);
}

#[test]
fn dash_goes_towards_the_target() {
    let mut logic = duel();
    logic.model.units[0].flip_sprite = true;
    dash(6_000).process(context(), &mut logic);
    assert_eq!(logic.model.units[0].velocity, Vec2 { x: 6_000, y: 0 });

    let mut logic = duel();
    dash(6_000).process(EffectContext { caster: CASTER, target: Some(BYSTANDER) }, &mut logic);
    assert_eq!(logic.model.units[0].velocity, Vec2 { x: -6_000, y: 0 });
    assert_charging(&logic.model.units[0]);
}

#[test]
fn dash_at_a_target_straight_above_goes_right() {
    let mut logic = duel();
    logic.model.units[2].position = Vec2 { x: 0, y: 9_000 };
    logic.model.units[0].flip_sprite = true;
    dash(6_000).process(context(), &mut logic);
    assert_eq!(logic.model.units[0].velocity, Vec2 { x: 6_000, y: 0 });
}

#[test]
fn dash_changes_nothing_but_the_caster() {
    let mut logic = duel();
    logic.model.units[0].velocity = Vec2 { x: 11, y: 22 };
    logic.model.units[0].statuses.push(Status::Charge { time: 1, on_contact: Effect::Noop });
    dash(-6_000).process(context(), &mut logic);
    let caster = &logic.model.units[0];
    assert_eq!(caster.id, CASTER);
    assert_eq!(caster.velocity, Vec2 { x: -6_000, y: 0 });
    assert_eq!(caster.position, Vec2 { x: 0, y: 0 });
    assert_eq!(caster.health.hp, 50_000);
    assert_eq!(caster.statuses.len(), 2);
    assert!(matches!(&caster.statuses[0], Status::Charge { time: 1, on_contact: Effect::Noop }));
    assert!(matches!(&caster.statuses[1], Status::Charge { time: 750, .. }));
    assert_eq!(logic.model.units[1].velocity, Vec2 { x: 0, y: 0 });
    assert!(logic.model.units[1].statuses.is_empty());
    assert!(logic.model.units[2].statuses.is_empty());
    assert!(logic.model.projectiles.is_empty());
    assert!(logic.model.particles.is_empty());
    assert_eq!(logic.model.id_gen.next_id, 100);
    assert!(logic.model.is_wf());
}

#[test]
fn projectile_without_a_target_does_nothing() {
    for target in [None, Some(77)] {
        let mut logic = duel();
        let lonely = EffectContext { caster: CASTER, target };
        let effect = bullet(5_000, Effect::Noop);
        assert!(effect.is_ready(&lonely, &logic));
        assert_eq!(effect.process(lonely, &mut logic), None);
        assert!(logic.model.projectiles.is_empty());
        assert!(logic.model.particles.is_empty());
        assert_eq!(logic.model.id_gen.next_id, 100);
        assert_eq!(logic.model.units.len(), 3);
        assert_eq!(hp_of(&logic, CASTER), 50_000);
    }
}

#[test]
fn projectile_without_a_target_needs_no_fresh_identifier() {
    let mut logic = duel();
    logic.model.id_gen.next_id = u64::MAX;
    let lonely = EffectContext { caster: CASTER, target: None };
    assert!(bullet(5_000, Effect::Noop).is_ready(&lonely, &logic));
    assert!(!bullet(5_000, Effect::Noop).is_ready(&context(), &logic));
    assert_eq!(bullet(5_000, Effect::Noop).process(lonely, &mut logic), None);
    assert_eq!(logic.model.id_gen.next_id, u64::MAX);
}

#[test]
fn projectile_is_spawned_at_the_muzzle_with_the_solved_velocity() {
    let mut logic = duel();
    let mut effect = bullet(5_000, Effect::Heal(Box::new(HealEffect { value: 1_000 })));
    effect.offset = Vec2 { x: 0, y: 0 };
    assert_eq!(effect.process(context(), &mut logic), Some(()));
    assert_eq!(logic.model.projectiles.len(), 1);
    let projectile = &logic.model.projectiles[0];
    assert_eq!(projectile.id, 100);
    assert_eq!(projectile.position, Vec2 { x: 0, y: 0 });
    assert_eq!(projectile.velocity, Vec2 { x: 4_895, y: 1_021 });
    assert_eq!(projectile.lifetime, PROJECTILE_LIFETIME);
    assert_eq!(projectile.lifetime, 10_000);
    assert!(matches!(projectile.collider, Collider::Aabb { size: Vec2 { x: 1_000, y: 1_000 } }));
    assert_eq!(projectile.ai, ProjectileAI::Homing);
    assert_eq!(projectile.caster, CASTER);
    assert_eq!(projectile.target, Some(TARGET));
    assert_eq!(projectile.animation_state.elapsed, 0);
    assert_eq!(projectile.animation_state.animation.sheet.key, 7);
    assert_eq!(projectile.animation_state.animation.duration, 500);
    assert!(matches!(&projectile.on_hit, Effect::Heal(heal) if heal.value == 1_000));
    assert_eq!(logic.model.id_gen.next_id, 101);
    assert!(logic.model.particles.is_empty());
    assert_eq!(hp_of(&logic, TARGET), 50_000);
    assert!(logic.model.is_wf());
}

#[test]
fn projectile_leaves_from_the_offset_of_the_caster() {
    let mut logic = duel();
    logic.model.gravity = Vec2 { x: 123, y: 0 };
    logic.model.units[0].position = Vec2 { x: -1_000, y: -1_000 };
    logic.model.units[2].position = Vec2 { x: 3_000, y: 4_000 };
    logic.model.units[2].velocity = Vec2 { x: 1_000, y: 0 };
    let mut effect = bullet(5_000, Effect::Noop);
    effect.offset = Vec2 { x: 1_000, y: 1_000 };
    effect.ai = ProjectileAI::Idle;
    assert_eq!(effect.process(context(), &mut logic), Some(()));
    let projectile = &logic.model.projectiles[0];
    assert_eq!(projectile.position, Vec2 { x: 0, y: 0 });
    // only the vertical part of the gravity counts: the shot is as without gravity
    assert_eq!(projectile.velocity, Vec2 { x: 3_593, y: 3_477 });
    assert_eq!(projectile.ai, ProjectileAI::Idle);
}

#[test]
fn projectile_leaves_from_the_weapon_of_a_flipped_tank() {
    let mut logic = duel();
    logic.model.units[0].flip_sprite = true;
    logic.model.units[0].extra_render = Some(ExtraUnitRender::Tank {
        hand_pos: Vec2 { x: 1_000, y: 0 },
        weapon_pos: Vec2 { x: 1_500, y: 0 },
        shoot_pos: Vec2 { x: 500, y: 0 },
        rotation: Rotation { cos: 0, sin: 1_000 },
    });
    logic.model.units[2].position = Vec2 { x: 99_000, y: 2_000 };
    let mut effect = bullet(5_000, Effect::Noop);
    effect.offset = Vec2 { x: 7_000, y: 7_000 };
    assert_eq!(effect.process(context(), &mut logic), Some(()));
    let projectile = &logic.model.projectiles[0];
    assert_eq!(projectile.position, Vec2 { x: -1_000, y: 2_000 });
    // out of reach: straight at the target, to the right
    assert_eq!(projectile.velocity, Vec2 { x: 5_000, y: 0 });
}

#[test]
fn projectile_out_of_reach_flies_straight() {
    let mut logic = duel();
    logic.model.units[2].position = Vec2 { x: 100_000, y: 0 };
    assert_eq!(bullet(5_000, Effect::Noop).process(context(), &mut logic), Some(()));
    assert_eq!(logic.model.projectiles[0].velocity, Vec2 { x: 5_000, y: 0 });
}

#[test]
fn projectile_at_speed_zero_does_not_move() {
    let mut logic = duel();
    assert_eq!(bullet(0, Effect::Noop).process(context(), &mut logic), Some(()));
    assert_eq!(logic.model.projectiles[0].velocity, Vec2 { x: 0, y: 0 });
}

#[test]
fn caster_may_target_itself() {
    let mut logic = duel();
    let own = EffectContext { caster: CASTER, target: Some(CASTER) };
    assert_eq!(bullet(5_000, Effect::Noop).process(own, &mut logic), Some(()));
    assert_eq!(logic.model.projectiles[0].velocity, Vec2 { x: 0, y: 0 });
    assert_eq!(logic.model.projectiles[0].target, Some(CASTER));
    dash(1_000).process(own, &mut logic);
    assert_eq!(logic.model.units[0].velocity, Vec2 { x: 1_000, y: 0 });
}

#[test]
fn noop_changes_nothing() {
    let mut logic = duel();
    let nobody = EffectContext { caster: 77, target: None };
    assert!(Effect::Noop.is_ready(&nobody, &logic));
    logic.model.units[1].id = CASTER;
    assert!(!logic.model.is_wf());
    assert!(Effect::Noop.is_ready(&nobody, &logic));
    Effect::Noop.process(nobody, &mut logic);
    assert_eq!(logic.model.units.len(), 3);
    assert_eq!(logic.model.units[1].id, CASTER);
    assert_eq!(hp_of(&logic, TARGET), 50_000);
    assert!(logic.model.projectiles.is_empty());
    assert!(logic.model.particles.is_empty());
    assert_eq!(logic.model.id_gen.next_id, 100);
}

#[test]
fn dispatch_reaches_every_variant() {
    let mut logic = duel();
    Effect::Damage(Box::new(damage(20_000))).process(context(), &mut logic);
    assert_eq!(hp_of(&logic, TARGET), 30_000);
    Effect::Heal(Box::new(HealEffect { value: 5_000 })).process(context(), &mut logic);
    assert_eq!(hp_of(&logic, TARGET), 35_000);
    assert_eq!(logic.model.particles.len(), 1);
    Effect::Dash(Box::new(dash(6_000))).process(context(), &mut logic);
    assert_eq!(logic.model.units[0].velocity, Vec2 { x: 6_000, y: 0 });
    Effect::Projectile(Box::new(bullet(5_000, Effect::Noop))).process(context(), &mut logic);
    assert_eq!(logic.model.projectiles.len(), 1);
    assert_eq!(logic.model.projectiles[0].id, 101);
    assert_eq!(logic.model.projectiles[0].velocity, Vec2 { x: 4_895, y: 1_021 });
    Effect::Projectile(Box::new(bullet(5_000, Effect::Noop)))
        .process(EffectContext { caster: CASTER, target: None }, &mut logic);
    assert_eq!(logic.model.projectiles.len(), 1);
    assert!(logic.model.is_wf());
}

#[test]
fn nested_effects_wait_for_their_trigger() {
    let mut logic = duel();
    let on_contact = Effect::Damage(Box::new(damage(10_000)));
    let on_hit = Effect::Dash(Box::new(DashEffect { speed: 2_000, duration: 300, on_contact }));
    Effect::Projectile(Box::new(bullet(5_000, on_hit))).process(context(), &mut logic);
    // nothing but the spawn has happened
    assert_eq!(hp_of(&logic, TARGET), 50_000);
    assert_eq!(logic.model.units[0].velocity, Vec2 { x: 0, y: 0 });
    assert!(logic.model.units[0].statuses.is_empty());

    // the impact, played by the host: the projectile leaves and its effect fires
    let projectile = logic.model.projectiles.pop().unwrap();
    let carried = EffectContext { caster: projectile.caster, target: projectile.target };
    assert!(projectile.on_hit.is_ready(&carried, &logic));
    projectile.on_hit.process(carried, &mut logic);
    assert_eq!(logic.model.units[0].velocity, Vec2 { x: 2_000, y: 0 });
    assert_eq!(hp_of(&logic, TARGET), 50_000);

    // the contact, played by the host
    match logic.model.units[0].statuses.pop().unwrap() {
        Status::Charge { time, on_contact } => {
            assert_eq!(time, 300);
            on_contact.process(carried, &mut logic);
        }
    }
    assert_eq!(hp_of(&logic, TARGET), 40_000);
}

#[test]
fn effects_are_not_ready_without_their_units() {
    let logic = duel();
    let no_caster = EffectContext { caster: 77, target: Some(TARGET) };
    let no_target = EffectContext { caster: CASTER, target: Some(77) };
    let empty = EffectContext { caster: CASTER, target: None };
    assert!(!bullet(5_000, Effect::Noop).is_ready(&no_caster, &logic));
    assert!(!dash(1_000).is_ready(&no_caster, &logic));
    assert!(dash(1_000).is_ready(&no_target, &logic));
    assert!(!damage(1).is_ready(&no_target, &logic));
    assert!(!damage(1).is_ready(&empty, &logic));
    assert!(damage(1).is_ready(&no_caster, &logic));
    assert!(!HealEffect { value: 1 }.is_ready(&no_target, &logic));
    assert!(HealEffect { value: 1 }.is_ready(&no_caster, &logic));
    assert!(!Effect::Damage(Box::new(damage(1))).is_ready(&empty, &logic));
    assert!(!Effect::Dash(Box::new(dash(1_000))).is_ready(&no_caster, &logic));
}

#[test]
fn effects_ask_only_what_they_need() {
    let mut logic = duel();
    // a dash needs a speed that has a negative
    assert!(!dash(i64::MIN).is_ready(&context(), &logic));
    assert!(dash(i64::MIN + 1).is_ready(&context(), &logic));
    assert!(dash(i64::MAX).is_ready(&context(), &logic));
    // units far out and a state that breaks its invariant stop no damage,
    // heal or dash, and never a no-op
    logic.model.units[2].position = Vec2 { x: i64::MAX, y: i64::MIN };
    logic.model.units[0].velocity = Vec2 { x: i64::MIN, y: i64::MAX };
    logic.model.gravity = Vec2 { x: i64::MAX, y: i64::MAX };
    logic.model.units[1].id = 100;
    logic.model.units[2].health = Health { hp: 7, max_hp: 3 };
    assert!(!logic.model.is_wf());
    assert!(damage(1).is_ready(&context(), &logic));
    assert!(HealEffect { value: 1 }.is_ready(&context(), &logic));
    assert!(dash(1_000).is_ready(&context(), &logic));
    assert!(Effect::Noop.is_ready(&context(), &logic));
    damage(1).process(context(), &mut logic);
    assert_eq!(hp_of(&logic, TARGET), 3);
    dash(i64::MAX).process(context(), &mut logic);
    assert_eq!(logic.model.units[0].velocity, Vec2 { x: i64::MAX, y: 0 });
    Effect::Noop.process(context(), &mut logic);
    // a heal needs a fresh identifier
    logic.model.id_gen.next_id = u64::MAX;
    assert!(!HealEffect { value: 1 }.is_ready(&context(), &logic));
    assert!(damage(1).is_ready(&context(), &logic));
}

#[test]
fn projectile_is_not_ready_beyond_the_range_of_the_aim() {
    let logic = duel();
    assert!(bullet(5_000, Effect::Noop).is_ready(&context(), &logic));
    assert!(bullet(-1_000_000_000, Effect::Noop).is_ready(&context(), &logic));
    assert!(!bullet(1_000_000_001, Effect::Noop).is_ready(&context(), &logic));
    let mut effect = bullet(5_000, Effect::Noop);
    effect.offset = Vec2 { x: 0, y: 1_000_000_001 };
    assert!(!effect.is_ready(&context(), &logic));
    // without a target nothing is aimed
    assert!(effect.is_ready(&EffectContext { caster: CASTER, target: None }, &logic));

    let mut far = duel();
    far.model.units[2].position.x = 1_000_000_001;
    assert!(!bullet(5_000, Effect::Noop).is_ready(&context(), &far));
    let mut heavy = duel();
    heavy.model.gravity.y = -1_000_000_001;
    assert!(!bullet(5_000, Effect::Noop).is_ready(&context(), &heavy));
    heavy.model.gravity = Vec2 { x: i64::MAX, y: -1_000_000_000 };
    assert!(bullet(5_000, Effect::Noop).is_ready(&context(), &heavy));
    // a bystander far out is no matter
    let mut crowd = duel();
    crowd.model.units[1].position = Vec2 { x: i64::MAX, y: i64::MIN };
    assert!(bullet(5_000, Effect::Noop).is_ready(&context(), &crowd));

    // a target 10000 to the right rising at 10000, speed 50, no gravity: the
    // first pass aims 2000000 up, beyond the solver
    let mut rising = duel();
    rising.model.gravity.y = 0;
    rising.model.units[2].position = Vec2 { x: 10_000_000, y: 0 };
    rising.model.units[2].velocity = Vec2 { x: 0, y: 10_000_000 };
    assert!(!bullet(50_000, Effect::Noop).is_ready(&context(), &rising));
    assert!(!Effect::Projectile(Box::new(bullet(50_000, Effect::Noop)))
        .is_ready(&context(), &rising));
    // at a hundredth of that rise the aim is within range
    rising.model.units[2].velocity = Vec2 { x: 0, y: 100_000 };
    assert!(bullet(50_000, Effect::Noop).is_ready(&context(), &rising));
}

#[test]
fn projectile_at_a_close_target_has_the_speed_of_the_effect() {
    let mut logic = duel();
    logic.model.gravity.y = 0;
    logic.model.units[2].position = Vec2 { x: 7, y: 7 };
    assert_eq!(bullet(5_000, Effect::Noop).process(context(), &mut logic), Some(()));
    assert_eq!(logic.model.projectiles[0].velocity, Vec2 { x: 3_536, y: 3_535 });

    // out of reach under a heavy gravity: straight at the target
    let mut logic = duel();
    logic.model.gravity.y = -1_000_000_000;
    logic.model.units[2].position = Vec2 { x: 1, y: 1 };
    assert_eq!(bullet(5_000, Effect::Noop).process(context(), &mut logic), Some(()));
    assert_eq!(logic.model.projectiles[0].velocity, Vec2 { x: 3_535, y: 3_535 });
}

#[test]
fn lookups_tell_soft_from_hard() {
    let mut logic = duel();
    let ctx = EffectContext { caster: CASTER, target: Some(77) };
    assert_eq!(ctx.get_id(Who::Caster), Some(CASTER));
    assert_eq!(ctx.get_id(Who::Target), Some(77));
    assert_eq!(EffectContext { caster: CASTER, target: None }.get_id(Who::Target), None);
    assert!(ctx.get(Who::Target, &logic).is_none());
    assert_eq!(ctx.find(Who::Target, &logic), None);
    assert_eq!(ctx.get(Who::Caster, &logic).unwrap().id, CASTER);
    assert_eq!(ctx.find(Who::Caster, &logic), Some(0));
    assert_eq!(context().find(Who::Target, &logic), Some(2));
    assert_eq!(context().get(Who::Target, &logic).unwrap().position, Vec2 { x: 10_000, y: 0 });
    assert_eq!(context().get_expect(Who::Target, &logic).id, TARGET);
    context().get_mut_expect(Who::Target, &mut logic).flip_sprite = true;
    assert!(logic.model.units[2].flip_sprite);
    assert!(!logic.model.units[0].flip_sprite);
    assert!(!logic.model.units[1].flip_sprite);
}

#[test]
fn cloned_effect_is_equal_and_shares_its_animation() {
    let on_contact = Effect::Damage(Box::new(damage(10_000)));
    let on_hit = Effect::Dash(Box::new(DashEffect { speed: 2_000, duration: 300, on_contact }));
    let effect = Effect::Projectile(Box::new(bullet(5_000, on_hit)));
    let copy = effect.clone();
    let (first, second) = match (&effect, &copy) {
        (Effect::Projectile(first), Effect::Projectile(second)) => (first, second),
        _ => panic!("the clone is of another variant"),
    };
    assert_eq!(second.offset, first.offset);
    assert_eq!(second.ai, ProjectileAI::Homing);
    assert_eq!(second.speed, 5_000);
    assert!(Rc::ptr_eq(&first.animation, &second.animation));
    assert_eq!(Rc::strong_count(&first.animation), 2);
    match &second.on_hit {
        Effect::Dash(dash) => {
            assert_eq!(dash.speed, 2_000);
            assert_eq!(dash.duration, 300);
            assert!(matches!(&dash.on_contact, Effect::Damage(d) if d.value == 10_000));
        }
        _ => panic!("the nested effect is of another variant"),
    }

    // both can be processed, each once, to the same end
    let mut one = duel();
    let mut other = duel();
    effect.process(context(), &mut one);
    copy.process(context(), &mut other);
    assert_eq!(one.model.projectiles[0].velocity, other.model.projectiles[0].velocity);
    assert_eq!(one.model.projectiles[0].id, other.model.projectiles[0].id);
}

#[test]
fn cloned_plain_effects_are_equal() {
    let dash = dash(6_000).clone();
    assert_eq!(dash.speed, 6_000);
    assert_eq!(dash.duration, 750);
    assert!(matches!(Effect::Noop.clone(), Effect::Noop));
    assert!(matches!(Effect::Heal(Box::new(HealEffect { value: 3 })).clone(), Effect::Heal(h) if h.value == 3));
    let bullet = bullet(1_000, Effect::Noop);
    let copy = bullet.clone();
    assert!(Rc::ptr_eq(&bullet.animation, &copy.animation));
}
