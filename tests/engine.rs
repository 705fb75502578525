use rust_ecs::gameplay::unordered_pairs;
use rust_ecs::systems::System;
use rust_ecs::{ComponentSignature, Entity, EntityComponentSystem, Query, QueryError};

const POSITION: usize = 0;
const VELOCITY: usize = 1;
const BOUNDS: usize = 2;
const COLLISION: usize = 7;

#[derive(Debug, PartialEq, Clone)]
enum Comp {
    Position(f32, f32),
    Velocity(f32, f32),
    Bounds(f32, f32),
}

fn signature(types: &[usize]) -> ComponentSignature {
    let mut s = ComponentSignature::new();
    for t in types {
        s.require_component(*t);
    }
    s
}

fn movement_update(ecs: &mut EntityComponentSystem<Comp>, system: usize, dt: f32) {
    let members: Vec<Entity> = ecs.systems_list()[system].entities().clone();
    for e in members {
        match ecs.get_component_pair(e, POSITION, VELOCITY) {
            Some((Comp::Position(x, y), Comp::Velocity(vx, vy))) => {
                *x += *vx * dt;
                *y += *vy * dt;
            }
            _ => panic!("member without position or velocity"),
        }
    }
}

fn overlap(ecs: &EntityComponentSystem<Comp>, a: Entity, b: Entity) -> bool {
    let (ax, ay) = match ecs.get_component(a, POSITION) {
        Some(Comp::Position(x, y)) => (*x, *y),
        _ => panic!("member without position"),
    };
    let (aw, ah) = match ecs.get_component(a, BOUNDS) {
        Some(Comp::Bounds(w, h)) => (*w, *h),
        _ => panic!("member without bounds"),
    };
    let (bx, by) = match ecs.get_component(b, POSITION) {
        Some(Comp::Position(x, y)) => (*x, *y),
        _ => panic!("member without position"),
    };
    let (bw, bh) = match ecs.get_component(b, BOUNDS) {
        Some(Comp::Bounds(w, h)) => (*w, *h),
        _ => panic!("member without bounds"),
    };
    ax < bx + bw && ax + aw > bx && ay < by + bh && ay + ah > by
}

#[test]
fn movement_scenario() {
    let mut ecs: EntityComponentSystem<Comp> = EntityComponentSystem::new();
    let movement = ecs.add_system(System::new(signature(&[POSITION, VELOCITY]), vec![]));
    let e1 = ecs.create_entity();
    ecs.add_component(e1, POSITION, Comp::Position(0.0, 0.0));
    ecs.add_component(e1, VELOCITY, Comp::Velocity(5.0, 0.0));
    ecs.update();
    movement_update(&mut ecs, movement, 1.0);
    assert_eq!(ecs.get_component(e1, POSITION), Some(&Comp::Position(5.0, 0.0)));
}

#[test]
fn collision_scenario_emits_one_unordered_pair() {
    let mut ecs: EntityComponentSystem<Comp> = EntityComponentSystem::new();
    let collision = ecs.add_system(System::new(signature(&[POSITION, BOUNDS]), vec![]));
    let damage = ecs.add_system(System::new(ComponentSignature::new(), vec![COLLISION]));
    let a = ecs.create_entity();
    ecs.add_component(a, POSITION, Comp::Position(0.0, 0.0));
    ecs.add_component(a, BOUNDS, Comp::Bounds(10.0, 10.0));
    let b = ecs.create_entity();
    ecs.add_component(b, POSITION, Comp::Position(5.0, 5.0));
    ecs.add_component(b, BOUNDS, Comp::Bounds(10.0, 10.0));
    ecs.update();
    let members: Vec<Entity> = ecs.systems_list()[collision].entities().clone();
    let mut delivered: Vec<(usize, Entity, Entity)> = Vec::new();
    for (x, y) in unordered_pairs(&members) {
        if overlap(&ecs, x, y) {
            for listener in ecs.emit(COLLISION) {
                delivered.push((listener, x, y));
            }
        }
    }
    assert_eq!(delivered.len(), 1);
    let (listener, x, y) = delivered[0];
    assert_eq!(listener, damage);
    assert!((x, y) == (a, b) || (x, y) == (b, a));
}

#[test]
fn membership_follows_signatures() {
    let mut ecs: EntityComponentSystem<Comp> = EntityComponentSystem::new();
    let moving = ecs.add_system(System::new(signature(&[POSITION, VELOCITY]), vec![]));
    let placed = ecs.add_system(System::new(signature(&[POSITION]), vec![]));
    let e = ecs.create_entity();
    ecs.add_component(e, POSITION, Comp::Position(0.0, 0.0));
    ecs.update();
    assert!(!ecs.systems_list()[moving].has_entity(e));
    assert!(ecs.systems_list()[placed].has_entity(e));
    ecs.add_component(e, VELOCITY, Comp::Velocity(1.0, 1.0));
    assert!(ecs.systems_list()[moving].has_entity(e));
    ecs.remove_component(e, VELOCITY);
    assert!(!ecs.systems_list()[moving].has_entity(e));
    assert!(ecs.systems_list()[placed].has_entity(e));
}

#[test]
fn system_added_late_gets_matching_live_entities() {
    let mut ecs: EntityComponentSystem<Comp> = EntityComponentSystem::new();
    let e = ecs.create_entity();
    ecs.add_component(e, POSITION, Comp::Position(0.0, 0.0));
    let f = ecs.create_entity();
    ecs.add_component(f, VELOCITY, Comp::Velocity(0.0, 0.0));
    ecs.update();
    let placed = ecs.add_system(System::new(signature(&[POSITION]), vec![]));
    assert_eq!(ecs.systems_list()[placed].entities(), &vec![e]);
}

#[test]
fn destroyed_entity_leaves_every_system() {
    let mut ecs: EntityComponentSystem<Comp> = EntityComponentSystem::new();
    let everything = ecs.add_system(System::new(ComponentSignature::new(), vec![]));
    let placed = ecs.add_system(System::new(signature(&[POSITION]), vec![]));
    let e = ecs.create_entity();
    ecs.add_component(e, POSITION, Comp::Position(0.0, 0.0));
    ecs.update();
    assert!(ecs.systems_list()[everything].has_entity(e));
    assert!(ecs.systems_list()[placed].has_entity(e));
    ecs.destroy_entity(e);
    ecs.update();
    assert!(!ecs.systems_list()[everything].has_entity(e));
    assert!(!ecs.systems_list()[placed].has_entity(e));
    assert!(ecs.entity_manager().get_entities_with_signature(&ComponentSignature::new()).is_empty());
}

#[test]
fn subscriptions_are_rebuilt_each_frame_in_order() {
    let mut ecs: EntityComponentSystem<Comp> = EntityComponentSystem::new();
    let first = ecs.add_system(System::new(ComponentSignature::new(), vec![COLLISION, 3]));
    let second = ecs.add_system(System::new(ComponentSignature::new(), vec![COLLISION]));
    assert!(ecs.emit(COLLISION).is_empty());
    ecs.update();
    assert_eq!(ecs.emit(COLLISION), vec![first, second]);
    assert_eq!(ecs.emit(3), vec![first]);
    ecs.update();
    assert_eq!(ecs.emit(COLLISION), vec![first, second]);
    assert!(ecs.emit(4).is_empty());
}

#[test]
fn engine_tags_and_groups() {
    let mut ecs: EntityComponentSystem<Comp> = EntityComponentSystem::new();
    let e = ecs.create_entity();
    ecs.set_tag(e, "player");
    ecs.add_entity_to_group(&e, "heroes");
    assert_eq!(ecs.entity_manager().get_entity_by_tag("player"), Some(e));
    assert!(ecs.entity_manager().entity_in_group(&e, "heroes"));
    ecs.remove_tag(e);
    ecs.remove_entity_from_group(&e, "heroes");
    assert_eq!(ecs.entity_manager().get_entity_by_tag("player"), None);
    assert!(!ecs.entity_manager().entity_in_group(&e, "heroes"));
}

#[test]
fn query_yields_each_matching_entity_once() {
    let mut ecs: EntityComponentSystem<Comp> = EntityComponentSystem::new();
    let a = ecs.create_entity();
    ecs.add_component(a, POSITION, Comp::Position(0.0, 0.0));
    ecs.add_component(a, VELOCITY, Comp::Velocity(1.0, 0.0));
    let b = ecs.create_entity();
    ecs.add_component(b, POSITION, Comp::Position(0.0, 0.0));
    let c = ecs.create_entity();
    ecs.add_component(c, POSITION, Comp::Position(2.0, 0.0));
    ecs.add_component(c, VELOCITY, Comp::Velocity(0.0, 1.0));
    ecs.add_component(c, BOUNDS, Comp::Bounds(1.0, 1.0));
    ecs.update();
    let query = Query::new(ecs.entity_manager(), vec![POSITION], vec![VELOCITY]).unwrap();
    assert_eq!(query.values(), vec![a, c]);
    assert_eq!(query.values(), vec![a, c]);
    let only_positions = Query::new(ecs.entity_manager(), vec![], vec![POSITION]).unwrap();
    assert_eq!(only_positions.values(), vec![a, b, c]);
}

#[test]
fn query_refuses_aliased_exclusive_views() {
    let ecs: EntityComponentSystem<Comp> = EntityComponentSystem::new();
    let em = ecs.entity_manager();
    assert!(matches!(Query::new(em, vec![POSITION, POSITION], vec![]), Err(QueryError::AliasedExclusive)));
    assert!(matches!(Query::new(em, vec![POSITION], vec![POSITION]), Err(QueryError::AliasedExclusive)));
    assert!(matches!(Query::new(em, vec![], vec![POSITION, POSITION]), Ok(_)));
    assert!(matches!(Query::new(em, vec![40], vec![]), Err(QueryError::TypeOutOfRange)));
    assert!(matches!(Query::new(em, vec![POSITION], vec![32]), Err(QueryError::TypeOutOfRange)));
}

#[test]
fn pair_view_needs_both_components() {
    let mut ecs: EntityComponentSystem<Comp> = EntityComponentSystem::new();
    let e = ecs.create_entity();
    ecs.add_component(e, VELOCITY, Comp::Velocity(2.0, 3.0));
    assert!(ecs.get_component_pair(e, POSITION, VELOCITY).is_none());
    ecs.add_component(e, POSITION, Comp::Position(1.0, 1.0));
    match ecs.get_component_pair(e, VELOCITY, POSITION) {
        Some((v, p)) => {
            assert_eq!(*p, Comp::Position(1.0, 1.0));
            *v = Comp::Velocity(0.0, 0.0);
        }
        None => panic!("both components are there"),
    }
    assert_eq!(ecs.get_component(e, VELOCITY), Some(&Comp::Velocity(0.0, 0.0)));
    assert_eq!(ecs.get_component(e, POSITION), Some(&Comp::Position(1.0, 1.0)));
}

#[test]
fn staged_entity_joins_systems_only_at_update() {
    let mut ecs: EntityComponentSystem<Comp> = EntityComponentSystem::new();
    let placed = ecs.add_system(System::new(signature(&[POSITION]), vec![]));
    let everything = ecs.add_system(System::new(ComponentSignature::new(), vec![]));
    let e = ecs.create_entity();
    ecs.add_component(e, POSITION, Comp::Position(0.0, 0.0));
    assert!(!ecs.systems_list()[placed].has_entity(e));
    assert!(!ecs.systems_list()[everything].has_entity(e));
    ecs.update();
    assert!(ecs.systems_list()[placed].has_entity(e));
    assert!(ecs.systems_list()[everything].has_entity(e));
    let f = ecs.create_entity();
    ecs.update();
    assert!(ecs.systems_list()[everything].has_entity(f));
    assert!(!ecs.systems_list()[placed].has_entity(f));
}
