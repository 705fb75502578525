use rust_ecs::systems::get_next_system_type_id;
use rust_ecs::{
    get_next_component_type_id, get_next_entity_id, Component, ComponentSignature,
    ComponentTypeError, ComponentTypeRegistry, Entity, EntityManager, MAX_COMPONENTS,
};

struct Position;
impl Component for Position {}

struct Velocity;
impl Component for Velocity {}

#[derive(Debug, PartialEq)]
enum Comp {
    Position(i32, i32),
    Velocity(i32, i32),
}

#[test]
fn component_type_ids_in_first_use_order() {
    let mut registry = ComponentTypeRegistry::new();
    assert_eq!(registry.get_type_id::<Position>(), Ok(0));
    assert_eq!(registry.get_type_id::<Velocity>(), Ok(1));
    assert_eq!(registry.get_type_id::<Position>(), Ok(0));
    assert_eq!(registry.get_type_id::<Velocity>(), Ok(1));
}

#[test]
fn component_type_registry_refuses_beyond_capacity() {
    let mut registry = ComponentTypeRegistry::new();
    let keys = [
        std::any::TypeId::of::<u8>(),
        std::any::TypeId::of::<u16>(),
        std::any::TypeId::of::<u32>(),
        std::any::TypeId::of::<u64>(),
        std::any::TypeId::of::<u128>(),
        std::any::TypeId::of::<i8>(),
        std::any::TypeId::of::<i16>(),
        std::any::TypeId::of::<i32>(),
        std::any::TypeId::of::<i64>(),
        std::any::TypeId::of::<i128>(),
        std::any::TypeId::of::<usize>(),
        std::any::TypeId::of::<isize>(),
        std::any::TypeId::of::<bool>(),
        std::any::TypeId::of::<char>(),
        std::any::TypeId::of::<String>(),
        std::any::TypeId::of::<()>(),
        std::any::TypeId::of::<(u8, u8)>(),
        std::any::TypeId::of::<(u8, u16)>(),
        std::any::TypeId::of::<(u8, u32)>(),
        std::any::TypeId::of::<(u8, u64)>(),
        std::any::TypeId::of::<(u16, u8)>(),
        std::any::TypeId::of::<(u16, u16)>(),
        std::any::TypeId::of::<(u16, u32)>(),
        std::any::TypeId::of::<(u16, u64)>(),
        std::any::TypeId::of::<(u32, u8)>(),
        std::any::TypeId::of::<(u32, u16)>(),
        std::any::TypeId::of::<(u32, u32)>(),
        std::any::TypeId::of::<(u32, u64)>(),
        std::any::TypeId::of::<(u64, u8)>(),
        std::any::TypeId::of::<(u64, u16)>(),
        std::any::TypeId::of::<(u64, u32)>(),
        std::any::TypeId::of::<(u64, u64)>(),
    ];
    assert_eq!(keys.len(), MAX_COMPONENTS);
    for (i, key) in keys.iter().enumerate() {
        assert_eq!(registry.get_type_id_of_key(*key), Ok(i));
    }
    assert_eq!(registry.get_type_id::<Position>(), Err(ComponentTypeError::TooManyTypes));
    assert_eq!(registry.get_type_id_of_key(keys[5]), Ok(5));
}

#[test]
fn counters_hand_out_increasing_ids() {
    let mut counter: usize = 7;
    assert_eq!(get_next_component_type_id(&mut counter), 7);
    assert_eq!(get_next_component_type_id(&mut counter), 8);
    assert_eq!(counter, 9);
    let mut systems: usize = 0;
    assert_eq!(get_next_system_type_id(&mut systems), 0);
    assert_eq!(systems, 1);
    let mut entities: usize = 0;
    assert_eq!(get_next_entity_id(&mut entities), 0);
    assert_eq!(get_next_entity_id(&mut entities), 1);
}

#[test]
fn signature_require_remove_and_subsets() {
    let mut a = ComponentSignature::new();
    let mut b = ComponentSignature::default();
    assert!(a.is_subset(&b));
    assert!(a.is_superset(&b));
    a.require_component(3);
    assert!(a.has_component(3));
    assert!(!a.has_component(4));
    assert!(!a.is_subset(&b));
    assert!(b.is_subset(&a));
    b.require_component(3);
    b.require_component(MAX_COMPONENTS - 1);
    assert!(a.is_subset(&b));
    assert!(b.is_superset(&a));
    assert!(!a.is_superset(&b));
    b.remove_component(MAX_COMPONENTS - 1);
    assert!(!b.has_component(MAX_COMPONENTS - 1));
    assert!(b.is_subset(&a));
    let c = b.duplicate();
    assert_eq!(c, b);
    assert!(c.has_component(3));
}

#[test]
fn added_component_is_read_after_flush() {
    let mut em: EntityManager<Comp> = EntityManager::new();
    let e = em.create_entity();
    em.add_component(e, 0, Comp::Position(1, 2));
    assert_eq!(em.get_component(e, 0), Some(&Comp::Position(1, 2)));
    em.update();
    assert_eq!(em.get_component(e, 0), Some(&Comp::Position(1, 2)));
    em.add_component(e, 0, Comp::Position(3, 4));
    assert_eq!(em.get_component(e, 0), Some(&Comp::Position(3, 4)));
    assert_eq!(em.get_component(e, 1), None);
}

#[test]
fn created_entities_are_live_only_after_flush() {
    let mut em: EntityManager<Comp> = EntityManager::new();
    let a = em.create_entity();
    let b = em.create_entity();
    assert_ne!(a, b);
    assert_eq!(a.id(), 0);
    assert_eq!(b.id(), 1);
    let all = ComponentSignature::new();
    assert!(em.get_entities_with_signature(&all).is_empty());
    assert_eq!(em.pending_spawns(), &vec![a, b]);
    em.update();
    assert_eq!(em.get_entities_with_signature(&all), vec![a, b]);
    assert!(em.pending_spawns().is_empty());
}

#[test]
fn destroyed_entity_loses_every_trace() {
    let mut em: EntityManager<Comp> = EntityManager::new();
    let a = em.create_entity();
    let b = em.create_entity();
    em.add_component(a, 0, Comp::Position(0, 0));
    em.add_component(b, 0, Comp::Position(1, 1));
    em.set_tag(a, "player");
    em.add_entity_to_group(&a, "heroes");
    em.update();
    em.destroy_entity(a);
    em.destroy_entity(a);
    assert_eq!(em.pending_despawns(), &vec![a]);
    let mut sig = ComponentSignature::new();
    sig.require_component(0);
    assert_eq!(em.get_entities_with_signature(&sig), vec![a, b]);
    em.update();
    assert_eq!(em.get_entities_with_signature(&sig), vec![b]);
    assert_eq!(em.get_entities_with_signature(&ComponentSignature::new()), vec![b]);
    assert_eq!(em.get_component(a, 0), None);
    assert!(em.get_signature(a).is_none());
    assert_eq!(em.get_entity_by_tag("player"), None);
    assert!(!em.entity_in_group(&a, "heroes"));
    assert!(em.pending_despawns().is_empty());
}

#[test]
fn entity_created_and_destroyed_in_one_frame_never_lives() {
    let mut em: EntityManager<Comp> = EntityManager::new();
    let a = em.create_entity();
    em.destroy_entity(a);
    em.update();
    assert!(em.get_entities_with_signature(&ComponentSignature::new()).is_empty());
    assert!(em.get_signature(a).is_none());
}

#[test]
fn signature_follows_added_and_removed_components() {
    let mut em: EntityManager<Comp> = EntityManager::new();
    let a = em.create_entity();
    em.add_component(a, 2, Comp::Velocity(1, 0));
    assert!(em.get_signature(a).unwrap().has_component(2));
    em.remove_component(a, 2);
    assert!(!em.get_signature(a).unwrap().has_component(2));
    assert_eq!(em.get_component(a, 2), None);
    em.remove_component(a, 2);
    assert_eq!(em.get_component(a, 2), None);
}

#[test]
fn component_on_unknown_entity_is_stored() {
    let mut em: EntityManager<Comp> = EntityManager::new();
    let ghost = Entity::new(41);
    em.add_component(ghost, 0, Comp::Position(0, 0));
    assert_eq!(em.get_component(ghost, 0), Some(&Comp::Position(0, 0)));
    assert!(em.get_signature(ghost).unwrap().has_component(0));
    assert_eq!(em.get_component(ghost, MAX_COMPONENTS + 3), None);
    assert!(em.get_entities_with_signature(&ComponentSignature::new()).is_empty());
}

#[test]
fn destroying_any_handle_clears_its_id() {
    let mut em: EntityManager<Comp> = EntityManager::new();
    let stray = Entity::new(41);
    em.add_component(stray, 0, Comp::Position(3, 3));
    em.set_tag(stray, "stray");
    em.add_entity_to_group(&stray, "lost");
    em.destroy_entity(stray);
    em.destroy_entity(stray);
    assert_eq!(em.pending_despawns(), &vec![stray]);
    em.update();
    assert_eq!(em.get_component(stray, 0), None);
    assert!(em.get_signature(stray).is_none());
    assert_eq!(em.get_entity_by_tag("stray"), None);
    assert!(!em.entity_in_group(&stray, "lost"));
    assert!(em.pending_despawns().is_empty());
}

#[test]
fn created_entity_keeps_components_already_on_its_id() {
    let mut em: EntityManager<Comp> = EntityManager::new();
    em.add_component(Entity::new(0), 1, Comp::Velocity(2, 2));
    let a = em.create_entity();
    assert_eq!(a.id(), 0);
    em.update();
    assert_eq!(em.get_component(a, 1), Some(&Comp::Velocity(2, 2)));
    assert!(em.get_signature(a).unwrap().has_component(1));
}

#[test]
fn exclusive_view_writes_back() {
    let mut em: EntityManager<Comp> = EntityManager::new();
    let a = em.create_entity();
    em.add_component(a, 1, Comp::Velocity(1, 1));
    match em.get_component_mut(a, 1) {
        Some(Comp::Velocity(x, _)) => *x = 9,
        _ => panic!("missing component"),
    }
    assert_eq!(em.get_component(a, 1), Some(&Comp::Velocity(9, 1)));
    assert!(em.get_component_mut(a, 0).is_none());
}
