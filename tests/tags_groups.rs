use rust_ecs::{Entity, EntityManager, GroupManager, TagManager};

#[test]
fn tag_round_trip() {
    let mut em: EntityManager<u8> = EntityManager::new();
    let e = em.create_entity();
    em.set_tag(e, "player");
    assert_eq!(em.get_entity_by_tag("player"), Some(e));
    assert!(em.has_tag(e, "player"));
    em.remove_tag(e);
    assert_eq!(em.get_entity_by_tag("player"), None);
    assert!(!em.has_tag(e, "player"));
}

#[test]
fn tags_are_one_to_one_last_write_wins() {
    let mut tags = TagManager::new();
    let a = Entity::new(1);
    let b = Entity::new(2);
    tags.set_tag(a, "player");
    tags.set_tag(b, "player");
    assert_eq!(tags.get_entity("player"), Some(b));
    assert!(!tags.has_tag(a, "player"));
    tags.set_tag(b, "boss");
    assert_eq!(tags.get_entity("player"), None);
    assert_eq!(tags.get_entity("boss"), Some(b));
    assert!(!tags.has_tag(b, "player"));
    tags.remove_tag(a);
    assert_eq!(tags.get_entity("boss"), Some(b));
}

#[test]
fn groups_are_many_to_many_and_idempotent() {
    let mut groups = GroupManager::new();
    let a = Entity::new(1);
    let b = Entity::new(2);
    groups.add_entity_to_group(&a, "enemy");
    groups.add_entity_to_group(&a, "enemy");
    groups.add_entity_to_group(&a, "tank");
    groups.add_entity_to_group(&b, "enemy");
    assert!(groups.entity_in_group(&a, "enemy"));
    assert!(groups.group_contains_entity("tank", &a));
    assert!(!groups.entity_in_group(&b, "tank"));
    groups.remove_entity_from_group(&a, "enemy");
    assert!(!groups.entity_in_group(&a, "enemy"));
    assert!(groups.entity_in_group(&a, "tank"));
    assert!(groups.entity_in_group(&b, "enemy"));
    groups.remove_entity(&a);
    assert!(!groups.entity_in_group(&a, "tank"));
    assert!(groups.entity_in_group(&b, "enemy"));
}

#[test]
fn group_index_through_registry() {
    let mut em: EntityManager<u8> = EntityManager::new();
    let e = em.create_entity();
    em.add_entity_to_group(&e, "projectile");
    assert!(em.group_contains_entity("projectile", &e));
    assert!(em.group_manager().entity_in_group(&e, "projectile"));
    em.remove_entity_from_group(&e, "projectile");
    assert!(!em.entity_in_group(&e, "projectile"));
    em.set_tag(e, "player");
    assert_eq!(em.tag_manager().get_entity("player"), Some(e));
}
