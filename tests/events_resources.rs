use rust_ecs::events::{Event, EventBus};
use rust_ecs::systems::System;
use rust_ecs::{ComponentSignature, Entity, Resources};

#[test]
fn emit_without_subscribers_is_a_no_op() {
    let mut bus = EventBus::new();
    assert!(bus.emit(5).is_empty());
    bus.subscribe_type(1, 0);
    assert!(bus.emit(5).is_empty());
    assert_eq!(bus.emit(1), vec![0]);
}

#[test]
fn emit_follows_subscription_order_and_duplicates() {
    let mut bus = EventBus::new();
    bus.subscribe_type(1, 2);
    bus.subscribe_type(2, 0);
    bus.subscribe_type(1, 0);
    bus.subscribe_type(1, 2);
    assert_eq!(bus.emit(1), vec![2, 0, 2]);
    assert_eq!(bus.emit(2), vec![0]);
    bus.clear();
    assert!(bus.emit(1).is_empty());
}

#[test]
fn event_data_only_as_its_type() {
    let event = Event::new(3, (Entity::new(1), Entity::new(2)));
    assert_eq!(event.event_type(), 3);
    assert_eq!(event.get_data(3), Some(&(Entity::new(1), Entity::new(2))));
    assert_eq!(event.get_data(4), None);
}

#[test]
fn resources_put_get_and_change() {
    let mut res: Resources<String> = Resources::new();
    assert_eq!(res.get(0), None);
    res.put(0, "camera".to_string());
    res.put(1, "map".to_string());
    assert_eq!(res.get(0), Some(&"camera".to_string()));
    if let Some(v) = res.get_mut(1) {
        v.push_str("-640");
    }
    assert_eq!(res.get(1), Some(&"map-640".to_string()));
    assert!(res.get_mut(2).is_none());
    res.put(0, "other".to_string());
    assert_eq!(res.get(0), Some(&"other".to_string()));
}

#[test]
fn system_membership_by_hand() {
    let mut sig = ComponentSignature::new();
    sig.require_component(1);
    let mut system = System::new(sig, vec![9]);
    let e = Entity::new(4);
    system.add_entity(e);
    system.add_entity(e);
    assert_eq!(system.entities(), &vec![e]);
    assert!(system.signature().has_component(1));
    assert_eq!(system.get_event_type(), &vec![9]);
    system.remove_entity(e);
    system.remove_entity(e);
    assert!(!system.has_entity(e));
    system.add_entity(e);
    let fresh = system.without_members();
    assert!(fresh.entities().is_empty());
}
