use rust_ecs::gameplay::{
    resolve_hit, unordered_pairs, AnimationComponent, HealthComponent, HitOutcome, ProjectileComponent,
};
use rust_ecs::tilemap::Tile;
use rust_ecs::Entity;

#[test]
fn animation_builders_and_frames() {
    let mut anim = AnimationComponent::new(1000).num_frames(2).framerate(15).is_loop(true);
    assert_eq!(anim.num_frames, 2);
    assert_eq!(anim.framerate, 15);
    assert!(anim.is_loop);
    assert_eq!(anim.current_frame, 0);
    anim.advance(1000);
    assert_eq!(anim.current_frame, 0);
    anim.advance(1100);
    assert_eq!(anim.current_frame, 1);
    anim.advance(1134);
    assert_eq!(anim.current_frame, 0);
    anim.advance(1200);
    assert_eq!(anim.current_frame, 1);
}

#[test]
fn health_takes_damage_down_to_zero() {
    let mut health = HealthComponent { health: 25 };
    assert!(!health.take_damage(10));
    assert_eq!(health.health, 15);
    assert!(health.take_damage(20));
    assert_eq!(health.health, 0);
}

#[test]
fn projectile_lifetime_and_sides() {
    let shot = ProjectileComponent { max_duration: 5000, created: 100, damage: 10, friendly: true };
    assert!(!shot.is_expired(50));
    assert!(!shot.is_expired(5099));
    assert!(shot.is_expired(5100));
    assert!(shot.hurts(false));
    assert!(!shot.hurts(true));
}

#[test]
fn pairs_are_each_unordered_pair_once() {
    let es: Vec<Entity> = (0..4).map(Entity::new).collect();
    let pairs = unordered_pairs(&es);
    assert_eq!(pairs.len(), 6);
    for (a, b) in &pairs {
        assert_ne!(a, b);
        assert!(!pairs.contains(&(*b, *a)));
    }
    assert_eq!(pairs[0], (es[0], es[1]));
    assert!(unordered_pairs(&vec![es[0]]).is_empty());
}

#[test]
fn tile_fields() {
    let t = Tile { x: 1, y: 2, sprite_id: 13 };
    assert_eq!((t.x, t.y, t.sprite_id), (1, 2, 13));
}

#[test]
fn hits_only_from_the_opposing_side() {
    let enemy_shot = ProjectileComponent { max_duration: 1000, created: 0, damage: 10, friendly: false };
    let friendly_shot = ProjectileComponent { friendly: true, ..enemy_shot };
    assert_eq!(
        resolve_hit(true, false, true, &enemy_shot, 25),
        Some(HitOutcome { health: 15, target_destroyed: false })
    );
    assert_eq!(
        resolve_hit(false, true, true, &friendly_shot, 5),
        Some(HitOutcome { health: 0, target_destroyed: true })
    );
    assert_eq!(resolve_hit(true, false, true, &friendly_shot, 25), None);
    assert_eq!(resolve_hit(false, true, true, &enemy_shot, 25), None);
    assert_eq!(resolve_hit(false, true, false, &friendly_shot, 25), None);
    assert_eq!(resolve_hit(false, false, true, &friendly_shot, 25), None);
}
