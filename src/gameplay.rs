use crate::entity::Entity;
use vstd::prelude::*;

verus! {

/// The frame that an animation shows `elapsed` milliseconds after it
/// started.
pub open spec fn frame_after(elapsed: int, framerate: int, num_frames: int) -> int {
    (elapsed * framerate / 1000) % num_frames
}

/// A sprite-sheet animation: `num_frames` frames shown at `framerate`
/// frames a second from `start_time` (in milliseconds).
#[derive(Clone, Copy, Debug, PartialEq, Eq, Structural)]
pub struct AnimationComponent {
    pub num_frames: usize,
    pub current_frame: usize,
    pub framerate: usize,
    pub start_time: usize,
    pub is_loop: bool,
}

impl AnimationComponent {
    /// One frame a second, one frame in all, started at `start_time`.
    pub fn new(start_time: usize) -> (r: AnimationComponent)
        ensures
            r == (AnimationComponent {
                num_frames: 1,
                current_frame: 0,
                framerate: 1,
                start_time,
                is_loop: false,
            }),
    {
        AnimationComponent { num_frames: 1, current_frame: 0, framerate: 1, start_time, is_loop: false }
    }

    pub fn num_frames(self, num_frames: usize) -> (r: AnimationComponent)
        ensures
            r == (AnimationComponent { num_frames, ..self }),
    {
        AnimationComponent { num_frames, ..self }
    }

    pub fn framerate(self, framerate: usize) -> (r: AnimationComponent)
        ensures
            r == (AnimationComponent { framerate, ..self }),
    {
        AnimationComponent { framerate, ..self }
    }

    pub fn is_loop(self, is_loop: bool) -> (r: AnimationComponent)
        ensures
            r == (AnimationComponent { is_loop, ..self }),
    {
        AnimationComponent { is_loop, ..self }
    }

    /// Moves to the frame shown at time `now` (in milliseconds).
    pub fn advance(&mut self, now: usize)
        requires
            old(self).num_frames > 0,
            old(self).start_time <= now,
            (now - old(self).start_time) * old(self).framerate <= usize::MAX,
        ensures
            *final(self) == (AnimationComponent {
                current_frame: frame_after(
                    now - old(self).start_time,
                    old(self).framerate as int,
                    old(self).num_frames as int,
                ) as usize,
                ..*old(self)
            }),
    {
        let elapsed = now - self.start_time;
        let scaled = elapsed * self.framerate / 1000;
        self.current_frame = scaled % self.num_frames;
    }
}

/// How much damage an entity can still take.
#[derive(Clone, Copy, Debug, PartialEq, Eq, Structural)]
pub struct HealthComponent {
    pub health: u32,
}

impl HealthComponent {
    /// Takes `damage`, never going below zero; returns whether nothing is
    /// left.
    pub fn take_damage(&mut self, damage: u32) -> (dead: bool)
        ensures
            final(self).health == if old(self).health >= damage {
                old(self).health - damage
            } else {
                0
            },
            dead == (final(self).health == 0),
    {
        self.health = self.health.saturating_sub(damage);
        self.health == 0
    }
}

/// A shot: it lives `max_duration` milliseconds from `created`, and deals
/// `damage` to the other side (`friendly` shots hurt enemies, the others
/// hurt the player).
#[derive(Clone, Copy, Debug, PartialEq, Eq, Structural)]
pub struct ProjectileComponent {
    pub max_duration: u64,
    pub created: u64,
    pub damage: u32,
    pub friendly: bool,
}

impl ProjectileComponent {
    /// Whether the shot has lived its time at `now` (in milliseconds).
    pub fn is_expired(&self, now: u64) -> (r: bool)
        ensures
            r == (now as int - self.created as int >= self.max_duration as int),
    {
        now >= self.created && now - self.created >= self.max_duration
    }

    /// Whether the shot hurts a target on the given side.
    pub fn hurts(&self, target_is_player: bool) -> (r: bool)
        ensures
            r == (self.friendly != target_is_player),
    {
        self.friendly != target_is_player
    }
}

/// What a shot does to the target it hit: the target's health afterwards,
/// and whether the target is destroyed (the shot always is).
#[derive(Clone, Copy, Debug, PartialEq, Eq, Structural)]
pub struct HitOutcome {
    pub health: u32,
    pub target_destroyed: bool,
}

/// Resolves a collision between a target (the player, or an enemy) and
/// another entity: it is a hit only when the other entity is a projectile
/// from the opposing side. On a hit the target takes the shot's damage,
/// never going below zero, and is destroyed when no health is left.
pub fn resolve_hit(
    target_is_player: bool,
    target_is_enemy: bool,
    other_is_projectile: bool,
    projectile: &ProjectileComponent,
    health: u32,
) -> (r: Option<HitOutcome>)
    ensures
        r is Some <==> (target_is_player || target_is_enemy) && other_is_projectile
            && projectile.friendly != target_is_player,
        r matches Some(o) ==> o.health == (if health >= projectile.damage {
            health - projectile.damage
        } else {
            0
        }) && o.target_destroyed == (o.health == 0),
{
    if !(target_is_player || target_is_enemy) || !other_is_projectile || !projectile.hurts(
        target_is_player,
    ) {
        return None;
    }
    let mut h = HealthComponent { health };
    let dead = h.take_damage(projectile.damage);
    Some(HitOutcome { health: h.health, target_destroyed: dead })
}

/// Every pair `(s[i], s[j])` with `i < j`, grouped by `j`.
pub open spec fn unordered_pairs_of(s: Seq<Entity>) -> Seq<(Entity, Entity)>
    decreases s.len(),
{
    if s.len() == 0 {
        Seq::empty()
    } else {
        unordered_pairs_of(s.drop_last()) + s.drop_last().map_values(|x: Entity| (x, s.last()))
    }
}

/// The pairs of distinct members to test against each other, each pair once.
pub fn unordered_pairs(entities: &Vec<Entity>) -> (r: Vec<(Entity, Entity)>)
    ensures
        r@ == unordered_pairs_of(entities@),
{
    let mut r: Vec<(Entity, Entity)> = Vec::new();
    let mut j: usize = 0;
    while j < entities.len()
        invariant
            0 <= j <= entities.len(),
            r@ == unordered_pairs_of(entities@.subrange(0, j as int)),
        decreases entities.len() - j,
    {
        let ghost before = r@;
        let b = entities[j];
        let mut i: usize = 0;
        while i < j
            invariant
                0 <= i <= j < entities.len(),
                b == entities@[j as int],
                r@ == before + entities@.subrange(0, i as int).map_values(|x: Entity| (x, b)),
            decreases j - i,
        {
            r.push((entities[i], b));
            assert(entities@.subrange(0, i as int + 1).map_values(|x: Entity| (x, b)) =~= entities@.subrange(
                0,
                i as int,
            ).map_values(|x: Entity| (x, b)).push((entities@[i as int], b)));
            i = i + 1;
        }
        let ghost p = entities@.subrange(0, j as int + 1);
        assert(p.drop_last() =~= entities@.subrange(0, j as int));
        assert(r@ =~= unordered_pairs_of(p));
        j = j + 1;
    }
    assert(entities@.subrange(0, entities@.len() as int) == entities@);
    r
}

/// The pairs are exactly those of an earlier item with a later one.
pub proof fn lemma_unordered_pairs_contains(s: Seq<Entity>, a: Entity, b: Entity)
    ensures
        unordered_pairs_of(s).contains((a, b)) <==> exists|i: int, j: int|
            0 <= i < j < s.len() && s[i] == a && s[j] == b,
    decreases s.len(),
{
    if s.len() > 0 {
        let t = s.drop_last();
        lemma_unordered_pairs_contains(t, a, b);
        let last = t.map_values(|x: Entity| (x, s.last()));
        let u = unordered_pairs_of(t);
        if unordered_pairs_of(s).contains((a, b)) {
            let k = choose|k: int| 0 <= k < unordered_pairs_of(s).len() && unordered_pairs_of(s)[k] == (a, b);
            if k < u.len() {
                assert(u[k] == (a, b));
                let (i, j) = choose|i: int, j: int| 0 <= i < j < t.len() && t[i] == a && t[j] == b;
                assert(s[i] == a && s[j] == b);
            } else {
                let i = k - u.len();
                assert(last[i] == (a, b));
                assert(s[i] == a && s[s.len() - 1] == b);
            }
        }
        if exists|i: int, j: int| 0 <= i < j < s.len() && s[i] == a && s[j] == b {
            let (i, j) = choose|i: int, j: int| 0 <= i < j < s.len() && s[i] == a && s[j] == b;
            if j < s.len() - 1 {
                assert(t[i] == a && t[j] == b);
                let k = choose|k: int| 0 <= k < u.len() && u[k] == (a, b);
                assert(unordered_pairs_of(s)[k] == (a, b));
            } else {
                assert(last[i] == (a, b));
                assert(unordered_pairs_of(s)[u.len() + i] == (a, b));
            }
        }
    }
}

/// Among members that are all distinct, no pair is an entity with itself,
/// and no pair comes back with its two entities swapped.
pub proof fn lemma_unordered_pairs_distinct(s: Seq<Entity>, a: Entity, b: Entity)
    requires
        s.no_duplicates(),
        unordered_pairs_of(s).contains((a, b)),
    ensures
        a != b,
        !unordered_pairs_of(s).contains((b, a)),
{
    lemma_unordered_pairs_contains(s, a, b);
    lemma_unordered_pairs_contains(s, b, a);
    let (i, j) = choose|i: int, j: int| 0 <= i < j < s.len() && s[i] == a && s[j] == b;
    if unordered_pairs_of(s).contains((b, a)) {
        let (k, l) = choose|k: int, l: int| 0 <= k < l < s.len() && s[k] == b && s[l] == a;
        assert(k == j && l == i);
    }
}

} // verus!
