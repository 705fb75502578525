use crate::component::ComponentTypeId;
use crate::component_signature::{ComponentSignature, MAX_COMPONENTS};
use crate::entity::{get_next_entity_id, ids_of, Entity, EntityId};
use crate::group_manager::GroupManager;
use crate::seq_facts::{lemma_concat_no_duplicates, lemma_filter_all, lemma_filter_filter, lemma_filter_no_duplicates};
use crate::tag_manager::{tags_after_remove, tags_after_set, TagManager};
use std::collections::HashMap;
use vstd::prelude::*;

verus! {

broadcast use vstd::std_specs::hash::group_hash_axioms, vstd::seq_lib::group_filter_ensures, Entity::lemma_spec_new, Entity::lemma_id_determines,
    Entity::lemma_spec_new_of_id, ComponentSignature::lemma_in_range;

/// Relies on `HashMap::get_mut`: a mutable reference to the value at `k`,
/// if there is one; what is written through it becomes the value at `k`.
#[verifier::external_body]
pub(crate) fn map_get_mut<V>(m: &mut HashMap<usize, V>, k: usize) -> (r: Option<&mut V>)
    ensures
        match r {
            Some(v) => old(m)@.contains_key(k) && *v == old(m)@[k] && final(m)@ == old(m)@.insert(
                k,
                *final(v),
            ),
            None => !old(m)@.contains_key(k) && final(m)@ == old(m)@,
        },
{
    m.get_mut(&k)
}

/// The registry: it owns every component, the live entities, the entities
/// waiting to be spawned or despawned at the next `update`, the signature of
/// each entity, and the tag and group indices.
pub struct EntityManager<V> {
    components: Vec<HashMap<EntityId, V>>,
    entities: Vec<Entity>,
    entities_to_spawn: Vec<Entity>,
    entities_to_despawn: Vec<Entity>,
    entity_component_signatures: HashMap<EntityId, ComponentSignature>,
    tag_manager: TagManager,
    group_manager: GroupManager,
    next_entity_id: EntityId,
}

impl<V> EntityManager<V> {
    /// The live entities, in the order in which they were spawned.
    pub closed spec fn live(&self) -> Seq<Entity> {
        self.entities@
    }

    /// The entities created since the last `update`.
    pub closed spec fn to_spawn(&self) -> Seq<Entity> {
        self.entities_to_spawn@
    }

    /// The entities marked for destruction since the last `update`.
    pub closed spec fn to_despawn(&self) -> Seq<Entity> {
        self.entities_to_despawn@
    }

    /// The components of type `t`, by entity id.
    pub closed spec fn store(&self, t: ComponentTypeId) -> Map<EntityId, V> {
        if t < self.components@.len() {
            self.components@[t as int]@
        } else {
            Map::empty()
        }
    }

    /// The signature of each known entity: the component types it has.
    pub closed spec fn signatures(&self) -> Map<EntityId, Set<ComponentTypeId>> {
        self.entity_component_signatures@.map_values(|s: ComponentSignature| s@)
    }

    /// The tags, as pairs (entity id, tag).
    pub closed spec fn tags(&self) -> Set<(EntityId, Seq<char>)> {
        self.tag_manager@
    }

    /// The group memberships, as pairs (entity id, group).
    pub closed spec fn groups(&self) -> Set<(EntityId, Seq<char>)> {
        self.group_manager@
    }

    /// The id that the next created entity gets.
    pub closed spec fn next_id(&self) -> EntityId {
        self.next_entity_id
    }

    /// An entity is known from its creation until the `update` that despawns
    /// it: it is live or waits to be spawned.
    pub open spec fn is_known(&self, e: Entity) -> bool {
        self.live().contains(e) || self.to_spawn().contains(e)
    }

    pub closed spec fn wf(&self) -> bool {
        &&& self.components@.len() == MAX_COMPONENTS
        &&& forall|id: EntityId| #[trigger]
            self.entity_component_signatures@.contains_key(id)
                ==> self.entity_component_signatures@[id].wf()
        &&& forall|t: ComponentTypeId, id: EntityId|
            t < MAX_COMPONENTS ==> (#[trigger] self.components@[t as int]@.contains_key(id) <==> (
            self.entity_component_signatures@.contains_key(id)
                && self.entity_component_signatures@[id]@.contains(t)))
        &&& self.entities@.no_duplicates()
        &&& self.entities_to_spawn@.no_duplicates()
        &&& self.entities_to_despawn@.no_duplicates()
        &&& forall|e: Entity| #[trigger]
            self.entities@.contains(e) ==> !self.entities_to_spawn@.contains(e)
        &&& forall|e: Entity| #[trigger]
            self.entities@.contains(e) ==> self.entity_component_signatures@.contains_key(
                e.spec_id(),
            ) && e.spec_id() < self.next_entity_id
        &&& forall|e: Entity| #[trigger]
            self.entities_to_spawn@.contains(e) ==> self.entity_component_signatures@.contains_key(
                e.spec_id(),
            ) && e.spec_id() < self.next_entity_id
        &&& self.tag_manager.wf()
    }

    /// Every signature is below `MAX_COMPONENTS`, and a known entity has a
    /// signature and an id below the next one.
    pub proof fn lemma_wf_facts(&self)
        requires
            self.wf(),
        ensures
            forall|id: EntityId, t: ComponentTypeId|
                self.signatures().contains_key(id) && #[trigger] self.signatures()[id].contains(t)
                    ==> t < MAX_COMPONENTS,
            forall|e: Entity| #[trigger]
                self.is_known(e) ==> self.signatures().contains_key(e.spec_id()) && e.spec_id()
                    < self.next_id(),
            forall|t: ComponentTypeId, id: EntityId| #[trigger]
                self.store(t).contains_key(id) ==> t < MAX_COMPONENTS && self.signatures()[id].contains(t)
                    && self.signatures().contains_key(id),
            self.live().no_duplicates(),
            self.to_spawn().no_duplicates(),
            self.to_despawn().no_duplicates(),
            forall|e: Entity| #[trigger] self.live().contains(e) ==> !self.to_spawn().contains(e),
            crate::tag_manager::one_to_one(self.tags()),
    {
        assert forall|e: Entity| #[trigger]
            self.is_known(e) implies self.signatures().contains_key(e.spec_id()) && e.spec_id()
                < self.next_id() by {
            if self.live().contains(e) {
                assert(self.entities@.contains(e));
            } else {
                assert(self.entities_to_spawn@.contains(e));
            }
        }
        assert forall|id: EntityId, t: ComponentTypeId|
            self.signatures().contains_key(id) && #[trigger] self.signatures()[id].contains(t)
                implies t < MAX_COMPONENTS by {
            assert(self.entity_component_signatures@[id].wf());
            assert(self.entity_component_signatures@[id]@.contains(t));
        }
    }

    pub fn new() -> (r: EntityManager<V>)
        ensures
            r.wf(),
            r.live() == Seq::<Entity>::empty(),
            r.to_spawn() == Seq::<Entity>::empty(),
            r.to_despawn() == Seq::<Entity>::empty(),
            r.signatures() == Map::<EntityId, Set<ComponentTypeId>>::empty(),
            forall|t: ComponentTypeId| #[trigger] r.store(t) == Map::<EntityId, V>::empty(),
            r.tags() == Set::<(EntityId, Seq<char>)>::empty(),
            r.groups() == Set::<(EntityId, Seq<char>)>::empty(),
            r.next_id() == 0,
    {
        let mut components: Vec<HashMap<EntityId, V>> = Vec::new();
        let mut i: usize = 0;
        while i < MAX_COMPONENTS
            invariant
                0 <= i <= MAX_COMPONENTS,
                components@.len() == i,
                forall|j: int| 0 <= j < i ==> (#[trigger] components@[j])@ == Map::<EntityId, V>::empty(),
            decreases MAX_COMPONENTS - i,
        {
            components.push(HashMap::new());
            i = i + 1;
        }
        let r = EntityManager {
            components,
            entities: Vec::new(),
            entities_to_spawn: Vec::new(),
            entities_to_despawn: Vec::new(),
            entity_component_signatures: HashMap::new(),
            tag_manager: TagManager::new(),
            group_manager: GroupManager::new(),
            next_entity_id: 0,
        };
        assert forall|t: ComponentTypeId| #[trigger] r.store(t) == Map::<EntityId, V>::empty() by {
            if t < MAX_COMPONENTS {
                assert(r.components@[t as int]@ == Map::<EntityId, V>::empty());
            }
        }
        assert(r.signatures() =~= Map::<EntityId, Set<ComponentTypeId>>::empty());
        r
    }

    /// `new` is `self` after the staged entities were flushed: those created
    /// become live, in order, and those marked for destruction lose every
    /// trace (components, signature, place, tag, groups).
    pub open spec fn flushed_into(&self, new: &Self) -> bool {
        let dead = ids_of(self.to_despawn());
        &&& new.live() == (self.live() + self.to_spawn()).filter(
            |e: Entity| !self.to_despawn().contains(e),
        )
        &&& new.to_spawn() == Seq::<Entity>::empty()
        &&& new.to_despawn() == Seq::<Entity>::empty()
        &&& new.signatures() == self.signatures().remove_keys(dead)
        &&& forall|t: ComponentTypeId| #[trigger] new.store(t) == self.store(t).remove_keys(dead)
        &&& new.tags() == self.tags().filter(|p: (EntityId, Seq<char>)| !dead.contains(p.0))
        &&& new.groups() == self.groups().filter(|p: (EntityId, Seq<char>)| !dead.contains(p.0))
        &&& new.next_id() == self.next_id()
    }

    /// The signature of `id`, or the empty one if it has none yet.
    pub open spec fn signature_or_empty(&self, id: EntityId) -> Set<ComponentTypeId> {
        if self.signatures().contains_key(id) {
            self.signatures()[id]
        } else {
            Set::<ComponentTypeId>::empty()
        }
    }

    /// `new` is `self` after `component` was attached to `entity` as its
    /// component of type `type_id`.
    pub open spec fn component_added(
        &self,
        new: &Self,
        entity: Entity,
        type_id: ComponentTypeId,
        component: V,
    ) -> bool {
        &&& new.store(type_id) == self.store(type_id).insert(entity.spec_id(), component)
        &&& new.signatures() == self.signatures().insert(
            entity.spec_id(),
            self.signature_or_empty(entity.spec_id()).insert(type_id),
        )
        &&& forall|t: ComponentTypeId| t != type_id ==> #[trigger] new.store(t) == self.store(t)
        &&& new.live() == self.live()
        &&& new.to_spawn() == self.to_spawn()
        &&& new.to_despawn() == self.to_despawn()
        &&& new.tags() == self.tags()
        &&& new.groups() == self.groups()
        &&& new.next_id() == self.next_id()
    }

    /// Whether `entity` is live.
    pub fn is_live(&self, entity: Entity) -> (r: bool)
        ensures
            r == self.live().contains(entity),
    {
        contains_entity(&self.entities, entity)
    }

    /// The entities that wait to be spawned, in order of creation.
    pub fn pending_spawns(&self) -> (r: &Vec<Entity>)
        ensures
            r@ == self.to_spawn(),
    {
        &self.entities_to_spawn
    }

    /// The entities marked for destruction, in order.
    pub fn pending_despawns(&self) -> (r: &Vec<Entity>)
        ensures
            r@ == self.to_despawn(),
    {
        &self.entities_to_despawn
    }

    /// Whether `e` is known and its signature holds every type of `required`.
    pub open spec fn has_all(&self, e: Entity, required: Set<ComponentTypeId>) -> bool {
        &&& self.signatures().contains_key(e.spec_id())
        &&& required.subset_of(self.signatures()[e.spec_id()])
    }

    /// Creates an entity with a fresh id; it waits to be spawned at the next
    /// `update`. It gets the empty signature, unless components were already
    /// attached to its id.
    pub fn create_entity(&mut self) -> (r: Entity)
        requires
            old(self).wf(),
            old(self).next_id() < usize::MAX,
        ensures
            final(self).wf(),
            r.spec_id() == old(self).next_id(),
            !old(self).is_known(r),
            final(self).live() == old(self).live(),
            final(self).to_spawn() == old(self).to_spawn().push(r),
            final(self).to_despawn() == old(self).to_despawn(),
            final(self).signatures() == old(self).signatures().insert(
                r.spec_id(),
                old(self).signature_or_empty(r.spec_id()),
            ),
            forall|t: ComponentTypeId| #[trigger] final(self).store(t) == old(self).store(t),
            final(self).tags() == old(self).tags(),
            final(self).groups() == old(self).groups(),
            final(self).next_id() == old(self).next_id() + 1,
    {
        proof {
            old(self).lemma_wf_facts();
        }
        let id = get_next_entity_id(&mut self.next_entity_id);
        let entity = Entity::new(id);
        self.entities_to_spawn.push(entity);
        if !self.entity_component_signatures.contains_key(&id) {
            self.entity_component_signatures.insert(id, ComponentSignature::new());
        }
        assert(self.signatures() =~= old(self).signatures().insert(id, old(self).signature_or_empty(id)));
        assert(self.entities_to_spawn@.no_duplicates()) by {
            assert(!old(self).to_spawn().contains(entity));
        }
        assert forall|t: ComponentTypeId| #[trigger] self.store(t) == old(self).store(t) by {}
        assert forall|e: Entity| #[trigger]
            self.entities_to_spawn@.contains(e) implies self.entity_component_signatures@.contains_key(
                e.spec_id(),
            ) && e.spec_id() < self.next_entity_id by {
            if e != entity {
                assert(old(self).entities_to_spawn@.contains(e));
            }
        }
        assert forall|x: EntityId| #[trigger]
            self.entity_component_signatures@.contains_key(x) implies self.entity_component_signatures@[x].wf() by {
            if x != id || old(self).entity_component_signatures@.contains_key(x) {
                assert(old(self).entity_component_signatures@.contains_key(x));
            }
        }
        assert forall|t: ComponentTypeId, x: EntityId|
            t < MAX_COMPONENTS implies (#[trigger] self.store(t).contains_key(x) <==> (
            self.signatures().contains_key(x) && self.signatures()[x].contains(t))) by {
            assert(old(self).store(t).contains_key(x) <==> (old(self).signatures().contains_key(x)
                && old(self).signatures()[x].contains(t)));
        }
        entity
    }

    /// Marks `entity` for destruction at the next `update`; marking it twice
    /// is the same as once. Any handle can be marked: at the next `update`
    /// whatever is attached to its id goes.
    pub fn destroy_entity(&mut self, entity: Entity)
        requires
            old(self).wf(),
        ensures
            final(self).wf(),
            final(self).to_despawn() == if old(self).to_despawn().contains(entity) {
                old(self).to_despawn()
            } else {
                old(self).to_despawn().push(entity)
            },
            final(self).live() == old(self).live(),
            final(self).to_spawn() == old(self).to_spawn(),
            final(self).signatures() == old(self).signatures(),
            forall|t: ComponentTypeId| #[trigger] final(self).store(t) == old(self).store(t),
            final(self).tags() == old(self).tags(),
            final(self).groups() == old(self).groups(),
            final(self).next_id() == old(self).next_id(),
    {
        if !contains_entity(&self.entities_to_despawn, entity) {
            self.entities_to_despawn.push(entity);
        }
        assert forall|t: ComponentTypeId| #[trigger] self.store(t) == old(self).store(t) by {}
        assert forall|t: ComponentTypeId, x: EntityId|
            t < MAX_COMPONENTS implies (#[trigger] self.store(t).contains_key(x) <==> (
            self.signatures().contains_key(x) && self.signatures()[x].contains(t))) by {
            assert(old(self).store(t).contains_key(x) <==> (old(self).signatures().contains_key(x)
                && old(self).signatures()[x].contains(t)));
        }
    }

    /// Attaches `component` as the component of type `type_id` of `entity`,
    /// in place of any it had, and adds the type to its signature (which
    /// starts empty for an id that has none).
    pub fn add_component(&mut self, entity: Entity, type_id: ComponentTypeId, component: V)
        requires
            old(self).wf(),
            type_id < MAX_COMPONENTS,
        ensures
            final(self).wf(),
            old(self).component_added(&*final(self), entity, type_id, component),
    {
        proof {
            old(self).lemma_wf_facts();
        }
        let id = entity.id();
        let mut signature = match self.entity_component_signatures.remove(&id) {
            Some(signature) => signature,
            None => ComponentSignature::new(),
        };
        signature.require_component(type_id);
        self.entity_component_signatures.insert(id, signature);
        self.components[type_id].insert(id, component);
        assert(self.signatures() =~= old(self).signatures().insert(
            id,
            old(self).signature_or_empty(id).insert(type_id),
        ));
        assert forall|t: ComponentTypeId, x: EntityId|
            t < MAX_COMPONENTS implies (#[trigger] self.store(t).contains_key(x) <==> (
            self.signatures().contains_key(x) && self.signatures()[x].contains(t))) by {
            assert(old(self).store(t).contains_key(x) <==> (old(self).signatures().contains_key(x)
                && old(self).signatures()[x].contains(t)));
        }
        assert forall|x: EntityId| #[trigger]
            self.entity_component_signatures@.contains_key(x) implies self.entity_component_signatures@[x].wf() by {
            if x != id {
                assert(old(self).entity_component_signatures@.contains_key(x));
            }
        }
        assert forall|e: Entity| #[trigger]
            self.entities@.contains(e) implies self.entity_component_signatures@.contains_key(
                e.spec_id(),
            ) && e.spec_id() < self.next_entity_id by {
            assert(old(self).entities@.contains(e));
        }
        assert forall|e: Entity| #[trigger]
            self.entities_to_spawn@.contains(e) implies self.entity_component_signatures@.contains_key(
                e.spec_id(),
            ) && e.spec_id() < self.next_entity_id by {
            assert(old(self).entities_to_spawn@.contains(e));
        }
    }

    /// Detaches the component of type `type_id` from `entity`, if it has
    /// one, and takes the type out of its signature.
    pub fn remove_component(&mut self, entity: Entity, type_id: ComponentTypeId)
        requires
            old(self).wf(),
            type_id < MAX_COMPONENTS,
        ensures
            final(self).wf(),
            final(self).store(type_id) == old(self).store(type_id).remove(entity.spec_id()),
            old(self).signatures().contains_key(entity.spec_id()) ==> final(self).signatures()
                == old(self).signatures().insert(
                entity.spec_id(),
                old(self).signatures()[entity.spec_id()].remove(type_id),
            ),
            !old(self).signatures().contains_key(entity.spec_id()) ==> final(self).signatures()
                == old(self).signatures(),
            forall|t: ComponentTypeId| t != type_id ==> #[trigger] final(self).store(t) == old(self).store(t),
            final(self).live() == old(self).live(),
            final(self).to_spawn() == old(self).to_spawn(),
            final(self).to_despawn() == old(self).to_despawn(),
            final(self).tags() == old(self).tags(),
            final(self).groups() == old(self).groups(),
            final(self).next_id() == old(self).next_id(),
    {
        proof {
            old(self).lemma_wf_facts();
        }
        let id = entity.id();
        self.components[type_id].remove(&id);
        match self.entity_component_signatures.remove(&id) {
            Some(mut signature) => {
                signature.remove_component(type_id);
                self.entity_component_signatures.insert(id, signature);
                assert(self.signatures() =~= old(self).signatures().insert(
                    id,
                    old(self).signatures()[id].remove(type_id),
                ));
            },
            None => {
                assert(self.entity_component_signatures@ =~= old(self).entity_component_signatures@);
            },
        }
        assert forall|t: ComponentTypeId, x: EntityId|
            t < MAX_COMPONENTS implies (#[trigger] self.store(t).contains_key(x) <==> (
            self.signatures().contains_key(x) && self.signatures()[x].contains(t))) by {
            assert(old(self).store(t).contains_key(x) <==> (old(self).signatures().contains_key(x)
                && old(self).signatures()[x].contains(t)));
        }
        assert forall|x: EntityId| #[trigger]
            self.entity_component_signatures@.contains_key(x) implies self.entity_component_signatures@[x].wf() by {
            if x != id {
                assert(old(self).entity_component_signatures@.contains_key(x));
            }
        }
        assert forall|e: Entity| #[trigger]
            self.entities@.contains(e) implies self.entity_component_signatures@.contains_key(
                e.spec_id(),
            ) && e.spec_id() < self.next_entity_id by {
            assert(old(self).entities@.contains(e));
        }
        assert forall|e: Entity| #[trigger]
            self.entities_to_spawn@.contains(e) implies self.entity_component_signatures@.contains_key(
                e.spec_id(),
            ) && e.spec_id() < self.next_entity_id by {
            assert(old(self).entities_to_spawn@.contains(e));
        }
    }

    /// A shared view of the component of type `type_id` of `entity`, or
    /// `None` if it has none.
    pub fn get_component(&self, entity: Entity, type_id: ComponentTypeId) -> (r: Option<&V>)
        requires
            self.wf(),
        ensures
            match r {
                Some(v) => self.store(type_id).contains_key(entity.spec_id()) && *v == self.store(
                    type_id,
                )[entity.spec_id()],
                None => !self.store(type_id).contains_key(entity.spec_id()),
            },
    {
        if type_id >= MAX_COMPONENTS {
            return None;
        }
        self.components[type_id].get(&entity.id())
    }

    /// An exclusive view of the component of type `type_id` of `entity`, or
    /// `None` if it has none; what is written through it becomes the
    /// component.
    pub fn get_component_mut(&mut self, entity: Entity, type_id: ComponentTypeId) -> (r: Option<&mut V>)
        requires
            old(self).wf(),
            type_id < MAX_COMPONENTS,
        ensures
            match r {
                Some(v) => old(self).store(type_id).contains_key(entity.spec_id()) && *v == old(
                    self,
                ).store(type_id)[entity.spec_id()] && final(self).store(type_id) == old(self).store(
                    type_id,
                ).insert(entity.spec_id(), *final(v)),
                None => !old(self).store(type_id).contains_key(entity.spec_id()) && final(self).store(type_id)
                    == old(self).store(type_id),
            },
            old(self).same_but_values(&*final(self), type_id),
            final(self).wf(),
            forall|t: ComponentTypeId| t != type_id ==> #[trigger] final(self).store(t) == old(self).store(t),
            final(self).signatures() == old(self).signatures(),
            final(self).live() == old(self).live(),
            final(self).to_spawn() == old(self).to_spawn(),
            final(self).to_despawn() == old(self).to_despawn(),
            final(self).tags() == old(self).tags(),
            final(self).groups() == old(self).groups(),
            final(self).next_id() == old(self).next_id(),
    {
        proof {
            old(self).lemma_wf_facts();
        }
        map_get_mut(&mut self.components[type_id], entity.id())
    }

    /// Removes every trace of `entity`: its components, its signature, its
    /// place among the live entities, its tag and its groups.
    fn despawn_one(&mut self, entity: Entity)
        requires
            old(self).components@.len() == MAX_COMPONENTS,
            old(self).tag_manager.wf(),
        ensures
            final(self).components@.len() == MAX_COMPONENTS,
            forall|t: int|
                0 <= t < MAX_COMPONENTS ==> (#[trigger] final(self).components@[t])@ == old(
                    self,
                ).components@[t]@.remove(entity.spec_id()),
            final(self).entity_component_signatures@ == old(self).entity_component_signatures@.remove(
                entity.spec_id(),
            ),
            final(self).entities@ == old(self).entities@.filter(|x: Entity| x != entity),
            final(self).entities_to_spawn == old(self).entities_to_spawn,
            final(self).entities_to_despawn == old(self).entities_to_despawn,
            final(self).tag_manager.wf(),
            final(self).tag_manager@ == tags_after_remove(old(self).tag_manager@, entity.spec_id()),
            final(self).group_manager@ == old(self).group_manager@.filter(
                |p: (EntityId, Seq<char>)| p.0 != entity.spec_id(),
            ),
            final(self).next_entity_id == old(self).next_entity_id,
    {
        let id = entity.id();
        self.entity_component_signatures.remove(&id);
        let mut t: usize = 0;
        while t < MAX_COMPONENTS
            invariant
                0 <= t <= MAX_COMPONENTS,
                self.components@.len() == MAX_COMPONENTS,
                forall|u: int|
                    0 <= u < t ==> (#[trigger] self.components@[u])@ == old(self).components@[u]@.remove(id),
                forall|u: int|
                    t <= u < MAX_COMPONENTS ==> #[trigger] self.components@[u] == old(self).components@[u],
                self.entity_component_signatures@ == old(self).entity_component_signatures@.remove(id),
                self.entities == old(self).entities,
                self.entities_to_spawn == old(self).entities_to_spawn,
                self.entities_to_despawn == old(self).entities_to_despawn,
                self.tag_manager == old(self).tag_manager,
                self.group_manager == old(self).group_manager,
                self.next_entity_id == old(self).next_entity_id,
            decreases MAX_COMPONENTS - t,
        {
            self.components[t].remove(&id);
            t = t + 1;
        }
        self.entities = without(&self.entities, entity);
        self.tag_manager.remove_tag(entity);
        self.group_manager.remove_entity(&entity);
    }

    /// Flushes the staged entities: those created since the last `update`
    /// become live, in order, and those marked for destruction lose every
    /// trace (components, signature, place, tag, groups).
    #[verifier::rlimit(100)]
    pub fn update(&mut self)
        requires
            old(self).wf(),
        ensures
            final(self).wf(),
            old(self).flushed_into(&*final(self)),
    {
        proof {
            old(self).lemma_wf_facts();
        }
        let ghost joined = old(self).entities@ + old(self).entities_to_spawn@;
        self.entities.append(&mut self.entities_to_spawn);
        let mut despawn: Vec<Entity> = Vec::new();
        std::mem::swap(&mut despawn, &mut self.entities_to_despawn);
        let ghost old_sigs = old(self).entity_component_signatures@;
        let ghost old_tags = old(self).tag_manager@;
        let ghost old_groups = old(self).group_manager@;
        proof {
            assert(joined.filter(|e: Entity| !despawn@.subrange(0, 0).contains(e)) == joined) by {
                let f = |e: Entity| !despawn@.subrange(0, 0).contains(e);
                assert forall|e: Entity| #[trigger] f(e) by {}
                lemma_filter_all(joined, f);
            }
            assert(ids_of(despawn@.subrange(0, 0)) =~= Set::<EntityId>::empty());
            assert(old_sigs.remove_keys(Set::<EntityId>::empty()) =~= old_sigs);
            assert forall|u: int| 0 <= u < MAX_COMPONENTS implies (#[trigger] self.components@[u])@
                == old(self).components@[u]@.remove_keys(Set::<EntityId>::empty()) by {
                assert(old(self).components@[u]@.remove_keys(Set::<EntityId>::empty()) =~= old(self).components@[u]@);
            }
            assert(old_tags.filter(|p: (EntityId, Seq<char>)| !Set::<EntityId>::empty().contains(p.0)) =~= old_tags);
            assert(old_groups.filter(|p: (EntityId, Seq<char>)| !Set::<EntityId>::empty().contains(p.0)) =~= old_groups);
        }
        let mut i: usize = 0;
        while i < despawn.len()
            invariant
                0 <= i <= despawn.len(),
                despawn@ == old(self).entities_to_despawn@,
                self.components@.len() == MAX_COMPONENTS,
                self.entities@ == joined.filter(|e: Entity| !despawn@.subrange(0, i as int).contains(e)),
                self.entities_to_spawn@ == Seq::<Entity>::empty(),
                self.entities_to_despawn@ == Seq::<Entity>::empty(),
                self.entity_component_signatures@ == old_sigs.remove_keys(ids_of(despawn@.subrange(0, i as int))),
                forall|u: int| 0 <= u < MAX_COMPONENTS ==> (#[trigger] self.components@[u])@
                    == old(self).components@[u]@.remove_keys(ids_of(despawn@.subrange(0, i as int))),
                self.tag_manager.wf(),
                self.tag_manager@ == old_tags.filter(
                    |p: (EntityId, Seq<char>)| !ids_of(despawn@.subrange(0, i as int)).contains(p.0),
                ),
                self.group_manager@ == old_groups.filter(
                    |p: (EntityId, Seq<char>)| !ids_of(despawn@.subrange(0, i as int)).contains(p.0),
                ),
                self.next_entity_id == old(self).next_entity_id,
            decreases despawn.len() - i,
        {
            let e = despawn[i];
            let ghost before = *self;
            let ghost prefix = despawn@.subrange(0, i as int);
            let ghost next = despawn@.subrange(0, i as int + 1);
            self.despawn_one(e);
            proof {
                assert(next == prefix.push(e));
                assert(ids_of(next) =~= ids_of(prefix).insert(e.spec_id())) by {
                    assert forall|x: EntityId| ids_of(next).contains(x) <==> ids_of(prefix).insert(e.spec_id()).contains(x) by {
                        if ids_of(prefix).contains(x) {
                            let k = choose|k: int| 0 <= k < prefix.len() && #[trigger] prefix[k].spec_id() == x;
                            assert(next[k] == prefix[k]);
                        }
                        if x == e.spec_id() {
                            assert(next[i as int].spec_id() == x);
                        }
                        if ids_of(next).contains(x) {
                            let k = choose|k: int| 0 <= k < next.len() && #[trigger] next[k].spec_id() == x;
                            if k < i {
                                assert(prefix[k] == next[k]);
                            }
                        }
                    }
                }
                let keep_before = |x: Entity| !prefix.contains(x);
                let keep_now = |x: Entity| !next.contains(x);
                let not_e = |x: Entity| x != e;
                assert forall|x: Entity| #[trigger] keep_now(x) == (keep_before(x) && not_e(x)) by {
                    if prefix.contains(x) {
                        let k = choose|k: int| 0 <= k < prefix.len() && prefix[k] == x;
                        assert(next[k] == x);
                    }
                    if next.contains(x) && x != e {
                        let k = choose|k: int| 0 <= k < next.len() && next[k] == x;
                        assert(k < i);
                        assert(prefix[k] == x);
                    }
                    if x == e {
                        assert(next[i as int] == x);
                    }
                }
                lemma_filter_filter(joined, keep_before, not_e, keep_now);
                assert(self.entities@ == joined.filter(keep_now));
                assert(self.entity_component_signatures@ =~= old_sigs.remove_keys(ids_of(next)));
                assert forall|u: int| 0 <= u < MAX_COMPONENTS implies (#[trigger] self.components@[u])@
                    == old(self).components@[u]@.remove_keys(ids_of(next)) by {
                    assert(before.components@[u]@ == old(self).components@[u]@.remove_keys(ids_of(prefix)));
                    assert(self.components@[u]@ =~= old(self).components@[u]@.remove_keys(ids_of(next)));
                }
                assert(self.tag_manager@ =~= old_tags.filter(
                    |p: (EntityId, Seq<char>)| !ids_of(next).contains(p.0),
                ));
                assert(self.group_manager@ =~= old_groups.filter(
                    |p: (EntityId, Seq<char>)| !ids_of(next).contains(p.0),
                ));
            }
            i = i + 1;
        }
        proof {
            let dead = ids_of(despawn@);
            assert(despawn@.subrange(0, despawn@.len() as int) == despawn@);
            lemma_concat_no_duplicates(old(self).entities@, old(self).entities_to_spawn@);
            lemma_filter_no_duplicates(joined, |e: Entity| !despawn@.contains(e));
            assert(self.signatures() =~= old(self).signatures().remove_keys(dead));
            assert forall|t: ComponentTypeId| #[trigger] self.store(t) == old(self).store(t).remove_keys(dead) by {
                if t < MAX_COMPONENTS {
                    assert(self.components@[t as int]@ == old(self).components@[t as int]@.remove_keys(dead));
                } else {
                    assert(old(self).store(t).remove_keys(dead) =~= Map::<EntityId, V>::empty());
                }
            }
            assert forall|e: Entity| #[trigger] despawn@.contains(e) <==> dead.contains(e.spec_id()) by {
                if dead.contains(e.spec_id()) {
                    let k = choose|k: int| 0 <= k < despawn@.len() && #[trigger] despawn@[k].spec_id() == e.spec_id();
                    assert(despawn@[k] == e);
                }
                if despawn@.contains(e) {
                    let k = choose|k: int| 0 <= k < despawn@.len() && despawn@[k] == e;
                    assert(despawn@[k].spec_id() == e.spec_id());
                }
            }
            assert forall|e: Entity| #[trigger]
                self.entities@.contains(e) implies self.entity_component_signatures@.contains_key(
                    e.spec_id(),
                ) && e.spec_id() < self.next_entity_id by {
                let f = |e: Entity| !despawn@.contains(e);
                joined.lemma_filter_contains_rev(f, e);
                let j = choose|j: int| 0 <= j < self.entities@.len() && self.entities@[j] == e;
                joined.lemma_filter_pred(f, j);
                let k = choose|k: int| 0 <= k < joined.len() && joined[k] == e;
                if k < old(self).entities@.len() {
                    assert(old(self).entities@[k] == e);
                    assert(old(self).entities@.contains(e));
                } else {
                    assert(old(self).entities_to_spawn@[k - old(self).entities@.len()] == e);
                    assert(old(self).entities_to_spawn@.contains(e));
                }
                assert(!dead.contains(e.spec_id()));
            }
            assert forall|t: ComponentTypeId, x: EntityId|
                t < MAX_COMPONENTS implies (#[trigger] self.components@[t as int]@.contains_key(x) <==> (
                self.entity_component_signatures@.contains_key(x)
                    && self.entity_component_signatures@[x]@.contains(t))) by {
                assert(old(self).components@[t as int]@.contains_key(x) <==> (
                    old_sigs.contains_key(x) && old_sigs[x]@.contains(t)));
            }
            assert forall|x: EntityId| #[trigger]
                self.entity_component_signatures@.contains_key(x) implies self.entity_component_signatures@[x].wf() by {
                assert(old_sigs.contains_key(x));
            }
            assert(self.tag_manager@ == old(self).tags().filter(
                |p: (EntityId, Seq<char>)| !dead.contains(p.0),
            ));
        }
    }

    /// `self` and `other` agree on everything but the tags and groups.
    pub open spec fn same_core(&self, other: &Self) -> bool {
        &&& self.live() == other.live()
        &&& self.to_spawn() == other.to_spawn()
        &&& self.to_despawn() == other.to_despawn()
        &&& self.signatures() == other.signatures()
        &&& forall|t: ComponentTypeId| #[trigger] self.store(t) == other.store(t)
        &&& self.next_id() == other.next_id()
    }

    /// The tag index.
    pub fn tag_manager(&self) -> (r: &TagManager)
        requires
            self.wf(),
        ensures
            r.wf(),
            r@ == self.tags(),
    {
        &self.tag_manager
    }

    /// The group index.
    pub fn group_manager(&self) -> (r: &GroupManager)
        ensures
            r@ == self.groups(),
    {
        &self.group_manager
    }

    /// Gives `entity` the tag `tag` (see `TagManager::set_tag`).
    pub fn set_tag(&mut self, entity: Entity, tag: &str)
        requires
            old(self).wf(),
        ensures
            final(self).wf(),
            final(self).same_core(&*old(self)),
            final(self).tags() == tags_after_set(old(self).tags(), entity.spec_id(), tag@),
            final(self).groups() == old(self).groups(),
    {
        self.tag_manager.set_tag(entity, tag);
    }

    /// Takes away the tag of `entity`.
    pub fn remove_tag(&mut self, entity: Entity)
        requires
            old(self).wf(),
        ensures
            final(self).wf(),
            final(self).same_core(&*old(self)),
            final(self).tags() == tags_after_remove(old(self).tags(), entity.spec_id()),
            final(self).groups() == old(self).groups(),
    {
        self.tag_manager.remove_tag(entity);
    }

    /// Whether `entity` has the tag `tag`.
    pub fn has_tag(&self, entity: Entity, tag: &str) -> (r: bool)
        ensures
            r == self.tags().contains((entity.spec_id(), tag@)),
    {
        self.tag_manager.has_tag(entity, tag)
    }

    /// The entity that has the tag `tag`, if any.
    pub fn get_entity_by_tag(&self, tag: &str) -> (r: Option<Entity>)
        requires
            self.wf(),
        ensures
            r matches Some(e) ==> self.tags().contains((e.spec_id(), tag@)),
            r is None <==> forall|id: EntityId| !self.tags().contains((id, tag@)),
    {
        let r = self.tag_manager.get_entity(tag);
        assert(self.tags() == self.tag_manager@);
        r
    }

    /// Puts `entity` in `group`.
    pub fn add_entity_to_group(&mut self, entity: &Entity, group: &str)
        requires
            old(self).wf(),
        ensures
            final(self).wf(),
            final(self).same_core(&*old(self)),
            final(self).tags() == old(self).tags(),
            final(self).groups() == old(self).groups().insert((entity.spec_id(), group@)),
    {
        self.group_manager.add_entity_to_group(entity, group);
    }

    /// Takes `entity` out of `group`.
    pub fn remove_entity_from_group(&mut self, entity: &Entity, group: &str)
        requires
            old(self).wf(),
        ensures
            final(self).wf(),
            final(self).same_core(&*old(self)),
            final(self).tags() == old(self).tags(),
            final(self).groups() == old(self).groups().remove((entity.spec_id(), group@)),
    {
        self.group_manager.remove_entity_from_group(entity, group);
    }

    /// Whether `entity` is in `group`.
    pub fn entity_in_group(&self, entity: &Entity, group: &str) -> (r: bool)
        ensures
            r == self.groups().contains((entity.spec_id(), group@)),
    {
        self.group_manager.entity_in_group(entity, group)
    }

    /// Whether `group` holds `entity`.
    pub fn group_contains_entity(&self, group: &str, entity: &Entity) -> (r: bool)
        ensures
            r == self.groups().contains((entity.spec_id(), group@)),
    {
        self.group_manager.group_contains_entity(group, entity)
    }

    /// `other` differs from `self` at most in the values, not the keys, of
    /// the components of type `t`.
    pub closed spec fn same_but_values(&self, other: &Self, t: ComponentTypeId) -> bool {
        &&& other.components@.len() == self.components@.len()
        &&& forall|u: int|
            0 <= u < self.components@.len() && u != t ==> #[trigger] other.components@[u]
                == self.components@[u]
        &&& forall|x: EntityId| #[trigger]
            other.components@[t as int]@.contains_key(x) == self.components@[t as int]@.contains_key(x)
        &&& other.entities == self.entities
        &&& other.entities_to_spawn == self.entities_to_spawn
        &&& other.entities_to_despawn == self.entities_to_despawn
        &&& other.entity_component_signatures == self.entity_component_signatures
        &&& other.tag_manager == self.tag_manager
        &&& other.group_manager == self.group_manager
        &&& other.next_entity_id == self.next_entity_id
    }

    /// An exclusive view of the component of type `exclusive` of `entity`
    /// together with a shared view of its component of type `shared`, or
    /// `None` if it lacks either; the two types must differ.
    pub fn get_component_pair(
        &mut self,
        entity: Entity,
        exclusive: ComponentTypeId,
        shared: ComponentTypeId,
    ) -> (r: Option<(&mut V, &V)>)
        requires
            old(self).wf(),
            exclusive < MAX_COMPONENTS,
            shared < MAX_COMPONENTS,
            exclusive != shared,
        ensures
            match r {
                Some((a, b)) => {
                    &&& old(self).store(exclusive).contains_key(entity.spec_id())
                    &&& old(self).store(shared).contains_key(entity.spec_id())
                    &&& *a == old(self).store(exclusive)[entity.spec_id()]
                    &&& *b == old(self).store(shared)[entity.spec_id()]
                    &&& final(self).store(exclusive) == old(self).store(exclusive).insert(
                        entity.spec_id(),
                        *final(a),
                    )
                },
                None => {
                    &&& !(old(self).store(exclusive).contains_key(entity.spec_id()) && old(
                        self,
                    ).store(shared).contains_key(entity.spec_id()))
                    &&& final(self).store(exclusive) == old(self).store(exclusive)
                },
            },
            old(self).same_but_values(&*final(self), exclusive),
            final(self).wf(),
            forall|t: ComponentTypeId| t != exclusive ==> #[trigger] final(self).store(t) == old(self).store(t),
            final(self).signatures() == old(self).signatures(),
            final(self).live() == old(self).live(),
            final(self).to_spawn() == old(self).to_spawn(),
            final(self).to_despawn() == old(self).to_despawn(),
            final(self).tags() == old(self).tags(),
            final(self).groups() == old(self).groups(),
            final(self).next_id() == old(self).next_id(),
    {
        proof {
            old(self).lemma_wf_facts();
        }
        let id = entity.id();
        let slice = self.components.as_mut_slice();
        if exclusive < shared {
            let (low, high) = slice.split_at_mut(shared);
            let b = high[0].get(&id);
            match b {
                Some(y) => match map_get_mut(&mut low[exclusive], id) {
                    Some(x) => Some((x, y)),
                    None => None,
                },
                None => None,
            }
        } else {
            let (low, high) = slice.split_at_mut(exclusive);
            let b = low[shared].get(&id);
            match b {
                Some(y) => match map_get_mut(&mut high[0], id) {
                    Some(x) => Some((x, y)),
                    None => None,
                },
                None => None,
            }
        }
    }

    /// The signature of `entity`, if it has one; every known entity has one.
    pub fn get_signature(&self, entity: Entity) -> (r: Option<&ComponentSignature>)
        requires
            self.wf(),
        ensures
            match r {
                Some(s) => self.signatures().contains_key(entity.spec_id()) && s@ == self.signatures()[entity.spec_id()] && s.wf(),
                None => !self.signatures().contains_key(entity.spec_id()),
            },
            self.is_known(entity) ==> r is Some,
    {
        proof {
            self.lemma_wf_facts();
        }
        self.entity_component_signatures.get(&entity.id())
    }

    /// The live entities, in order, whose signature holds every component
    /// type of `signature`.
    pub fn get_entities_with_signature(&self, signature: &ComponentSignature) -> (r: Vec<Entity>)
        requires
            self.wf(),
        ensures
            r@ == self.live().filter(|e: Entity| self.has_all(e, signature@)),
    {
        let ghost pred = |e: Entity| self.has_all(e, signature@);
        let mut r: Vec<Entity> = Vec::new();
        let mut i: usize = 0;
        while i < self.entities.len()
            invariant
                0 <= i <= self.entities.len(),
                pred == (|e: Entity| self.has_all(e, signature@)),
                r@ == self.entities@.subrange(0, i as int).filter(pred),
            decreases self.entities.len() - i,
        {
            let e = self.entities[i];
            proof {
                assert(self.entities@.subrange(0, i as int + 1) == self.entities@.subrange(0, i as int).push(e));
                self.entities@.subrange(0, i as int).lemma_filter_push(e, pred);
            }
            match self.entity_component_signatures.get(&e.id()) {
                Some(s) => {
                    if signature.is_subset(s) {
                        r.push(e);
                    }
                },
                None => {},
            }
            i = i + 1;
        }
        assert(self.entities@.subrange(0, self.entities@.len() as int) == self.entities@);
        r
    }
}

/// The entities of `v` other than `e`, in order.
fn without(v: &Vec<Entity>, e: Entity) -> (r: Vec<Entity>)
    ensures
        r@ == v@.filter(|x: Entity| x != e),
{
    let ghost keep = |x: Entity| x != e;
    let mut r: Vec<Entity> = Vec::new();
    let mut i: usize = 0;
    while i < v.len()
        invariant
            0 <= i <= v.len(),
            keep == (|x: Entity| x != e),
            r@ == v@.subrange(0, i as int).filter(keep),
        decreases v.len() - i,
    {
        let x = v[i];
        proof {
            assert(v@.subrange(0, i as int + 1) == v@.subrange(0, i as int).push(x));
            v@.subrange(0, i as int).lemma_filter_push(x, keep);
        }
        if x != e {
            r.push(x);
        }
        i = i + 1;
    }
    assert(v@.subrange(0, v@.len() as int) == v@);
    r
}

/// Whether `v` holds `e`.
fn contains_entity(v: &Vec<Entity>, e: Entity) -> (r: bool)
    ensures
        r == v@.contains(e),
{
    let mut i: usize = 0;
    while i < v.len()
        invariant
            0 <= i <= v.len(),
            forall|j: int| 0 <= j < i ==> v@[j] != e,
        decreases v.len() - i,
    {
        if v[i] == e {
            return true;
        }
        i = i + 1;
    }
    false
}

/// A component attached to an entity is what `get_component` reads for it
/// at once, and still is after the next `update`, unless the entity was
/// marked for destruction.
pub proof fn lemma_added_component_read_back<V>(
    a: EntityManager<V>,
    b: EntityManager<V>,
    c: EntityManager<V>,
    entity: Entity,
    type_id: ComponentTypeId,
    component: V,
)
    requires
        a.wf(),
        a.component_added(&b, entity, type_id, component),
        b.flushed_into(&c),
        !b.to_despawn().contains(entity),
    ensures
        b.store(type_id).contains_key(entity.spec_id()),
        b.store(type_id)[entity.spec_id()] == component,
        c.store(type_id).contains_key(entity.spec_id()),
        c.store(type_id)[entity.spec_id()] == component,
{
    let dead = ids_of(b.to_despawn());
    if dead.contains(entity.spec_id()) {
        let k = choose|k: int| 0 <= k < b.to_despawn().len() && #[trigger] b.to_despawn()[k].spec_id() == entity.spec_id();
        assert(b.to_despawn()[k] == entity);
    }
    assert(c.store(type_id) == b.store(type_id).remove_keys(dead));
}

/// After an `update`, an entity that was marked for destruction is no longer
/// known, and no signature lists it among the live entities.
pub proof fn lemma_despawned_unlisted<V>(
    a: EntityManager<V>,
    b: EntityManager<V>,
    entity: Entity,
    required: Set<ComponentTypeId>,
)
    requires
        a.wf(),
        a.flushed_into(&b),
        a.to_despawn().contains(entity),
    ensures
        !b.is_known(entity),
        !b.live().filter(|e: Entity| b.has_all(e, required)).contains(entity),
{
    let keep = |e: Entity| !a.to_despawn().contains(e);
    if b.live().contains(entity) {
        (a.live() + a.to_spawn()).lemma_filter_contains_rev(keep, entity);
        let j = choose|j: int| 0 <= j < b.live().len() && b.live()[j] == entity;
        (a.live() + a.to_spawn()).lemma_filter_pred(keep, j);
    }
    if b.live().filter(|e: Entity| b.has_all(e, required)).contains(entity) {
        b.live().lemma_filter_contains_rev(|e: Entity| b.has_all(e, required), entity);
    }
}

} // verus!
