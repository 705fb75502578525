use crate::component::ComponentTypeId;
use crate::component_signature::{ComponentSignature, MAX_COMPONENTS};
use crate::entity::{ids_of, Entity, EntityId};
use crate::entity_manager::EntityManager;
use crate::tag_manager::{tags_after_remove, tags_after_set};
use crate::events::{EventBus, EventTypeId, listeners_of};
use crate::systems::System;
use vstd::prelude::*;

verus! {

broadcast use vstd::seq_lib::group_filter_ensures, Entity::lemma_spec_new, Entity::lemma_id_determines, Entity::lemma_spec_new_of_id;

/// Every member of a system is live and has a signature with every type
/// the system requires.
pub open spec fn members_match<V>(em: EntityManager<V>, systems: Seq<System>) -> bool {
    forall|i: int, e: Entity|
        0 <= i < systems.len() && #[trigger] systems[i].members().contains(e) ==> em.live().contains(e)
            && em.has_all(e, systems[i].required())
}

/// Every member of a system is known and has a signature with every type
/// the system requires.
pub open spec fn members_known_match<V>(em: EntityManager<V>, systems: Seq<System>) -> bool {
    forall|i: int, e: Entity|
        0 <= i < systems.len() && #[trigger] systems[i].members().contains(e) ==> em.is_known(e)
            && em.has_all(e, systems[i].required())
}

/// Every live entity whose signature has every type a system requires is a
/// member of it.
pub open spec fn matches_are_members<V>(em: EntityManager<V>, systems: Seq<System>) -> bool {
    forall|i: int, e: Entity|
        0 <= i < systems.len() && em.live().contains(e) && em.has_all(e, systems[i].required())
            ==> #[trigger] systems[i].members().contains(e)
}

/// The subscriptions that the systems' event types give, system by system,
/// each naming the index of its system.
pub open spec fn subscriptions_of(systems: Seq<System>) -> Seq<(EventTypeId, usize)>
    decreases systems.len(),
{
    if systems.len() == 0 {
        Seq::empty()
    } else {
        subscriptions_of(systems.drop_last()) + systems.last().events().map_values(
            |t: EventTypeId| (t, (systems.len() - 1) as usize),
        )
    }
}


/// Makes `e` a member of each system whose required types are all in
/// `signature`.
fn offer_entity(systems: &mut Vec<System>, e: Entity, signature: &ComponentSignature)
    requires
        forall|i: int| 0 <= i < old(systems)@.len() ==> (#[trigger] old(systems)@[i]).wf(),
    ensures
        final(systems)@.len() == old(systems)@.len(),
        forall|i: int| 0 <= i < final(systems)@.len() ==> {
            &&& (#[trigger] final(systems)@[i]).wf()
            &&& final(systems)@[i].required() == old(systems)@[i].required()
            &&& final(systems)@[i].events() == old(systems)@[i].events()
            &&& final(systems)@[i].members() == if old(systems)@[i].required().subset_of(signature@) {
                old(systems)@[i].members().insert(e)
            } else {
                old(systems)@[i].members()
            }
        },
{
    let mut i: usize = 0;
    while i < systems.len()
        invariant
            0 <= i <= systems.len(),
            systems@.len() == old(systems)@.len(),
            forall|j: int| i <= j < systems@.len() ==> #[trigger] systems@[j] == old(systems)@[j],
            forall|j: int| 0 <= j < i ==> {
                &&& (#[trigger] systems@[j]).wf()
                &&& systems@[j].required() == old(systems)@[j].required()
                &&& systems@[j].events() == old(systems)@[j].events()
                &&& systems@[j].members() == if old(systems)@[j].required().subset_of(signature@) {
                    old(systems)@[j].members().insert(e)
                } else {
                    old(systems)@[j].members()
                }
            },
            forall|j: int| 0 <= j < old(systems)@.len() ==> (#[trigger] old(systems)@[j]).wf(),
        decreases systems.len() - i,
    {
        if systems[i].signature().is_subset(signature) {
            systems[i].add_entity(e);
        }
        i = i + 1;
    }
}

/// Ends the membership of `e` in each system whose required types are not
/// all in `signature`; with `None`, in every system.
fn withdraw_entity(systems: &mut Vec<System>, e: Entity, signature: Option<&ComponentSignature>)
    requires
        forall|i: int| 0 <= i < old(systems)@.len() ==> (#[trigger] old(systems)@[i]).wf(),
    ensures
        final(systems)@.len() == old(systems)@.len(),
        forall|i: int| 0 <= i < final(systems)@.len() ==> {
            &&& (#[trigger] final(systems)@[i]).wf()
            &&& final(systems)@[i].required() == old(systems)@[i].required()
            &&& final(systems)@[i].events() == old(systems)@[i].events()
            &&& final(systems)@[i].members() == if signature matches Some(s)
                && old(systems)@[i].required().subset_of(s@) {
                old(systems)@[i].members()
            } else {
                old(systems)@[i].members().remove(e)
            }
        },
{
    let mut i: usize = 0;
    while i < systems.len()
        invariant
            0 <= i <= systems.len(),
            systems@.len() == old(systems)@.len(),
            forall|j: int| i <= j < systems@.len() ==> #[trigger] systems@[j] == old(systems)@[j],
            forall|j: int| 0 <= j < i ==> {
                &&& (#[trigger] systems@[j]).wf()
                &&& systems@[j].required() == old(systems)@[j].required()
                &&& systems@[j].events() == old(systems)@[j].events()
                &&& systems@[j].members() == if signature matches Some(s)
                    && old(systems)@[j].required().subset_of(s@) {
                    old(systems)@[j].members()
                } else {
                    old(systems)@[j].members().remove(e)
                }
            },
            forall|j: int| 0 <= j < old(systems)@.len() ==> (#[trigger] old(systems)@[j]).wf(),
        decreases systems.len() - i,
    {
        let keep = match signature {
            Some(s) => systems[i].signature().is_subset(s),
            None => false,
        };
        if !keep {
            systems[i].remove_entity(e);
        }
        i = i + 1;
    }
}

/// Appends the subscriptions that the systems' event types give.
fn subscribe_all(bus: &mut EventBus, systems: &Vec<System>)
    ensures
        final(bus)@ == old(bus)@ + subscriptions_of(systems@),
{
    let mut i: usize = 0;
    assert(old(bus)@ + subscriptions_of(systems@.subrange(0, 0)) =~= old(bus)@);
    while i < systems.len()
        invariant
            0 <= i <= systems.len(),
            bus@ == old(bus)@ + subscriptions_of(systems@.subrange(0, i as int)),
        decreases systems.len() - i,
    {
        let events = systems[i].get_event_type();
        let ghost before = bus@;
        let mut j: usize = 0;
        while j < events.len()
            invariant
                0 <= j <= events.len(),
                events@ == systems@[i as int].events(),
                bus@ == before + events@.subrange(0, j as int).map_values(|t: EventTypeId| (t, i)),
            decreases events.len() - j,
        {
            bus.subscribe_type(events[j], i);
            assert(events@.subrange(0, j as int + 1).map_values(|t: EventTypeId| (t, i))
                =~= events@.subrange(0, j as int).map_values(|t: EventTypeId| (t, i)).push((events@[j as int], i)));
            j = j + 1;
        }
        proof {
            let p = systems@.subrange(0, i as int + 1);
            assert(p.drop_last() =~= systems@.subrange(0, i as int));
            assert(events@.subrange(0, events@.len() as int) == events@);
            assert(bus@ =~= old(bus)@ + subscriptions_of(p));
        }
        i = i + 1;
    }
    assert(systems@.subrange(0, systems@.len() as int) == systems@);
}

/// At every point between the engine's calls, an entity is a member of a
/// system exactly when it is live and its signature holds every component
/// type the system requires; an entity waiting to be spawned is a member of
/// nothing.
pub proof fn lemma_membership<V>(ecs: EntityComponentSystem<V>, i: int, e: Entity)
    requires
        ecs.wf(),
        0 <= i < ecs.systems().len(),
    ensures
        ecs.systems()[i].members().contains(e) <==> (ecs.em().live().contains(e)
            && ecs.em().signatures().contains_key(e.spec_id()) && ecs.systems()[i].required().subset_of(
            ecs.em().signatures()[e.spec_id()],
        )),
        ecs.em().to_spawn().contains(e) ==> !ecs.systems()[i].members().contains(e),
{
    ecs.em().lemma_wf_facts();
}

/// The engine: the registry, the systems in order of registration, and the
/// event bus. It keeps each system's members in step with the signatures.
pub struct EntityComponentSystem<V> {
    entity_manager: EntityManager<V>,
    systems: Vec<System>,
    event_bus: EventBus,
}

impl<V> EntityComponentSystem<V> {
    pub closed spec fn em(&self) -> EntityManager<V> {
        self.entity_manager
    }

    pub closed spec fn systems(&self) -> Seq<System> {
        self.systems@
    }

    pub closed spec fn bus(&self) -> Seq<(EventTypeId, usize)> {
        self.event_bus@
    }

    pub open spec fn wf(&self) -> bool {
        &&& self.em().wf()
        &&& forall|i: int| 0 <= i < self.systems().len() ==> (#[trigger] self.systems()[i]).wf()
        &&& members_match(self.em(), self.systems())
        &&& matches_are_members(self.em(), self.systems())
    }

    pub fn new() -> (r: EntityComponentSystem<V>)
        ensures
            r.wf(),
            r.systems() == Seq::<System>::empty(),
            r.bus() == Seq::<(EventTypeId, usize)>::empty(),
            r.em().live() == Seq::<Entity>::empty(),
            r.em().to_spawn() == Seq::<Entity>::empty(),
            r.em().next_id() == 0,
    {
        EntityComponentSystem {
            entity_manager: EntityManager::new(),
            systems: Vec::new(),
            event_bus: EventBus::new(),
        }
    }

    /// The registry, to read.
    pub fn entity_manager(&self) -> (r: &EntityManager<V>)
        ensures
            *r == self.em(),
    {
        &self.entity_manager
    }

    /// The systems, in order of registration.
    pub fn systems_list(&self) -> (r: &Vec<System>)
        ensures
            r@ == self.systems(),
    {
        &self.systems
    }

    /// The event bus.
    pub fn event_bus(&self) -> (r: &EventBus)
        ensures
            r@ == self.bus(),
    {
        &self.event_bus
    }

    /// Creates an entity (see `EntityManager::create_entity`); it joins the
    /// systems it matches when the next `update` spawns it.
    pub fn create_entity(&mut self) -> (r: Entity)
        requires
            old(self).wf(),
            old(self).em().next_id() < usize::MAX,
        ensures
            final(self).wf(),
            r.spec_id() == old(self).em().next_id(),
            !old(self).em().is_known(r),
            final(self).em().to_spawn() == old(self).em().to_spawn().push(r),
            final(self).em().live() == old(self).em().live(),
            final(self).em().to_despawn() == old(self).em().to_despawn(),
            final(self).em().signatures() == old(self).em().signatures().insert(
                r.spec_id(),
                old(self).em().signature_or_empty(r.spec_id()),
            ),
            forall|t: ComponentTypeId| #[trigger] final(self).em().store(t) == old(self).em().store(t),
            final(self).em().tags() == old(self).em().tags(),
            final(self).em().groups() == old(self).em().groups(),
            final(self).em().next_id() == old(self).em().next_id() + 1,
            final(self).systems() == old(self).systems(),
            final(self).bus() == old(self).bus(),
    {
        proof {
            old(self).em().lemma_wf_facts();
        }
        let r = self.entity_manager.create_entity();
        proof {
            let s = self.systems();
            assert forall|i: int, e: Entity|
                0 <= i < s.len() && #[trigger] s[i].members().contains(e) implies self.em().has_all(
                    e,
                    s[i].required(),
                ) by {
                assert(old(self).em().has_all(e, s[i].required()));
                assert(old(self).em().is_known(e));
                assert(e != r);
            }
            assert forall|i: int, e: Entity|
                0 <= i < s.len() && self.em().live().contains(e) && self.em().has_all(e, s[i].required())
                    implies #[trigger] s[i].members().contains(e) by {
                assert(old(self).em().is_known(e));
                assert(e != r);
                assert(old(self).em().has_all(e, s[i].required()));
            }
        }
        r
    }

    /// Marks `entity` for destruction at the next `update`.
    pub fn destroy_entity(&mut self, entity: Entity)
        requires
            old(self).wf(),
        ensures
            final(self).wf(),
            final(self).em().to_despawn() == if old(self).em().to_despawn().contains(entity) {
                old(self).em().to_despawn()
            } else {
                old(self).em().to_despawn().push(entity)
            },
            final(self).em().live() == old(self).em().live(),
            final(self).em().to_spawn() == old(self).em().to_spawn(),
            final(self).em().signatures() == old(self).em().signatures(),
            forall|t: ComponentTypeId| #[trigger] final(self).em().store(t) == old(self).em().store(t),
            final(self).systems() == old(self).systems(),
            final(self).bus() == old(self).bus(),
    {
        self.entity_manager.destroy_entity(entity);
        proof {
            let s = self.systems();
            assert forall|i: int, e: Entity|
                0 <= i < s.len() && #[trigger] s[i].members().contains(e) implies self.em().has_all(
                    e,
                    s[i].required(),
                ) by {
                assert(old(self).em().has_all(e, s[i].required()));
            }
            assert forall|i: int, e: Entity|
                0 <= i < s.len() && self.em().live().contains(e) && self.em().has_all(e, s[i].required())
                    implies #[trigger] s[i].members().contains(e) by {
                assert(old(self).em().has_all(e, s[i].required()));
            }
        }
    }

    /// Attaches `component` to `entity` as its component of type `type_id`
    /// (see `EntityManager::add_component`); a live entity becomes a member
    /// of the systems it now matches, and an entity waiting to be spawned
    /// joins them only at the next `update`.
    pub fn add_component(&mut self, entity: Entity, type_id: ComponentTypeId, component: V)
        requires
            old(self).wf(),
            type_id < MAX_COMPONENTS,
        ensures
            final(self).wf(),
            old(self).em().component_added(&final(self).em(), entity, type_id, component),
            final(self).systems().len() == old(self).systems().len(),
            forall|i: int| 0 <= i < final(self).systems().len() ==> {
                &&& (#[trigger] final(self).systems()[i]).required() == old(self).systems()[i].required()
                &&& final(self).systems()[i].events() == old(self).systems()[i].events()
                &&& final(self).systems()[i].members() == if final(self).em().live().contains(entity)
                    && final(self).em().has_all(entity, old(self).systems()[i].required()) {
                    old(self).systems()[i].members().insert(entity)
                } else {
                    old(self).systems()[i].members()
                }
            },
            final(self).bus() == old(self).bus(),
    {
        proof {
            old(self).em().lemma_wf_facts();
        }
        self.entity_manager.add_component(entity, type_id, component);
        if self.entity_manager.is_live(entity) {
            match self.entity_manager.get_signature(entity) {
                Some(signature) => {
                    offer_entity(&mut self.systems, entity, signature);
                },
                None => {},
            }
        }
        proof {
            let s = self.systems();
            let o = old(self).systems();
            let em = self.em();
            let oem = old(self).em();
            assert forall|i: int, e: Entity|
                0 <= i < s.len() && #[trigger] s[i].members().contains(e) implies em.has_all(
                    e,
                    s[i].required(),
                ) by {
                if e != entity {
                    assert(o[i].members().contains(e));
                    assert(oem.has_all(e, o[i].required()));
                } else if o[i].members().contains(e) {
                    assert(oem.has_all(e, o[i].required()));
                }
            }
            assert forall|i: int, e: Entity|
                0 <= i < s.len() && em.live().contains(e) && em.has_all(e, s[i].required())
                    implies #[trigger] s[i].members().contains(e) by {
                if e != entity {
                    assert(oem.has_all(e, o[i].required()));
                }
            }
        }
    }

    /// Detaches the component of type `type_id` from `entity` (see
    /// `EntityManager::remove_component`), and ends its membership in the
    /// systems it no longer matches.
    pub fn remove_component(&mut self, entity: Entity, type_id: ComponentTypeId)
        requires
            old(self).wf(),
            type_id < MAX_COMPONENTS,
        ensures
            final(self).wf(),
            final(self).em().store(type_id) == old(self).em().store(type_id).remove(entity.spec_id()),
            forall|t: ComponentTypeId| t != type_id ==> #[trigger] final(self).em().store(t) == old(self).em().store(t),
            final(self).em().live() == old(self).em().live(),
            final(self).em().to_spawn() == old(self).em().to_spawn(),
            old(self).em().signatures().contains_key(entity.spec_id()) ==> final(self).em().signatures()
                == old(self).em().signatures().insert(
                entity.spec_id(),
                old(self).em().signatures()[entity.spec_id()].remove(type_id),
            ),
            !old(self).em().signatures().contains_key(entity.spec_id()) ==> final(self).em().signatures()
                == old(self).em().signatures(),
            final(self).systems().len() == old(self).systems().len(),
            forall|i: int| 0 <= i < final(self).systems().len() ==> {
                &&& (#[trigger] final(self).systems()[i]).required() == old(self).systems()[i].required()
                &&& final(self).systems()[i].events() == old(self).systems()[i].events()
                &&& final(self).systems()[i].members() == if !final(self).em().live().contains(entity)
                    || final(self).em().has_all(entity, old(self).systems()[i].required()) {
                    old(self).systems()[i].members()
                } else {
                    old(self).systems()[i].members().remove(entity)
                }
            },
            final(self).bus() == old(self).bus(),
    {
        proof {
            old(self).em().lemma_wf_facts();
        }
        self.entity_manager.remove_component(entity, type_id);
        if self.entity_manager.is_live(entity) {
            match self.entity_manager.get_signature(entity) {
                Some(signature) => {
                    withdraw_entity(&mut self.systems, entity, Some(signature));
                },
                None => {},
            }
        }
        proof {
            let s = self.systems();
            let o = old(self).systems();
            let em = self.em();
            let oem = old(self).em();
            assert forall|i: int, e: Entity|
                0 <= i < s.len() && #[trigger] s[i].members().contains(e) implies em.has_all(
                    e,
                    s[i].required(),
                ) by {
                assert(o[i].members().contains(e));
                assert(oem.has_all(e, o[i].required()));
            }
            assert forall|i: int, e: Entity|
                0 <= i < s.len() && em.live().contains(e) && em.has_all(e, s[i].required())
                    implies #[trigger] s[i].members().contains(e) by {
                assert(oem.has_all(e, o[i].required()));
            }
        }
    }

    /// A shared view of a component (see `EntityManager::get_component`).
    pub fn get_component(&self, entity: Entity, type_id: ComponentTypeId) -> (r: Option<&V>)
        requires
            self.wf(),
        ensures
            match r {
                Some(v) => self.em().store(type_id).contains_key(entity.spec_id()) && *v == self.em().store(
                    type_id,
                )[entity.spec_id()],
                None => !self.em().store(type_id).contains_key(entity.spec_id()),
            },
    {
        self.entity_manager.get_component(entity, type_id)
    }

    /// An exclusive view of a component (see
    /// `EntityManager::get_component_mut`); the signatures and the members
    /// do not change.
    pub fn get_component_mut(&mut self, entity: Entity, type_id: ComponentTypeId) -> (r: Option<&mut V>)
        requires
            old(self).wf(),
            type_id < MAX_COMPONENTS,
        ensures
            match r {
                Some(v) => old(self).em().store(type_id).contains_key(entity.spec_id()) && *v == old(
                    self,
                ).em().store(type_id)[entity.spec_id()] && final(self).em().store(type_id) == old(self).em().store(
                    type_id,
                ).insert(entity.spec_id(), *final(v)),
                None => !old(self).em().store(type_id).contains_key(entity.spec_id()) && final(self).em().store(type_id)
                    == old(self).em().store(type_id),
            },
            old(self).em().same_but_values(&final(self).em(), type_id),
            final(self).wf(),
            final(self).systems() == old(self).systems(),
            final(self).bus() == old(self).bus(),
    {
        self.entity_manager.get_component_mut(entity, type_id)
    }

    /// Runs the flush at the start of a frame: each entity waiting to be
    /// spawned joins the systems it matches, each entity marked for
    /// destruction leaves every system, the registry is flushed (see
    /// `EntityManager::update`), and the subscriptions are made anew from
    /// the systems' event types, in order of registration. The systems'
    /// own work for the frame comes after this.
    #[verifier::rlimit(100)]
    pub fn update(&mut self)
        requires
            old(self).wf(),
        ensures
            final(self).wf(),
            old(self).em().flushed_into(&final(self).em()),
            final(self).systems().len() == old(self).systems().len(),
            forall|i: int| 0 <= i < final(self).systems().len() ==> {
                &&& (#[trigger] final(self).systems()[i]).required() == old(self).systems()[i].required()
                &&& final(self).systems()[i].events() == old(self).systems()[i].events()
            },
            forall|i: int, e: Entity|
                0 <= i < final(self).systems().len() ==> (#[trigger] final(self).systems()[i].members().contains(e)
                    <==> (old(self).systems()[i].members().contains(e) || (old(self).em().to_spawn().contains(e)
                    && old(self).em().has_all(e, old(self).systems()[i].required())))
                    && !old(self).em().to_despawn().contains(e)),
            final(self).bus() == subscriptions_of(final(self).systems()),
    {
        let ghost em0 = self.em();
        let ghost sys0 = self.systems();
        proof {
            em0.lemma_wf_facts();
        }
        let n = self.entity_manager.pending_spawns().len();
        let mut i: usize = 0;
        while i < n
            invariant
                0 <= i <= n,
                n == em0.to_spawn().len(),
                self.em() == em0,
                em0.wf(),
                self.systems().len() == sys0.len(),
                forall|k: int| 0 <= k < sys0.len() ==> {
                    &&& (#[trigger] self.systems()[k]).wf()
                    &&& self.systems()[k].required() == sys0[k].required()
                    &&& self.systems()[k].events() == sys0[k].events()
                },
                members_known_match(em0, self.systems()),
                matches_are_members(em0, self.systems()),
                forall|j: int, k: int|
                    0 <= j < i && 0 <= k < sys0.len() && em0.has_all(em0.to_spawn()[j], sys0[k].required())
                        ==> #[trigger] self.systems()[k].members().contains(#[trigger] em0.to_spawn()[j]),
                forall|k: int, x: Entity|
                    0 <= k < sys0.len() ==> (#[trigger] self.systems()[k].members().contains(x) <==> (
                    sys0[k].members().contains(x) || (em0.to_spawn().subrange(0, i as int).contains(x)
                        && em0.has_all(x, sys0[k].required())))),
            decreases n - i,
        {
            let e = self.entity_manager.pending_spawns()[i];
            let ghost before = self.systems();
            proof {
                assert(em0.to_spawn().contains(e));
                assert(em0.is_known(e));
            }
            match self.entity_manager.get_signature(e) {
                Some(signature) => {
                    offer_entity(&mut self.systems, e, signature);
                },
                None => {},
            }
            proof {
                let s = self.systems();
                assert forall|k: int, x: Entity|
                    0 <= k < s.len() && #[trigger] s[k].members().contains(x) implies em0.is_known(x)
                        && em0.has_all(x, s[k].required()) by {
                    if x != e {
                        assert(before[k].members().contains(x));
                    } else if before[k].members().contains(x) {
                    }
                }
                assert forall|k: int, x: Entity|
                    0 <= k < s.len() && em0.live().contains(x) && em0.has_all(x, s[k].required())
                        implies #[trigger] s[k].members().contains(x) by {
                    assert(before[k].members().contains(x));
                }
                assert forall|j: int, k: int|
                    0 <= j < i + 1 && 0 <= k < sys0.len() && em0.has_all(em0.to_spawn()[j], sys0[k].required())
                        implies #[trigger] s[k].members().contains(#[trigger] em0.to_spawn()[j]) by {
                    if j < i {
                        assert(before[k].members().contains(em0.to_spawn()[j]));
                    }
                }
                let sp = em0.to_spawn().subrange(0, i as int);
                let sn = em0.to_spawn().subrange(0, i as int + 1);
                assert forall|x: Entity| #[trigger] sn.contains(x) <==> sp.contains(x) || x == e by {
                    if sp.contains(x) {
                        let q = choose|q: int| 0 <= q < sp.len() && sp[q] == x;
                        assert(sn[q] == x);
                    }
                    if x == e {
                        assert(sn[i as int] == x);
                    }
                    if sn.contains(x) && x != e {
                        let q = choose|q: int| 0 <= q < sn.len() && sn[q] == x;
                        assert(sp[q] == x);
                    }
                }
                assert forall|k: int, x: Entity|
                    0 <= k < sys0.len() implies (#[trigger] s[k].members().contains(x) <==> (
                    sys0[k].members().contains(x) || (sn.contains(x)
                        && em0.has_all(x, sys0[k].required())))) by {
                    assert(before[k].members().contains(x) <==> (
                    sys0[k].members().contains(x) || (sp.contains(x)
                        && em0.has_all(x, sys0[k].required()))));
                }
            }
            i = i + 1;
        }
        proof {
            assert(em0.to_spawn().subrange(0, n as int) == em0.to_spawn());
            assert(em0.to_despawn().subrange(0, 0) =~= Seq::<Entity>::empty());
        }
        let m = self.entity_manager.pending_despawns().len();
        let mut j: usize = 0;
        while j < m
            invariant
                0 <= j <= m,
                m == em0.to_despawn().len(),
                self.em() == em0,
                em0.wf(),
                self.systems().len() == sys0.len(),
                forall|k: int| 0 <= k < sys0.len() ==> {
                    &&& (#[trigger] self.systems()[k]).wf()
                    &&& self.systems()[k].required() == sys0[k].required()
                    &&& self.systems()[k].events() == sys0[k].events()
                },
                members_known_match(em0, self.systems()),
                forall|k: int, x: Entity|
                    0 <= k < sys0.len() && em0.is_known(x) && !em0.to_despawn().subrange(0, j as int).contains(x)
                        && em0.has_all(x, sys0[k].required()) ==> #[trigger] self.systems()[k].members().contains(x),
                forall|k: int, x: Entity|
                    0 <= k < sys0.len() && em0.to_despawn().subrange(0, j as int).contains(x)
                        ==> !#[trigger] self.systems()[k].members().contains(x),
                forall|k: int, x: Entity|
                    0 <= k < sys0.len() ==> (#[trigger] self.systems()[k].members().contains(x) <==> (
                    sys0[k].members().contains(x) || (em0.to_spawn().contains(x)
                        && em0.has_all(x, sys0[k].required()))) && !em0.to_despawn().subrange(0, j as int).contains(x)),
            decreases m - j,
        {
            let e = self.entity_manager.pending_despawns()[j];
            let ghost before = self.systems();
            withdraw_entity(&mut self.systems, e, None);
            proof {
                let s = self.systems();
                let prefix = em0.to_despawn().subrange(0, j as int);
                let next = em0.to_despawn().subrange(0, j as int + 1);
                assert forall|x: Entity| #[trigger] next.contains(x) <==> prefix.contains(x) || x == e by {
                    if prefix.contains(x) {
                        let q = choose|q: int| 0 <= q < prefix.len() && prefix[q] == x;
                        assert(next[q] == x);
                    }
                    if x == e {
                        assert(next[j as int] == x);
                    }
                    if next.contains(x) && x != e {
                        let q = choose|q: int| 0 <= q < next.len() && next[q] == x;
                        assert(prefix[q] == x);
                    }
                }
                assert forall|k: int, x: Entity|
                    0 <= k < s.len() && #[trigger] s[k].members().contains(x) implies em0.is_known(x)
                        && em0.has_all(x, s[k].required()) by {
                    assert(before[k].members().contains(x));
                }
                assert forall|k: int, x: Entity|
                    0 <= k < sys0.len() && em0.is_known(x) && !next.contains(x)
                        && em0.has_all(x, sys0[k].required()) implies #[trigger] s[k].members().contains(x) by {
                    assert(before[k].members().contains(x));
                }
                assert forall|k: int, x: Entity|
                    0 <= k < sys0.len() && next.contains(x) implies !#[trigger] s[k].members().contains(x) by {
                    if x != e {
                        assert(!before[k].members().contains(x));
                    }
                }
                assert forall|k: int, x: Entity|
                    0 <= k < sys0.len() implies (#[trigger] s[k].members().contains(x) <==> (
                    sys0[k].members().contains(x) || (em0.to_spawn().contains(x)
                        && em0.has_all(x, sys0[k].required()))) && !next.contains(x)) by {
                    assert(before[k].members().contains(x) <==> (
                    sys0[k].members().contains(x) || (em0.to_spawn().contains(x)
                        && em0.has_all(x, sys0[k].required()))) && !prefix.contains(x));
                }
            }
            j = j + 1;
        }
        proof {
            assert(em0.to_despawn().subrange(0, m as int) == em0.to_despawn());
            assert forall|k: int, x: Entity|
                0 <= k < sys0.len() && em0.is_known(x) && !em0.to_despawn().contains(x)
                    && em0.has_all(x, sys0[k].required()) implies #[trigger] self.systems()[k].members().contains(x) by {
                if em0.live().contains(x) {
                } else {
                    let q = choose|q: int| 0 <= q < em0.to_spawn().len() && em0.to_spawn()[q] == x;
                    assert(self.systems()[k].members().contains(em0.to_spawn()[q]));
                }
            }
        }
        self.entity_manager.update();
        self.event_bus.clear();
        subscribe_all(&mut self.event_bus, &self.systems);
        proof {
            let em1 = self.em();
            let s = self.systems();
            let dead = ids_of(em0.to_despawn());
            assert(self.bus() =~= subscriptions_of(s));
            assert forall|x: Entity| #[trigger] em0.to_despawn().contains(x) <==> dead.contains(x.spec_id()) by {
                if dead.contains(x.spec_id()) {
                    let q = choose|q: int| 0 <= q < em0.to_despawn().len() && #[trigger] em0.to_despawn()[q].spec_id() == x.spec_id();
                    assert(em0.to_despawn()[q] == x);
                }
                if em0.to_despawn().contains(x) {
                    let q = choose|q: int| 0 <= q < em0.to_despawn().len() && em0.to_despawn()[q] == x;
                    assert(em0.to_despawn()[q].spec_id() == x.spec_id());
                }
            }
            let keep = |e: Entity| !em0.to_despawn().contains(e);
            let joined = em0.live() + em0.to_spawn();
            assert forall|k: int, x: Entity|
                0 <= k < s.len() && #[trigger] s[k].members().contains(x) implies em1.live().contains(x)
                    && em1.has_all(x, s[k].required()) by {
                assert(em0.is_known(x));
                assert(em0.has_all(x, s[k].required()));
                assert(!em0.to_despawn().contains(x));
                assert(!dead.contains(x.spec_id()));
                if em0.live().contains(x) {
                    let q = choose|q: int| 0 <= q < em0.live().len() && em0.live()[q] == x;
                    assert(joined[q] == x);
                    joined.lemma_filter_contains(keep, q);
                } else {
                    let q = choose|q: int| 0 <= q < em0.to_spawn().len() && em0.to_spawn()[q] == x;
                    assert(joined[em0.live().len() + q] == x);
                    joined.lemma_filter_contains(keep, em0.live().len() + q);
                }
            }
            assert forall|k: int, x: Entity|
                0 <= k < s.len() && em1.live().contains(x) && em1.has_all(x, s[k].required())
                    implies #[trigger] s[k].members().contains(x) by {
                (em0.live() + em0.to_spawn()).lemma_filter_contains_rev(keep, x);
                let w = choose|w: int| 0 <= w < em1.live().len() && em1.live()[w] == x;
                (em0.live() + em0.to_spawn()).lemma_filter_pred(keep, w);
                let q = choose|q: int| 0 <= q < (em0.live() + em0.to_spawn()).len() && (em0.live() + em0.to_spawn())[q] == x;
                if q < em0.live().len() {
                    assert(em0.live()[q] == x);
                } else {
                    assert(em0.to_spawn()[q - em0.live().len()] == x);
                }
                assert(em0.is_known(x));
                assert(!dead.contains(x.spec_id()));
                assert(em0.has_all(x, s[k].required()));
            }
        }
    }

    /// The listeners to which an event of type `event_type` goes this frame,
    /// in order (see `EventBus::emit`).
    pub fn emit(&self, event_type: EventTypeId) -> (r: Vec<usize>)
        ensures
            r@ == listeners_of(self.bus(), event_type),
    {
        self.event_bus.emit(event_type)
    }

    /// Gives `entity` the tag `tag` (see `TagManager::set_tag`).
    pub fn set_tag(&mut self, entity: Entity, tag: &str)
        requires
            old(self).wf(),
        ensures
            final(self).wf(),
            final(self).em().same_core(&old(self).em()),
            final(self).em().tags() == tags_after_set(old(self).em().tags(), entity.spec_id(), tag@),
            final(self).em().groups() == old(self).em().groups(),
            final(self).systems() == old(self).systems(),
            final(self).bus() == old(self).bus(),
    {
        self.entity_manager.set_tag(entity, tag);
    }

    /// Takes away the tag of `entity`.
    pub fn remove_tag(&mut self, entity: Entity)
        requires
            old(self).wf(),
        ensures
            final(self).wf(),
            final(self).em().same_core(&old(self).em()),
            final(self).em().tags() == tags_after_remove(old(self).em().tags(), entity.spec_id()),
            final(self).em().groups() == old(self).em().groups(),
            final(self).systems() == old(self).systems(),
            final(self).bus() == old(self).bus(),
    {
        self.entity_manager.remove_tag(entity);
    }

    /// Puts `entity` in `group`.
    pub fn add_entity_to_group(&mut self, entity: &Entity, group: &str)
        requires
            old(self).wf(),
        ensures
            final(self).wf(),
            final(self).em().same_core(&old(self).em()),
            final(self).em().tags() == old(self).em().tags(),
            final(self).em().groups() == old(self).em().groups().insert((entity.spec_id(), group@)),
            final(self).systems() == old(self).systems(),
            final(self).bus() == old(self).bus(),
    {
        self.entity_manager.add_entity_to_group(entity, group);
    }

    /// Takes `entity` out of `group`.
    pub fn remove_entity_from_group(&mut self, entity: &Entity, group: &str)
        requires
            old(self).wf(),
        ensures
            final(self).wf(),
            final(self).em().same_core(&old(self).em()),
            final(self).em().tags() == old(self).em().tags(),
            final(self).em().groups() == old(self).em().groups().remove((entity.spec_id(), group@)),
            final(self).systems() == old(self).systems(),
            final(self).bus() == old(self).bus(),
    {
        self.entity_manager.remove_entity_from_group(entity, group);
    }

    /// An exclusive view of one component of `entity` with a shared view of
    /// another (see `EntityManager::get_component_pair`); the signatures and
    /// the members do not change.
    pub fn get_component_pair(
        &mut self,
        entity: Entity,
        exclusive: ComponentTypeId,
        shared: ComponentTypeId,
    ) -> (r: Option<(&mut V, &V)>)
        requires
            old(self).wf(),
            exclusive < MAX_COMPONENTS,
            shared < MAX_COMPONENTS,
            exclusive != shared,
        ensures
            match r {
                Some((a, b)) => {
                    &&& old(self).em().store(exclusive).contains_key(entity.spec_id())
                    &&& old(self).em().store(shared).contains_key(entity.spec_id())
                    &&& *a == old(self).em().store(exclusive)[entity.spec_id()]
                    &&& *b == old(self).em().store(shared)[entity.spec_id()]
                    &&& final(self).em().store(exclusive) == old(self).em().store(exclusive).insert(
                        entity.spec_id(),
                        *final(a),
                    )
                },
                None => {
                    &&& !(old(self).em().store(exclusive).contains_key(entity.spec_id()) && old(
                        self,
                    ).em().store(shared).contains_key(entity.spec_id()))
                    &&& final(self).em().store(exclusive) == old(self).em().store(exclusive)
                },
            },
            old(self).em().same_but_values(&final(self).em(), exclusive),
            final(self).wf(),
            final(self).systems() == old(self).systems(),
            final(self).bus() == old(self).bus(),
    {
        self.entity_manager.get_component_pair(entity, exclusive, shared)
    }

    /// Registers `system` after the others and returns its index. It starts
    /// with the live entities that match its signature as members.
    pub fn add_system(&mut self, system: System) -> (r: usize)
        requires
            old(self).wf(),
            system.wf(),
            old(self).systems().len() < usize::MAX,
        ensures
            final(self).wf(),
            r == old(self).systems().len(),
            final(self).systems().len() == old(self).systems().len() + 1,
            final(self).systems().subrange(0, r as int) == old(self).systems(),
            final(self).systems()[r as int].required() == system.required(),
            final(self).systems()[r as int].events() == system.events(),
            forall|e: Entity| #[trigger] final(self).systems()[r as int].members().contains(e)
                <==> final(self).em().live().contains(e) && final(self).em().has_all(e, system.required()),
            final(self).em() == old(self).em(),
            final(self).bus() == old(self).bus(),
    {
        let mut fresh = system.without_members();
        let matching = self.entity_manager.get_entities_with_signature(fresh.signature());
        let ghost pred = |e: Entity| self.em().has_all(e, system.required());
        let mut i: usize = 0;
        while i < matching.len()
            invariant
                0 <= i <= matching.len(),
                fresh.wf(),
                fresh.required() == system.required(),
                fresh.events() == system.events(),
                pred == (|e: Entity| self.em().has_all(e, system.required())),
                matching@ == self.em().live().filter(pred),
                fresh.members() == matching@.subrange(0, i as int).to_set(),
            decreases matching.len() - i,
        {
            proof {
                assert(matching@.subrange(0, i as int + 1) == matching@.subrange(0, i as int).push(matching@[i as int]));
                matching@.subrange(0, i as int).lemma_push_to_set_commute(matching@[i as int]);
            }
            fresh.add_entity(matching[i]);
            i = i + 1;
        }
        let r = self.systems.len();
        self.systems.push(fresh);
        proof {
            assert(matching@.subrange(0, matching@.len() as int) == matching@);
            let s = self.systems();
            assert(s.subrange(0, r as int) =~= old(self).systems());
            assert forall|e: Entity| #[trigger] s[r as int].members().contains(e)
                <==> self.em().live().contains(e) && self.em().has_all(e, system.required()) by {
                if s[r as int].members().contains(e) {
                    assert(matching@.contains(e));
                    self.em().live().lemma_filter_contains_rev(pred, e);
                    let j = choose|j: int| 0 <= j < matching@.len() && matching@[j] == e;
                    self.em().live().lemma_filter_pred(pred, j);
                }
                if self.em().live().contains(e) && self.em().has_all(e, system.required()) {
                    let k = choose|k: int| 0 <= k < self.em().live().len() && self.em().live()[k] == e;
                    self.em().live().lemma_filter_contains(pred, k);
                }
            }
            assert forall|i: int| 0 <= i < s.len() implies (#[trigger] s[i]).wf() by {
                if i < r {
                    assert(s[i] == old(self).systems()[i]);
                }
            }
            assert forall|i: int, e: Entity|
                0 <= i < s.len() && #[trigger] s[i].members().contains(e) implies self.em().has_all(
                    e,
                    s[i].required(),
                ) by {
                if i < r {
                    assert(s[i] == old(self).systems()[i]);
                }
            }
            assert forall|i: int, e: Entity|
                0 <= i < s.len() && self.em().live().contains(e) && self.em().has_all(e, s[i].required())
                    implies #[trigger] s[i].members().contains(e) by {
                if i < r {
                    assert(s[i] == old(self).systems()[i]);
                }
            }
        }
        r
    }
}

} // verus!
