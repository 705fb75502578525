use crate::component_signature::ComponentSignature;
use crate::entity::Entity;
use crate::events::EventTypeId;
use vstd::prelude::*;

verus! {

/// Takes out the next id of a counter that hands ids out in increasing order.
pub fn get_next_system_type_id(counter: &mut usize) -> (r: usize)
    requires
        *old(counter) < usize::MAX,
    ensures
        r == *old(counter),
        *final(counter) == *old(counter) + 1,
{
    let r = *counter;
    *counter = *counter + 1;
    r
}

/// What the engine keeps of one system: the component types it requires,
/// the event types it listens to, and the entities it is matched with.
/// The engine alone changes the members, through `add_entity` and
/// `remove_entity`.
pub struct System {
    signature: ComponentSignature,
    entities: Vec<Entity>,
    event_types: Vec<EventTypeId>,
}

impl System {
    /// The component types the system requires.
    pub closed spec fn required(&self) -> Set<usize> {
        self.signature@
    }

    /// The entities the system is matched with.
    pub closed spec fn members(&self) -> Set<Entity> {
        self.entities@.to_set()
    }

    /// The event types the system listens to, in order.
    pub closed spec fn events(&self) -> Seq<EventTypeId> {
        self.event_types@
    }

    pub closed spec fn wf(&self) -> bool {
        &&& self.signature.wf()
        &&& self.entities@.no_duplicates()
    }

    /// A system that requires `signature`, listens to `event_types`, and has
    /// no members yet.
    pub fn new(signature: ComponentSignature, event_types: Vec<EventTypeId>) -> (r: System)
        requires
            signature.wf(),
        ensures
            r.wf(),
            r.required() == signature@,
            r.members() == Set::<Entity>::empty(),
            r.events() == event_types@,
    {
        let r = System { signature, entities: Vec::new(), event_types };
        assert(r.members() =~= Set::<Entity>::empty());
        r
    }

    /// The same system with no members.
    pub fn without_members(self) -> (r: System)
        requires
            self.wf(),
        ensures
            r.wf(),
            r.required() == self.required(),
            r.events() == self.events(),
            r.members() == Set::<Entity>::empty(),
    {
        let r = System { signature: self.signature, entities: Vec::new(), event_types: self.event_types };
        assert(r.members() =~= Set::<Entity>::empty());
        r
    }

    /// The component types the system requires.
    pub fn signature(&self) -> (r: &ComponentSignature)
        requires
            self.wf(),
        ensures
            r@ == self.required(),
            r.wf(),
    {
        &self.signature
    }

    /// The event types the system listens to.
    pub fn get_event_type(&self) -> (r: &Vec<EventTypeId>)
        ensures
            r@ == self.events(),
    {
        &self.event_types
    }

    /// The members, in the order in which they joined.
    pub fn entities(&self) -> (r: &Vec<Entity>)
        requires
            self.wf(),
        ensures
            r@.to_set() == self.members(),
            r@.no_duplicates(),
    {
        &self.entities
    }

    /// Whether `entity` is a member.
    pub fn has_entity(&self, entity: Entity) -> (r: bool)
        ensures
            r == self.members().contains(entity),
    {
        let mut i: usize = 0;
        while i < self.entities.len()
            invariant
                0 <= i <= self.entities.len(),
                forall|j: int| 0 <= j < i ==> self.entities@[j] != entity,
            decreases self.entities.len() - i,
        {
            if self.entities[i] == entity {
                assert(self.entities@.contains(entity));
                return true;
            }
            i = i + 1;
        }
        assert(!self.entities@.contains(entity));
        false
    }

    /// Makes `entity` a member; a member stays one.
    pub fn add_entity(&mut self, entity: Entity)
        requires
            old(self).wf(),
        ensures
            final(self).wf(),
            final(self).members() == old(self).members().insert(entity),
            final(self).required() == old(self).required(),
            final(self).events() == old(self).events(),
    {
        if !self.has_entity(entity) {
            self.entities.push(entity);
            assert(self.entities@.no_duplicates()) by {
                assert forall|a: int, b: int|
                    0 <= a < self.entities@.len() && 0 <= b < self.entities@.len() && a != b implies
                    self.entities@[a] != self.entities@[b] by {
                    if a < old(self).entities@.len() && b < old(self).entities@.len() {
                    } else if a < old(self).entities@.len() {
                        assert(old(self).entities@.contains(self.entities@[a]));
                    } else {
                        assert(old(self).entities@.contains(self.entities@[b]));
                    }
                }
            }
            assert(self.entities@ == old(self).entities@.push(entity));
            proof {
                old(self).entities@.lemma_push_to_set_commute(entity);
            }
        } else {
            assert(self.members() =~= old(self).members().insert(entity));
        }
    }

    /// Ends the membership of `entity`, if it is a member.
    pub fn remove_entity(&mut self, entity: Entity)
        requires
            old(self).wf(),
        ensures
            final(self).wf(),
            final(self).members() == old(self).members().remove(entity),
            final(self).required() == old(self).required(),
            final(self).events() == old(self).events(),
    {
        let ghost keep = |x: Entity| x != entity;
        let mut kept: Vec<Entity> = Vec::new();
        let mut i: usize = 0;
        while i < self.entities.len()
            invariant
                0 <= i <= self.entities.len(),
                self.entities == old(self).entities,
                keep == (|x: Entity| x != entity),
                kept@ == self.entities@.subrange(0, i as int).filter(keep),
            decreases self.entities.len() - i,
        {
            let x = self.entities[i];
            proof {
                assert(self.entities@.subrange(0, i as int + 1) == self.entities@.subrange(0, i as int).push(x));
                self.entities@.subrange(0, i as int).lemma_filter_push(x, keep);
            }
            if x != entity {
                kept.push(x);
            }
            i = i + 1;
        }
        proof {
            assert(self.entities@.subrange(0, self.entities@.len() as int) == self.entities@);
            crate::seq_facts::lemma_filter_no_duplicates(self.entities@, keep);
            assert forall|x: Entity| #[trigger] kept@.to_set().contains(x) <==> old(self).members().remove(entity).contains(x) by {
                if kept@.contains(x) {
                    self.entities@.lemma_filter_contains_rev(keep, x);
                    let j = choose|j: int| 0 <= j < kept@.len() && kept@[j] == x;
                    self.entities@.lemma_filter_pred(keep, j);
                }
                if old(self).members().remove(entity).contains(x) {
                    let k = choose|k: int| 0 <= k < self.entities@.len() && self.entities@[k] == x;
                    self.entities@.lemma_filter_contains(keep, k);
                }
            }
            assert(kept@.to_set() =~= old(self).members().remove(entity));
        }
        self.entities = kept;
    }
}

} // verus!
