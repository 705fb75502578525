use vstd::prelude::*;

verus! {

/// The integer that identifies an entity.
pub type EntityId = usize;

/// An opaque handle to one game object; it carries no data of its own.
#[derive(Clone, Copy, Debug, PartialEq, Eq, Hash, Structural)]
pub struct Entity {
    id: EntityId,
}

impl Entity {
    /// The id that this handle stands for.
    pub closed spec fn spec_id(self) -> EntityId {
        self.id
    }

    /// The handle for `id`.
    pub closed spec fn spec_new(id: EntityId) -> Entity {
        Entity { id }
    }

    pub broadcast proof fn lemma_spec_new(id: EntityId)
        ensures
            #[trigger] Entity::spec_new(id).spec_id() == id,
    {
    }

    pub broadcast proof fn lemma_spec_new_of_id(e: Entity)
        ensures
            #[trigger] Entity::spec_new(e.spec_id()) == e,
    {
    }

    pub fn new(id: EntityId) -> (r: Entity)
        ensures
            r.spec_id() == id,
            r == Entity::spec_new(id),
    {
        Entity { id }
    }

    pub fn id(&self) -> (r: EntityId)
        ensures
            r == self.spec_id(),
    {
        self.id
    }

    /// Two handles are the same entity exactly when their ids agree.
    pub broadcast proof fn lemma_id_determines(a: Entity, b: Entity)
        ensures
            #[trigger] a.spec_id() == #[trigger] b.spec_id() <==> a == b,
    {
    }
}

/// The ids of a sequence of entities.
pub open spec fn ids_of(s: Seq<Entity>) -> Set<EntityId> {
    Set::new(|id: EntityId| exists|i: int| 0 <= i < s.len() && #[trigger] s[i].spec_id() == id)
}

/// Takes out the next id of a counter that hands ids out in increasing order.
pub fn get_next_entity_id(counter: &mut usize) -> (r: EntityId)
    requires
        *old(counter) < usize::MAX,
    ensures
        r == *old(counter),
        *final(counter) == *old(counter) + 1,
{
    let r = *counter;
    *counter = *counter + 1;
    r
}

} // verus!
