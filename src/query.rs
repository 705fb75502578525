use crate::component::ComponentTypeId;
use crate::component_signature::{ComponentSignature, MAX_COMPONENTS};
use crate::entity::Entity;
use crate::entity_manager::EntityManager;
use vstd::prelude::*;

verus! {

/// Why a query shape was refused.
#[derive(Clone, Copy, Debug, PartialEq, Eq, Structural)]
pub enum QueryError {
    /// A component type id is at or above `MAX_COMPONENTS`.
    TypeOutOfRange,
    /// A component type asked for exclusively is asked for again, which
    /// would give two views of one component with one of them exclusive.
    AliasedExclusive,
}

/// Whether every id of `ids` is below `MAX_COMPONENTS`.
pub open spec fn ids_in_range(ids: Seq<ComponentTypeId>) -> bool {
    forall|i: int| 0 <= i < ids.len() ==> #[trigger] ids[i] < MAX_COMPONENTS
}

/// Whether no type of `exclusive` is asked for twice, exclusively or shared.
pub open spec fn exclusive_alone(exclusive: Seq<ComponentTypeId>, shared: Seq<ComponentTypeId>) -> bool {
    &&& exclusive.no_duplicates()
    &&& forall|i: int| 0 <= i < exclusive.len() ==> !shared.contains(#[trigger] exclusive[i])
}

/// A view over the registry of the live entities that have at least the
/// component types of its shape: some asked for exclusively, some shared.
/// Building it costs nothing; `values` scans the registry each time.
pub struct Query<'a, V> {
    em: &'a EntityManager<V>,
    exclusive: Vec<ComponentTypeId>,
    shared: Vec<ComponentTypeId>,
}

impl<'a, V> Query<'a, V> {
    pub closed spec fn registry(&self) -> EntityManager<V> {
        *self.em
    }

    /// The component types asked for exclusively.
    pub closed spec fn exclusive(&self) -> Seq<ComponentTypeId> {
        self.exclusive@
    }

    /// The component types asked for shared.
    pub closed spec fn shared(&self) -> Seq<ComponentTypeId> {
        self.shared@
    }

    /// Every component type of the shape.
    pub open spec fn required(&self) -> Set<ComponentTypeId> {
        self.exclusive().to_set() + self.shared().to_set()
    }

    /// A query of the shape `exclusive` and `shared` over `em`; refused if
    /// an id is out of range or an exclusive type is asked for twice.
    pub fn new(em: &'a EntityManager<V>, exclusive: Vec<ComponentTypeId>, shared: Vec<ComponentTypeId>) -> (r: Result<Query<'a, V>, QueryError>)
        ensures
            !(ids_in_range(exclusive@) && ids_in_range(shared@)) <==> r == Err::<Query<'a, V>, QueryError>(QueryError::TypeOutOfRange),
            ids_in_range(exclusive@) && ids_in_range(shared@) && !exclusive_alone(exclusive@, shared@)
                <==> r == Err::<Query<'a, V>, QueryError>(QueryError::AliasedExclusive),
            r matches Ok(q) ==> q.registry() == *em && q.exclusive() == exclusive@ && q.shared() == shared@,
    {
        if !all_in_range(&exclusive) || !all_in_range(&shared) {
            return Err(QueryError::TypeOutOfRange);
        }
        let mut i: usize = 0;
        while i < exclusive.len()
            invariant
                0 <= i <= exclusive.len(),
                ids_in_range(exclusive@) && ids_in_range(shared@),
                forall|a: int, b: int| 0 <= a < i && 0 <= b < exclusive.len() && a != b ==> exclusive@[a] != exclusive@[b],
                forall|a: int| 0 <= a < i ==> !shared@.contains(#[trigger] exclusive@[a]),
            decreases exclusive.len() - i,
        {
            let t = exclusive[i];
            let mut j: usize = 0;
            while j < exclusive.len()
                invariant
                    0 <= j <= exclusive.len(),
                    0 <= i < exclusive.len(),
                    ids_in_range(exclusive@) && ids_in_range(shared@),
                    t == exclusive@[i as int],
                    forall|b: int| 0 <= b < j && b != i ==> exclusive@[b] != t,
                decreases exclusive.len() - j,
            {
                if j != i && exclusive[j] == t {
                    assert(!exclusive@.no_duplicates());
                    return Err(QueryError::AliasedExclusive);
                }
                j = j + 1;
            }
            let mut k: usize = 0;
            while k < shared.len()
                invariant
                    0 <= k <= shared.len(),
                    0 <= i < exclusive.len(),
                    ids_in_range(exclusive@) && ids_in_range(shared@),
                    t == exclusive@[i as int],
                    forall|b: int| 0 <= b < k ==> shared@[b] != t,
                decreases shared.len() - k,
            {
                if shared[k] == t {
                    assert(shared@.contains(exclusive@[i as int]));
                    return Err(QueryError::AliasedExclusive);
                }
                k = k + 1;
            }
            i = i + 1;
        }
        Ok(Query { em, exclusive, shared })
    }

    /// The live entities, in order and each once, that have every component
    /// type of the shape; each exclusive view can then be taken once per
    /// entity.
    pub fn values(&self) -> (r: Vec<Entity>)
        requires
            self.registry().wf(),
            ids_in_range(self.exclusive()),
            ids_in_range(self.shared()),
        ensures
            r@ == self.registry().live().filter(|e: Entity| self.registry().has_all(e, self.required())),
            r@.no_duplicates(),
    {
        let mut signature = ComponentSignature::new();
        add_all(&mut signature, &self.exclusive);
        add_all(&mut signature, &self.shared);
        assert(signature@ =~= self.required());
        let r = self.em.get_entities_with_signature(&signature);
        proof {
            self.registry().lemma_wf_facts();
            crate::seq_facts::lemma_filter_no_duplicates(
                self.registry().live(),
                |e: Entity| self.registry().has_all(e, self.required()),
            );
        }
        r
    }
}

/// Whether every id of `ids` is below `MAX_COMPONENTS`.
fn all_in_range(ids: &Vec<ComponentTypeId>) -> (r: bool)
    ensures
        r == ids_in_range(ids@),
{
    let mut i: usize = 0;
    while i < ids.len()
        invariant
            0 <= i <= ids.len(),
            forall|j: int| 0 <= j < i ==> #[trigger] ids@[j] < MAX_COMPONENTS,
        decreases ids.len() - i,
    {
        if ids[i] >= MAX_COMPONENTS {
            return false;
        }
        i = i + 1;
    }
    true
}

/// Adds every id of `ids` to `signature`.
fn add_all(signature: &mut ComponentSignature, ids: &Vec<ComponentTypeId>)
    requires
        old(signature).wf(),
        ids_in_range(ids@),
    ensures
        final(signature).wf(),
        final(signature)@ == old(signature)@ + ids@.to_set(),
{
    let mut i: usize = 0;
    while i < ids.len()
        invariant
            0 <= i <= ids.len(),
            ids_in_range(ids@),
            signature.wf(),
            signature@ == old(signature)@ + ids@.subrange(0, i as int).to_set(),
        decreases ids.len() - i,
    {
        signature.require_component(ids[i]);
        assert(ids@.subrange(0, i as int + 1) == ids@.subrange(0, i as int).push(ids@[i as int]));
        proof {
            ids@.subrange(0, i as int).lemma_push_to_set_commute(ids@[i as int]);
        }
        assert(signature@ =~= old(signature)@ + ids@.subrange(0, i as int + 1).to_set());
        i = i + 1;
    }
    assert(ids@.subrange(0, ids@.len() as int) == ids@);
}

} // verus!
