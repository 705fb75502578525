use crate::entity_manager::map_get_mut;
use std::collections::HashMap;
use vstd::prelude::*;

verus! {

broadcast use vstd::std_specs::hash::group_hash_axioms;

/// The integer that identifies a kind of resource.
pub type ResourceTypeId = usize;

/// A bag of singletons shared by the systems (a camera, the size of the
/// map), at most one of each kind.
pub struct Resources<R> {
    resources: HashMap<ResourceTypeId, R>,
}

impl<R> View for Resources<R> {
    type V = Map<ResourceTypeId, R>;

    closed spec fn view(&self) -> Map<ResourceTypeId, R> {
        self.resources@
    }
}

impl<R> Resources<R> {
    pub fn new() -> (r: Resources<R>)
        ensures
            r@ == Map::<ResourceTypeId, R>::empty(),
    {
        Resources { resources: HashMap::new() }
    }

    /// Stores `resource` as the one of kind `kind`, in place of any before.
    pub fn put(&mut self, kind: ResourceTypeId, resource: R)
        ensures
            final(self)@ == old(self)@.insert(kind, resource),
    {
        self.resources.insert(kind, resource);
    }

    /// The resource of kind `kind`, if there is one.
    pub fn get(&self, kind: ResourceTypeId) -> (r: Option<&R>)
        ensures
            match r {
                Some(v) => self@.contains_key(kind) && *v == self@[kind],
                None => !self@.contains_key(kind),
            },
    {
        self.resources.get(&kind)
    }

    /// The resource of kind `kind` to change in place, if there is one.
    pub fn get_mut(&mut self, kind: ResourceTypeId) -> (r: Option<&mut R>)
        ensures
            match r {
                Some(v) => old(self)@.contains_key(kind) && *v == old(self)@[kind] && final(self)@
                    == old(self)@.insert(kind, *final(v)),
                None => !old(self)@.contains_key(kind) && final(self)@ == old(self)@,
            },
    {
        map_get_mut(&mut self.resources, kind)
    }
}

} // verus!
