use crate::entity::{Entity, EntityId};
use crate::pair_list::PairList;
use vstd::prelude::*;

verus! {

/// Named groups of entities: an entity may be in many groups, and a group
/// may hold many entities.
pub struct GroupManager {
    members: PairList,
}

impl View for GroupManager {
    /// The pairs (entity id, group name) of the membership relation.
    type V = Set<(EntityId, Seq<char>)>;

    closed spec fn view(&self) -> Set<(EntityId, Seq<char>)> {
        self.members@
    }
}

impl GroupManager {
    pub fn new() -> (r: GroupManager)
        ensures
            r@ == Set::<(EntityId, Seq<char>)>::empty(),
    {
        GroupManager { members: PairList::new() }
    }

    /// Puts `entity` in `group`; doing so twice changes nothing more.
    pub fn add_entity_to_group(&mut self, entity: &Entity, group: &str)
        ensures
            final(self)@ == old(self)@.insert((entity.spec_id(), group@)),
    {
        let id = entity.id();
        let name = group.to_owned();
        if !self.members.contains(id, &name) {
            self.members.insert(id, name);
        } else {
            assert(self@ =~= old(self)@.insert((id, group@)));
        }
    }

    /// Takes `entity` out of `group`.
    pub fn remove_entity_from_group(&mut self, entity: &Entity, group: &str)
        ensures
            final(self)@ == old(self)@.remove((entity.spec_id(), group@)),
    {
        let id = entity.id();
        let name = group.to_owned();
        self.members.remove_matching(Some(id), Some(&name));
        assert(self@ =~= old(self)@.remove((id, group@)));
    }

    /// Takes `entity` out of every group.
    pub fn remove_entity(&mut self, entity: &Entity)
        ensures
            final(self)@ == old(self)@.filter(|p: (EntityId, Seq<char>)| p.0 != entity.spec_id()),
    {
        let id = entity.id();
        self.members.remove_matching(Some(id), None);
        assert(self@ =~= old(self)@.filter(|p: (EntityId, Seq<char>)| p.0 != id));
    }

    /// Whether `group` holds `entity`.
    pub fn group_contains_entity(&self, group: &str, entity: &Entity) -> (r: bool)
        ensures
            r == self@.contains((entity.spec_id(), group@)),
    {
        let name = group.to_owned();
        self.members.contains(entity.id(), &name)
    }

    /// Whether `entity` is in `group`.
    pub fn entity_in_group(&self, entity: &Entity, group: &str) -> (r: bool)
        ensures
            r == self@.contains((entity.spec_id(), group@)),
    {
        self.group_contains_entity(group, entity)
    }
}

} // verus!
