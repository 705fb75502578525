use crate::entity::{Entity, EntityId};
use crate::pair_list::PairList;
use vstd::prelude::*;

verus! {

/// The tags after `id` is given the tag `tag`: the entity loses its old tag,
/// and whoever held `tag` before loses it.
pub open spec fn tags_after_set(
    tags: Set<(EntityId, Seq<char>)>,
    id: EntityId,
    tag: Seq<char>,
) -> Set<(EntityId, Seq<char>)> {
    tags.filter(|p: (EntityId, Seq<char>)| p.0 != id && p.1 != tag).insert((id, tag))
}

/// The tags after the tag of `id` is taken away.
pub open spec fn tags_after_remove(tags: Set<(EntityId, Seq<char>)>, id: EntityId) -> Set<
    (EntityId, Seq<char>),
> {
    tags.filter(|p: (EntityId, Seq<char>)| p.0 != id)
}

/// A relation between entity ids and strings that is one to one.
pub open spec fn one_to_one(tags: Set<(EntityId, Seq<char>)>) -> bool {
    forall|p: (EntityId, Seq<char>), q: (EntityId, Seq<char>)|
        #![trigger tags.contains(p), tags.contains(q)]
        tags.contains(p) && tags.contains(q) ==> ((p.0 == q.0) <==> (p.1 == q.1))
}

/// Unique string tags on entities: each entity has at most one tag and each
/// tag names at most one entity.
pub struct TagManager {
    tags: PairList,
}

impl View for TagManager {
    type V = Set<(EntityId, Seq<char>)>;

    closed spec fn view(&self) -> Set<(EntityId, Seq<char>)> {
        self.tags@
    }
}

impl TagManager {
    pub open spec fn wf(&self) -> bool {
        one_to_one(self@)
    }

    pub fn new() -> (r: TagManager)
        ensures
            r.wf(),
            r@ == Set::<(EntityId, Seq<char>)>::empty(),
    {
        TagManager { tags: PairList::new() }
    }

    /// Gives `entity` the tag `tag`; the last tag set wins on either side.
    pub fn set_tag(&mut self, entity: Entity, tag: &str)
        requires
            old(self).wf(),
        ensures
            final(self).wf(),
            final(self)@ == tags_after_set(old(self)@, entity.spec_id(), tag@),
    {
        let id = entity.id();
        let name = tag.to_owned();
        self.tags.remove_matching(Some(id), None);
        self.tags.remove_matching(None, Some(&name));
        self.tags.insert(id, name);
        assert(self@ =~= tags_after_set(old(self)@, id, tag@));
    }

    /// Takes away the tag of `entity`, if it has one.
    pub fn remove_tag(&mut self, entity: Entity)
        requires
            old(self).wf(),
        ensures
            final(self).wf(),
            final(self)@ == tags_after_remove(old(self)@, entity.spec_id()),
    {
        let id = entity.id();
        self.tags.remove_matching(Some(id), None);
        assert(self@ =~= tags_after_remove(old(self)@, id));
    }

    /// Whether `entity` has the tag `tag`.
    pub fn has_tag(&self, entity: Entity, tag: &str) -> (r: bool)
        ensures
            r == self@.contains((entity.spec_id(), tag@)),
    {
        let name = tag.to_owned();
        self.tags.contains(entity.id(), &name)
    }

    /// The entity that has the tag `tag`, if any.
    pub fn get_entity(&self, tag: &str) -> (r: Option<Entity>)
        requires
            self.wf(),
        ensures
            r matches Some(e) ==> self@.contains((e.spec_id(), tag@)),
            r is None <==> forall|id: EntityId| !self@.contains((id, tag@)),
    {
        let name = tag.to_owned();
        match self.tags.find_by_name(&name) {
            Some(id) => Some(Entity::new(id)),
            None => None,
        }
    }
}

/// After `set_tag(e, t)`, the tag `t` names `e` and nothing else; after
/// `remove_tag(e)` as well, `t` names nothing.
pub proof fn lemma_tag_round_trip(tags: Set<(EntityId, Seq<char>)>, id: EntityId, tag: Seq<char>)
    ensures
        forall|x: EntityId| #[trigger]
            tags_after_set(tags, id, tag).contains((x, tag)) <==> x == id,
        forall|x: EntityId|
            !#[trigger] tags_after_remove(tags_after_set(tags, id, tag), id).contains((x, tag)),
{
    assert forall|x: EntityId| #[trigger]
        tags_after_set(tags, id, tag).contains((x, tag)) <==> x == id by {
        if x == id {
            assert(tags_after_set(tags, id, tag).contains((id, tag)));
        }
    }
    assert forall|x: EntityId|
        !#[trigger] tags_after_remove(tags_after_set(tags, id, tag), id).contains((x, tag)) by {
        if x != id {
            assert(!tags_after_set(tags, id, tag).contains((x, tag)));
        }
    }
}

} // verus!
