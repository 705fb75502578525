use crate::entity::EntityId;
use vstd::prelude::*;

verus! {

/// Whether the pair `p` is picked out by an optional entity id and an
/// optional name; an absent one matches everything.
pub open spec fn pair_matches(
    p: (EntityId, Seq<char>),
    id: Option<EntityId>,
    name: Option<Seq<char>>,
) -> bool {
    &&& (id matches Some(i) ==> p.0 == i)
    &&& (name matches Some(n) ==> p.1 == n)
}

/// The pairs that a list of entries holds, with each name as characters.
pub open spec fn pairs_of(s: Seq<(EntityId, String)>) -> Set<(EntityId, Seq<char>)> {
    Set::new(
        |p: (EntityId, Seq<char>)|
            exists|i: int| 0 <= i < s.len() && #[trigger] s[i].0 == p.0 && s[i].1@ == p.1,
    )
}

/// A relation between entity ids and strings, kept as a list of entries.
pub struct PairList {
    entries: Vec<(EntityId, String)>,
}

impl View for PairList {
    type V = Set<(EntityId, Seq<char>)>;

    closed spec fn view(&self) -> Set<(EntityId, Seq<char>)> {
        pairs_of(self.entries@)
    }
}

impl PairList {
    pub fn new() -> (r: PairList)
        ensures
            r@ == Set::<(EntityId, Seq<char>)>::empty(),
    {
        let r = PairList { entries: Vec::new() };
        assert(r@ =~= Set::<(EntityId, Seq<char>)>::empty());
        r
    }

    /// Whether the pair `(id, name)` is in the relation.
    pub fn contains(&self, id: EntityId, name: &String) -> (r: bool)
        ensures
            r == self@.contains((id, name@)),
    {
        let mut i: usize = 0;
        while i < self.entries.len()
            invariant
                0 <= i <= self.entries.len(),
                forall|j: int|
                    0 <= j < i ==> !(self.entries@[j].0 == id && self.entries@[j].1@ == name@),
            decreases self.entries.len() - i,
        {
            if self.entries[i].0 == id && self.entries[i].1 == *name {
                assert(self.entries@[i as int].0 == (id, name@).0);
                return true;
            }
            i = i + 1;
        }
        false
    }

    /// Some id paired with `name`, if there is one.
    pub fn find_by_name(&self, name: &String) -> (r: Option<EntityId>)
        ensures
            r matches Some(id) ==> self@.contains((id, name@)),
            r is None ==> forall|id: EntityId| !self@.contains((id, name@)),
    {
        let mut i: usize = 0;
        while i < self.entries.len()
            invariant
                0 <= i <= self.entries.len(),
                forall|j: int| 0 <= j < i ==> self.entries@[j].1@ != name@,
            decreases self.entries.len() - i,
        {
            if self.entries[i].1 == *name {
                let id = self.entries[i].0;
                assert(self.entries@[i as int].0 == (id, name@).0);
                return Some(id);
            }
            i = i + 1;
        }
        None
    }

    /// Adds the pair `(id, name)`.
    pub fn insert(&mut self, id: EntityId, name: String)
        ensures
            final(self)@ == old(self)@.insert((id, name@)),
    {
        let ghost name_view = name@;
        self.entries.push((id, name));
        let ghost old_entries = old(self).entries@;
        assert forall|p: (EntityId, Seq<char>)| #[trigger]
            self@.contains(p) <==> old(self)@.insert((id, name_view)).contains(p) by {
            if self@.contains(p) {
                let i = choose|i: int|
                    0 <= i < self.entries@.len() && #[trigger] self.entries@[i].0 == p.0
                        && self.entries@[i].1@ == p.1;
                if i < old_entries.len() {
                    assert(old_entries[i] == self.entries@[i]);
                }
            }
            if old(self)@.contains(p) {
                let i = choose|i: int|
                    0 <= i < old_entries.len() && #[trigger] old_entries[i].0 == p.0
                        && old_entries[i].1@ == p.1;
                assert(self.entries@[i] == old_entries[i]);
            }
            if p == (id, name_view) {
                let k = old_entries.len() as int;
                assert(self.entries@[k].0 == p.0);
            }
        }
        assert(self@ =~= old(self)@.insert((id, name_view)));
    }

    /// Removes every pair that `id` and `name` pick out (see `pair_matches`).
    pub fn remove_matching(&mut self, id: Option<EntityId>, name: Option<&String>)
        ensures
            final(self)@ == old(self)@.filter(
                |p: (EntityId, Seq<char>)|
                    !pair_matches(
                        p,
                        id,
                        match name {
                            Some(n) => Some(n@),
                            None => None,
                        },
                    ),
            ),
    {
        let ghost name_view: Option<Seq<char>> = match name {
            Some(n) => Some(n@),
            None => None,
        };
        let ghost keep = |p: (EntityId, Seq<char>)| !pair_matches(p, id, name_view);
        let mut old_entries: Vec<(EntityId, String)> = Vec::new();
        std::mem::swap(&mut old_entries, &mut self.entries);
        let mut kept: Vec<(EntityId, String)> = Vec::new();
        let mut i: usize = 0;
        assert(pairs_of(kept@) =~= pairs_of(old_entries@.subrange(0, 0)).filter(keep));
        while i < old_entries.len()
            invariant
                0 <= i <= old_entries.len(),
                old_entries@ == old(self).entries@,
                name_view == (match name {
                    Some(n) => Some(n@),
                    None => None::<Seq<char>>,
                }),
                keep == (|p: (EntityId, Seq<char>)| !pair_matches(p, id, name_view)),
                pairs_of(kept@) == pairs_of(old_entries@.subrange(0, i as int)).filter(keep),
            decreases old_entries.len() - i,
        {
            let ghost before = kept@;
            let ghost prefix = old_entries@.subrange(0, i as int);
            let ghost next = old_entries@.subrange(0, i as int + 1);
            let ghost item = (old_entries@[i as int].0, old_entries@[i as int].1@);
            let e_id = old_entries[i].0;
            let matched_id = match id {
                Some(x) => e_id == x,
                None => true,
            };
            let matched_name = match name {
                Some(n) => old_entries[i].1 == *n,
                None => true,
            };
            let ghost pushed = !(matched_id && matched_name);
            assert(matched_id == (id matches Some(x) ==> item.0 == x));
            assert(matched_name == (name_view matches Some(n) ==> item.1 == n));
            assert(pushed == !pair_matches(item, id, name_view));
            if !(matched_id && matched_name) {
                kept.push((e_id, old_entries[i].1.clone()));
                assert(kept@[kept@.len() - 1].0 == item.0);
                assert(kept@[kept@.len() - 1].1@ == item.1);
            }
            assert(pushed ==> kept@.len() == before.len() + 1);
            assert(!pushed ==> kept@ == before);
            assert(forall|j: int| 0 <= j < before.len() ==> kept@[j] == before[j]);
            assert forall|p: (EntityId, Seq<char>)| #[trigger]
                pairs_of(kept@).contains(p) <==> pairs_of(next).filter(keep).contains(p) by {
                if pairs_of(kept@).contains(p) {
                    let j = choose|j: int|
                        0 <= j < kept@.len() && #[trigger] kept@[j].0 == p.0 && kept@[j].1@
                            == p.1;
                    if j < before.len() {
                        assert(kept@[j] == before[j]);
                        assert(pairs_of(before).contains(p));
                        let k = choose|k: int|
                            0 <= k < prefix.len() && #[trigger] prefix[k].0 == p.0 && prefix[k].1@
                                == p.1;
                        assert(next[k] == prefix[k]);
                    } else {
                        assert(next[i as int].0 == p.0);
                    }
                }
                if pairs_of(next).filter(keep).contains(p) {
                    let k = choose|k: int|
                        0 <= k < next.len() && #[trigger] next[k].0 == p.0 && next[k].1@ == p.1;
                    if k < i {
                        assert(prefix[k] == next[k]);
                        assert(pairs_of(prefix).contains(p));
                        assert(pairs_of(prefix).filter(keep).contains(p));
                        assert(pairs_of(before).contains(p));
                        let j = choose|j: int|
                            0 <= j < before.len() && #[trigger] before[j].0 == p.0 && before[j].1@
                                == p.1;
                        assert(kept@[j] == before[j]);
                    } else {
                        assert(p == item);
                        assert(kept@[kept@.len() - 1].0 == p.0);
                    }
                }
            }
            assert(pairs_of(kept@) =~= pairs_of(next).filter(keep));
            i = i + 1;
        }
        assert(old_entries@.subrange(0, old_entries@.len() as int) == old_entries@);
        self.entries = kept;
        assert(self@ =~= old(self)@.filter(keep));
    }
}

} // verus!
