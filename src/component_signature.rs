use fixedbitset::FixedBitSet;
use vstd::prelude::*;

verus! {

/// How many component types a signature can hold.
pub const MAX_COMPONENTS: usize = 32;

#[verifier::external_type_specification]
#[verifier::external_body]
pub struct ExFixedBitSet(FixedBitSet);

/// The positions of the enabled bits of a bit set.
pub uninterp spec fn bitset_ones(b: FixedBitSet) -> Set<usize>;

/// The length of a bit set in bits, set or unset.
pub uninterp spec fn bitset_len(b: FixedBitSet) -> nat;

/// Relies on `FixedBitSet::with_capacity`: `bits` bits, all clear.
#[verifier::external_body]
fn bitset_with_capacity(bits: usize) -> (r: FixedBitSet)
    ensures
        bitset_len(r) == bits,
        bitset_ones(r) == Set::<usize>::empty(),
{
    FixedBitSet::with_capacity(bits)
}

/// Relies on `FixedBitSet::set`: enables or clears one bit below the
/// length (it panics at or above it), and leaves the length as it was.
#[verifier::external_body]
fn bitset_set(b: &mut FixedBitSet, bit: usize, enabled: bool)
    requires
        bit < bitset_len(*old(b)),
    ensures
        bitset_len(*final(b)) == bitset_len(*old(b)),
        bitset_ones(*final(b)) == if enabled {
            bitset_ones(*old(b)).insert(bit)
        } else {
            bitset_ones(*old(b)).remove(bit)
        },
{
    b.set(bit, enabled)
}

/// Relies on `FixedBitSet::contains`: whether one bit is enabled.
#[verifier::external_body]
fn bitset_contains(b: &FixedBitSet, bit: usize) -> (r: bool)
    ensures
        r == bitset_ones(*b).contains(bit),
{
    b.contains(bit)
}

/// Relies on `FixedBitSet::is_subset`: every bit enabled in `a` is enabled
/// in `b`.
#[verifier::external_body]
fn bitset_is_subset(a: &FixedBitSet, b: &FixedBitSet) -> (r: bool)
    ensures
        r == bitset_ones(*a).subset_of(bitset_ones(*b)),
{
    a.is_subset(b)
}

/// Relies on `FixedBitSet::is_superset`: every bit enabled in `b` is enabled
/// in `a`.
#[verifier::external_body]
fn bitset_is_superset(a: &FixedBitSet, b: &FixedBitSet) -> (r: bool)
    ensures
        r == bitset_ones(*b).subset_of(bitset_ones(*a)),
{
    a.is_superset(b)
}

/// Relies on `FixedBitSet`'s `Clone`: the copy has the same bits and length.
#[verifier::external_body]
fn bitset_clone(b: &FixedBitSet) -> (r: FixedBitSet)
    ensures
        bitset_len(r) == bitset_len(*b),
        bitset_ones(r) == bitset_ones(*b),
{
    b.clone()
}

/// The set of component types that an entity has, or that a system requires:
/// one bit per component type id, below `MAX_COMPONENTS`.
#[derive(Debug, PartialEq, Eq, PartialOrd, Ord, Hash)]
pub struct ComponentSignature {
    signature: FixedBitSet,
}

impl View for ComponentSignature {
    type V = Set<usize>;

    closed spec fn view(&self) -> Set<usize> {
        bitset_ones(self.signature)
    }
}

impl ComponentSignature {
    /// The bit set is `MAX_COMPONENTS` long and holds no bit beyond it.
    pub closed spec fn wf(&self) -> bool {
        &&& bitset_len(self.signature) == MAX_COMPONENTS
        &&& forall|t: usize| #[trigger] self@.contains(t) ==> t < MAX_COMPONENTS
    }

    /// A well-formed signature holds no type id at or above `MAX_COMPONENTS`.
    pub broadcast proof fn lemma_in_range(s: ComponentSignature, t: usize)
        requires
            s.wf(),
            #[trigger] s@.contains(t),
        ensures
            t < MAX_COMPONENTS,
    {
    }

    /// The empty signature.
    pub fn new() -> (r: ComponentSignature)
        ensures
            r.wf(),
            r@ == Set::<usize>::empty(),
    {
        ComponentSignature { signature: bitset_with_capacity(MAX_COMPONENTS) }
    }

    /// Adds the component type `type_id`.
    pub fn require_component(&mut self, type_id: usize)
        requires
            old(self).wf(),
            type_id < MAX_COMPONENTS,
        ensures
            final(self).wf(),
            final(self)@ == old(self)@.insert(type_id),
    {
        bitset_set(&mut self.signature, type_id, true);
        assert forall|t: usize| #[trigger] self@.contains(t) implies t < MAX_COMPONENTS by {
            if t != type_id {
                assert(old(self)@.contains(t));
            }
        }
    }

    /// Removes the component type `type_id`.
    pub fn remove_component(&mut self, type_id: usize)
        requires
            old(self).wf(),
            type_id < MAX_COMPONENTS,
        ensures
            final(self).wf(),
            final(self)@ == old(self)@.remove(type_id),
    {
        bitset_set(&mut self.signature, type_id, false);
        assert forall|t: usize| #[trigger] self@.contains(t) implies t < MAX_COMPONENTS by {
            assert(old(self)@.contains(t));
        }
    }

    /// Whether the component type `type_id` is in the signature.
    pub fn has_component(&self, type_id: usize) -> (r: bool)
        ensures
            r == self@.contains(type_id),
    {
        bitset_contains(&self.signature, type_id)
    }

    /// Whether every component type of `self` is also in `other`.
    pub fn is_subset(&self, other: &ComponentSignature) -> (r: bool)
        ensures
            r == self@.subset_of(other@),
    {
        bitset_is_subset(&self.signature, &other.signature)
    }

    /// Whether every component type of `other` is also in `self`.
    pub fn is_superset(&self, other: &ComponentSignature) -> (r: bool)
        ensures
            r == other@.subset_of(self@),
    {
        bitset_is_superset(&self.signature, &other.signature)
    }

    /// A copy with the same component types.
    pub fn duplicate(&self) -> (r: ComponentSignature)
        requires
            self.wf(),
        ensures
            r.wf(),
            r@ == self@,
    {
        ComponentSignature { signature: bitset_clone(&self.signature) }
    }
}

impl Default for ComponentSignature {
    fn default() -> (r: ComponentSignature)
        ensures
            r.wf(),
            r@ == Set::<usize>::empty(),
    {
        ComponentSignature::new()
    }
}

} // verus!
