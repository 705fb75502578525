use crate::component_signature::MAX_COMPONENTS;
use std::any::TypeId;
use vstd::prelude::*;

verus! {

/// The small integer that identifies a component type.
pub type ComponentTypeId = usize;

/// A type whose values can be attached to entities as components; a
/// `ComponentTypeRegistry` gives each such type its id.
pub trait Component: 'static {}

#[verifier::external_type_specification]
#[verifier::external_body]
pub struct ExTypeId(TypeId);

/// Relies on `TypeId::of`: the identifier of the type `T`.
#[verifier::external_body]
fn type_id_of<T: ?Sized + 'static>() -> (r: TypeId) {
    TypeId::of::<T>()
}

/// Relies on `TypeId`'s `==`: two identifiers compare equal exactly when
/// they are the same identifier.
#[verifier::external_body]
fn same_type_id(a: &TypeId, b: &TypeId) -> (r: bool)
    ensures
        r == (*a == *b),
{
    *a == *b
}

/// Takes out the next id of a counter that hands ids out in increasing order.
pub fn get_next_component_type_id(counter: &mut usize) -> (r: ComponentTypeId)
    requires
        *old(counter) < usize::MAX,
    ensures
        r == *old(counter),
        *final(counter) == *old(counter) + 1,
{
    let r = *counter;
    *counter = *counter + 1;
    r
}

/// The error of a registry that already holds `MAX_COMPONENTS` types.
#[derive(Clone, Copy, Debug, PartialEq, Eq, Structural)]
pub enum ComponentTypeError {
    TooManyTypes,
}

/// Gives each component type a stable id: `0` to the first type asked for,
/// `1` to the next new one, and so on, up to `MAX_COMPONENTS`.
pub struct ComponentTypeRegistry {
    types: Vec<TypeId>,
}

impl View for ComponentTypeRegistry {
    /// The registered types, in the order of their ids.
    type V = Seq<TypeId>;

    closed spec fn view(&self) -> Seq<TypeId> {
        self.types@
    }
}

impl ComponentTypeRegistry {
    pub open spec fn wf(&self) -> bool {
        &&& self@.len() <= MAX_COMPONENTS
        &&& self@.no_duplicates()
    }

    pub fn new() -> (r: ComponentTypeRegistry)
        ensures
            r.wf(),
            r@ == Seq::<TypeId>::empty(),
    {
        ComponentTypeRegistry { types: Vec::new() }
    }

    /// The id of the type that `key` identifies, given to it now if it has
    /// none yet.
    pub fn get_type_id_of_key(&mut self, key: TypeId) -> (r: Result<ComponentTypeId, ComponentTypeError>)
        requires
            old(self).wf(),
        ensures
            final(self).wf(),
            old(self)@.contains(key) ==> final(self)@ == old(self)@ && (r matches Ok(i) && i
                < old(self)@.len() && old(self)@[i as int] == key),
            !old(self)@.contains(key) && old(self)@.len() < MAX_COMPONENTS ==> final(self)@
                == old(self)@.push(key) && r == Ok::<ComponentTypeId, ComponentTypeError>(
                old(self)@.len() as ComponentTypeId,
            ),
            !old(self)@.contains(key) && old(self)@.len() == MAX_COMPONENTS ==> final(self)@
                == old(self)@ && r == Err::<ComponentTypeId, ComponentTypeError>(
                ComponentTypeError::TooManyTypes,
            ),
            r matches Ok(i) ==> i < MAX_COMPONENTS,
    {
        let mut i: usize = 0;
        while i < self.types.len()
            invariant
                0 <= i <= self.types.len(),
                self@ == old(self)@,
                self.wf(),
                forall|j: int| 0 <= j < i ==> self@[j] != key,
            decreases self.types.len() - i,
        {
            if same_type_id(&self.types[i], &key) {
                return Ok(i);
            }
            i = i + 1;
        }
        if self.types.len() < MAX_COMPONENTS {
            let id = self.types.len();
            self.types.push(key);
            assert(self@.no_duplicates()) by {
                assert forall|a: int, b: int|
                    0 <= a < self@.len() && 0 <= b < self@.len() && a != b implies self@[a]
                    != self@[b] by {
                    if a < id && b < id {
                        assert(self@[a] == old(self)@[a] && self@[b] == old(self)@[b]);
                    }
                }
            }
            Ok(id)
        } else {
            Err(ComponentTypeError::TooManyTypes)
        }
    }

    /// The id of the component type `C`, given to it now if it has none yet.
    pub fn get_type_id<C: Component>(&mut self) -> (r: Result<ComponentTypeId, ComponentTypeError>)
        requires
            old(self).wf(),
        ensures
            final(self).wf(),
            final(self)@ == old(self)@ || final(self)@ == old(self)@.push(final(self)@.last()),
            r matches Ok(i) ==> i < final(self)@.len() && i < MAX_COMPONENTS,
            r is Err ==> final(self)@ == old(self)@ && old(self)@.len() == MAX_COMPONENTS,
            final(self)@.len() > old(self)@.len() ==> r == Ok::<ComponentTypeId, ComponentTypeError>(
                old(self)@.len() as ComponentTypeId,
            ),
            final(self)@ == old(self)@ ==> (r matches Ok(i) ==> i < old(self)@.len()),
            old(self)@.len() < MAX_COMPONENTS ==> r is Ok,
    {
        let key = type_id_of::<C>();
        self.get_type_id_of_key(key)
    }
}

} // verus!
