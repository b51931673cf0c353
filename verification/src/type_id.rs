use std::any::TypeId;
use vstd::prelude::*;

verus! {

/// Declares `std::any::TypeId` to the verifier as an opaque value.
#[verifier::external_type_specification]
#[verifier::external_body]
pub struct ExTypeId(TypeId);

/// Strongly-typed wrapper around [`std::any::TypeId`] used to identify
/// component and resource types within the ECS at runtime.
#[derive(Clone, Copy, PartialEq, Eq, Hash, Debug, PartialOrd, Ord)]
pub struct ComponentTypeId(TypeId);

/// `TypeId`'s `==`: std documents that two `TypeId`s compare equal exactly
/// when they identify the same type; the contract claims that the answer
/// is the verifier's equality of the two opaque values.
#[verifier::external_body]
fn type_ids_equal(a: &TypeId, b: &TypeId) -> (r: bool)
    ensures
        r == (*a == *b),
{
    *a == *b
}

impl ComponentTypeId {
    /// Constructs the [`ComponentTypeId`] for the concrete type `T`.
    ///
    /// Calls `std::any::TypeId::of::<T>()`. Nothing is stated of the
    /// result: it is an opaque value that the library only compares.
    #[verifier::external_body]
    pub fn of<T: 'static>() -> (r: Self) {
        ComponentTypeId(TypeId::of::<T>())
    }

    /// Returns `true` exactly when both identifiers name the same type.
    pub fn same(&self, other: &Self) -> (r: bool)
        ensures
            r == (*self == *other),
    {
        type_ids_equal(&self.0, &other.0)
    }
}

} // verus!
