//! Event shapes: the runtime identity of the type of an event.
use std::any::TypeId;
use vstd::prelude::*;

use crate::Event;

verus! {

/// `TypeId` is opaque: two values are compared, never looked into.
#[verifier::external_type_specification]
#[verifier::external_body]
pub struct ExTypeId(TypeId);

/// Relies on `std::any::TypeId::of`: the identity of the event type `T`.
#[verifier::external_body]
pub(crate) fn shape_of<T: Event + 'static>() -> (r: TypeId) {
    TypeId::of::<T>()
}

/// Relies on `TypeId`'s `==`: two identities compare equal exactly when they
/// are the identity of one type.
#[verifier::external_body]
pub(crate) fn same_shape(a: &TypeId, b: &TypeId) -> (r: bool)
    ensures
        r == (*a == *b),
{
    *a == *b
}

} // verus!
