//! Runtime type identities: the keys under which the container files its bindings.
use vstd::prelude::*;
use std::any::TypeId;

verus! {

/// `std::any::TypeId` is opaque to the verifier: the library only carries such values
/// around and compares them.
#[verifier::external_type_specification]
#[verifier::external_body]
pub struct ExTypeId(TypeId);

/// Calls `std::any::TypeId::of::<T>()`. Nothing is claimed of the value: the
/// verifier cannot name a type as a value. Contracts name the identity of `T` as the value
/// that a call of this function returns (`call_ensures`), so it is public.
#[verifier::external_body]
pub fn type_id_of<T: ?Sized + 'static>() -> TypeId {
    TypeId::of::<T>()
}

/// Calls `<TypeId as PartialEq>::eq`, which compares the two identities and is
/// true exactly when they are the same value.
#[verifier::external_body]
pub(crate) fn same_type(a: &TypeId, b: &TypeId) -> (r: bool)
    ensures
        r == (*a == *b),
{
    *a == *b
}

/// The text that `Debug` writes for a type identity.
pub uninterp spec fn type_id_debug(id: TypeId) -> Seq<char>;

/// Calls `format!("{:?}", id)`: the `Debug` text of the identity.
#[verifier::external_body]
pub(crate) fn type_id_text(id: &TypeId) -> (r: String)
    ensures
        r@ == type_id_debug(*id),
{
    format!("{:?}", id)
}

} // verus!
