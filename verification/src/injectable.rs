//! What a type implements to be built by the container.
use vstd::prelude::*;
use std::any::TypeId;
use std::sync::Arc;
use crate::container::{Container, ContainerError};
use crate::scope::Scope;

verus! {

/// Implemented by a type that the container can build as an `Interface`.
pub trait Injectable<Interface: ?Sized + 'static> {
    /// Builds a new instance, taking what it depends on from `container`; the error when a
    /// dependency cannot be had.
    fn __kroom_construct(container: &Container) -> Result<Arc<Interface>, ContainerError>;

    /// The name of the interface, for messages.
    fn __kroom_interface_name() -> String;

    /// The name of the implementation, for messages.
    fn __kroom_implementation_name() -> String;

    /// The scope that the implementation declares for its instances, `Singleton` unless it
    /// says otherwise. The container records it in the registration; it builds a new instance
    /// on each request whatever the scope.
    fn __kroom_scope() -> (scope: Scope)
        default_ensures
            scope == Scope::Singleton,
    {
        Scope::Singleton
    }

    /// The interfaces that the implementation takes from the container, each with its name;
    /// none unless the implementation says otherwise.
    fn __kroom_dependent_types() -> (types: Vec<(TypeId, String)>)
        default_ensures
            types@ == Seq::<(TypeId, String)>::empty(),
    {
        Vec::new()
    }
}

} // verus!
