//! A registration: everything the container and the dependency resolver need to know of one
//! implementation of one interface.
use vstd::prelude::*;
use std::any::TypeId;
use crate::container::Constructor;
use crate::injectable::Injectable;
use crate::scope::Scope;
use crate::type_info::type_id_of;

verus! {

/// One implementation registered for one interface.
pub struct Registration {
    /// The interface that the implementation is registered for.
    pub interface_id: TypeId,
    /// The implementation itself.
    pub implementation_id: TypeId,
    /// The name that the implementation gives for the interface.
    pub interface_name: String,
    /// The name that the implementation gives for itself.
    pub implementation_name: String,
    /// Builds the implementation as the interface.
    pub constructor: Constructor,
    /// The lifetime of its instances.
    pub scope: Scope,
    /// The interfaces that the implementation takes from the container, each with its name.
    pub dependent_types: Vec<(TypeId, String)>,
}

impl Registration {
    /// The registration of `Implementation` for `Interface`: the identities of the two types,
    /// the constructor that `Constructor::of` makes for them, and the names, scope and
    /// dependent types that the implementation declares.
    pub fn of<Interface: ?Sized + 'static, Implementation: Injectable<Interface> + 'static>() -> (r: Registration)
        ensures
            call_ensures(type_id_of::<Interface>, (), r.interface_id),
            call_ensures(type_id_of::<Implementation>, (), r.implementation_id),
            call_ensures(Constructor::of::<Interface, Implementation>, (), r.constructor),
            call_ensures(Implementation::__kroom_interface_name, (), r.interface_name),
            call_ensures(Implementation::__kroom_implementation_name, (), r.implementation_name),
            call_ensures(Implementation::__kroom_scope, (), r.scope),
            call_ensures(Implementation::__kroom_dependent_types, (), r.dependent_types),
    {
        let interface_identity = type_id_of::<Interface>;
        let implementation_identity = type_id_of::<Implementation>;
        let make_constructor = Constructor::of::<Interface, Implementation>;
        let declared_interface_name = Implementation::__kroom_interface_name;
        let declared_implementation_name = Implementation::__kroom_implementation_name;
        let declared_scope = Implementation::__kroom_scope;
        let declared_dependencies = Implementation::__kroom_dependent_types;
        Registration {
            interface_id: interface_identity(),
            implementation_id: implementation_identity(),
            interface_name: declared_interface_name(),
            implementation_name: declared_implementation_name(),
            constructor: make_constructor(),
            scope: declared_scope(),
            dependent_types: declared_dependencies(),
        }
    }
}

} // verus!
