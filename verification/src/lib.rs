//! An inversion-of-control container for dependency injection: implementations are
//! registered for the interfaces they provide, and the container builds them on request,
//! resolving what they depend on from itself.

pub mod type_info;
pub mod text;
pub mod injectable;
pub mod container;
pub mod scope;
pub mod registration;
pub mod test;
pub mod graph;
pub mod dependency_resolver;
pub mod injectable_macro;
