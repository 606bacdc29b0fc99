//! The logic of the `#[injectable]` attribute: which fields are injected, how their types are
//! rewritten, and which `Injectable` impls the expansion holds.
pub mod syntax;
pub mod args;
pub mod fields;
pub mod codegen;
pub mod expansion;
