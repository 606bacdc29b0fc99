//! What an `Injectable` impl that the macro writes consists of.
use vstd::prelude::*;
use crate::injectable_macro::fields::MultiInjected;
use crate::scope::Scope;

verus! {

/// Where a type in the expansion comes from.
#[derive(Debug, Clone, Copy, PartialEq, Eq, Structural)]
pub enum TypeSource {
    /// The type of the `type = T` argument at the given position.
    Argument(usize),
    /// The struct the attribute is on.
    Struct,
}

/// An `impl Injectable<target> for implementation` whose constructor builds the struct with
/// each `#[inject]` field taken by `get` and each `#[multi_inject]` field by `get_all`, and
/// which declares a scope and the types it depends on.
#[derive(Debug)]
pub struct InjectableImpl {
    pub target: TypeSource,
    pub implementation: TypeSource,
    /// The positions of the `#[inject]` fields.
    pub injected: Vec<usize>,
    /// The `#[multi_inject]` fields with their element types.
    pub multi_injected: Vec<MultiInjected>,
    /// The scope that the impl declares.
    pub scope: Scope,
    /// The types that the impl declares it depends on.
    pub dependencies: Vec<TypeSource>,
}

/// The impl of `Injectable<target_type>` for `struct_type` with the given fields. It declares
/// the `Singleton` scope, and the target type as the one type it depends on.
pub fn generate_injectable(
    target_type: TypeSource,
    struct_type: TypeSource,
    injected_fields: &Vec<usize>,
    multi_injected_fields: &Vec<MultiInjected>,
) -> (r: InjectableImpl)
    ensures
        r.target == target_type,
        r.implementation == struct_type,
        r.injected@ == injected_fields@,
        r.multi_injected@ == multi_injected_fields@,
        r.scope == Scope::Singleton,
        r.dependencies@ == seq![target_type],
{
    let mut injected: Vec<usize> = Vec::new();
    let mut i: usize = 0;
    while i < injected_fields.len()
        invariant
            i <= injected_fields@.len(),
            injected@ == injected_fields@.take(i as int),
        decreases injected_fields@.len() - i,
    {
        injected.push(injected_fields[i]);
        i = i + 1;
        assert(injected@ =~= injected_fields@.take(i as int));
    }
    let mut multi_injected: Vec<MultiInjected> = Vec::new();
    let mut j: usize = 0;
    while j < multi_injected_fields.len()
        invariant
            j <= multi_injected_fields@.len(),
            multi_injected@ == multi_injected_fields@.take(j as int),
        decreases multi_injected_fields@.len() - j,
    {
        multi_injected.push(multi_injected_fields[j]);
        j = j + 1;
        assert(multi_injected@ =~= multi_injected_fields@.take(j as int));
    }
    assert(injected@ =~= injected_fields@);
    assert(multi_injected@ =~= multi_injected_fields@);
    let dependencies: Vec<TypeSource> = vec![target_type];
    InjectableImpl {
        target: target_type,
        implementation: struct_type,
        injected,
        multi_injected,
        scope: Scope::Singleton,
        dependencies,
    }
}

} // verus!
