//! The container: each interface is bound to the constructors registered for it, in the
//! order of registration.
use vstd::prelude::*;
use std::any::{Any, TypeId};
use std::sync::Arc;
use crate::injectable::Injectable;
use crate::registration::Registration;
use crate::type_info::{type_id_of, same_type, type_id_text, type_id_debug};
use vstd::string::*;
use crate::text::{decimal, push_decimal};

verus! {

/// A constructor with the type of its implementation erased; it builds an `Arc<Interface>`
/// for the interface that it was made for, or the error its implementation reports. The
/// callable inside is a trait object whose product is a `Box<dyn Any>`, neither of which the
/// verifier can hold in a field.
#[verifier::external_body]
pub struct Constructor {
    build: Arc<dyn Fn(&Container) -> Box<dyn Any>>,
}

impl Constructor {
    /// Wraps `Implementation::__kroom_construct` in a callable that boxes its result as a
    /// `Box<dyn Any>`. Nothing is claimed of the value.
    #[verifier::external_body]
    pub fn of<Interface: ?Sized + 'static, Implementation: Injectable<Interface> + 'static>() -> Constructor {
        Constructor {
            build: Arc::new(|container: &Container| -> Box<dyn Any> {
                Box::new(Implementation::__kroom_construct(container))
            }),
        }
    }

    /// Calls `Arc::clone` on the callable: the copy is the same constructor.
    #[verifier::external_body]
    pub(crate) fn duplicate(&self) -> (r: Constructor)
        ensures
            r == *self,
    {
        Constructor { build: Arc::clone(&self.build) }
    }

    /// Runs the callable on `container` and calls `Box::<dyn Any>::downcast` for the
    /// `Result<Arc<Interface>, ContainerError>` that an implementation of `Interface` returns:
    /// `Some` with it when the product has that type, `None` otherwise. Nothing is claimed of
    /// which, nor of the instance: both come from an implementation's own code, which may also
    /// panic, and a panic there unwinds through this call.
    #[verifier::external_body]
    pub(crate) fn build<Interface: ?Sized + 'static>(&self, container: &Container) -> Option<Result<Arc<Interface>, ContainerError>> {
        match (self.build)(container).downcast::<Result<Arc<Interface>, ContainerError>>() {
            Ok(boxed) => Some(*boxed),
            Err(_) => None,
        }
    }
}

/// Why the container could not hand out an instance.
#[derive(Debug)]
pub enum ContainerError {
    /// Nothing is registered for the interface.
    NotRegistered { interface_id: TypeId },
    /// `get` wants exactly one implementation, and `count` are registered.
    MultipleImplementations { interface_id: TypeId, count: usize },
    /// A constructor registered for the interface built a value of another type.
    TypeMismatch { interface_id: TypeId },
    /// The interface was asked for while an instance of it was being built: its
    /// implementation depends on itself, directly or through others.
    CircularDependency { interface_id: TypeId },
    /// The implementation registered for the interface reported `cause` while it was built.
    ConstructionFailed { interface_id: TypeId, cause: Box<ContainerError> },
}

/// The constructors that a map binds to `key`, none where it binds nothing.
pub open spec fn registered_for(m: Map<TypeId, Seq<Constructor>>, key: TypeId) -> Seq<Constructor> {
    if m.contains_key(key) { m[key] } else { Seq::empty() }
}

/// The bindings after `constructor` is registered for `key`: appended to what `key` had.
pub open spec fn with_registered(
    m: Map<TypeId, Seq<Constructor>>,
    key: TypeId,
    constructor: Constructor,
) -> Map<TypeId, Seq<Constructor>> {
    m.insert(key, registered_for(m, key).push(constructor))
}

/// Every interface that has a binding has at least one constructor, and there are
/// finitely many.
pub open spec fn bindings_ok(m: Map<TypeId, Seq<Constructor>>) -> bool {
    &&& m.dom().finite()
    &&& forall|k: TypeId| #[trigger] m.contains_key(k) ==> m[k].len() > 0
}

/// What a build for `key` gives, asked while the instances of `building` are being built:
/// `CircularDependency` when `key` is among them; otherwise what the constructor builds.
pub open spec fn build_outcome_ok<T>(building: Seq<TypeId>, key: TypeId, r: Result<T, ContainerError>) -> bool {
    &&& (building.contains(key) <==> r == Err::<T, ContainerError>(ContainerError::CircularDependency { interface_id: key }))
    &&& (!building.contains(key) ==> built_outcome(key, r))
}

/// `built` is what `constructor` hands back when it builds with `container`: a value that a
/// call of `Constructor::build` on the two returns.
pub closed spec fn built_by<Interface: ?Sized + 'static>(
    constructor: Constructor,
    container: Container,
    built: Option<Result<Arc<Interface>, ContainerError>>,
) -> bool {
    call_ensures(Constructor::build::<Interface>, (&constructor, &container), built)
}

/// `child` is the container handed to a constructor for `key` by `parent`: the same
/// bindings, with `key` being built after the interfaces that `parent` is building.
pub open spec fn child_for(parent: Container, key: TypeId, child: Container) -> bool {
    &&& child@ == parent@
    &&& child.building() == parent.building().push(key)
}

/// What `get` answers for `key` when its constructor handed back `built`: the instance;
/// `ConstructionFailed` around the error the implementation reported; `TypeMismatch` when the
/// constructor built a value of another type.
pub open spec fn build_result<Interface: ?Sized>(
    key: TypeId,
    built: Option<Result<Arc<Interface>, ContainerError>>,
) -> Result<Arc<Interface>, ContainerError> {
    match built {
        Some(Ok(x)) => Ok(x),
        Some(Err(e)) => Err(ContainerError::ConstructionFailed { interface_id: key, cause: Box::new(e) }),
        None => Err(ContainerError::TypeMismatch { interface_id: key }),
    }
}

/// The answer of a single build for `key` by `parent`: what the one registered constructor
/// handed back, building with a child container of `parent`.
pub open spec fn single_build_ok<Interface: ?Sized + 'static>(
    parent: Container,
    key: TypeId,
    r: Result<Arc<Interface>, ContainerError>,
) -> bool {
    exists|child: Container, built: Option<Result<Arc<Interface>, ContainerError>>|
        child_for(parent, key, child) && #[trigger] built_by(registered_for(parent@, key)[0], child, built) && r
            == build_result(key, built)
}

/// The answer of building every constructor for `key` by `parent`, in the order of
/// registration, with one child container of `parent`: on success the i-th instance is what
/// the i-th constructor handed back; on failure, the constructors before one succeeded and the
/// answer is what became of that one's build.
pub open spec fn all_builds_ok<Interface: ?Sized + 'static>(
    parent: Container,
    key: TypeId,
    r: Result<Vec<Arc<Interface>>, ContainerError>,
) -> bool {
    let cs = registered_for(parent@, key);
    exists|child: Container|
        #[trigger] child_for(parent, key, child) && match r {
            Ok(v) => v@.len() == cs.len() && forall|i: int|
                0 <= i < cs.len() ==> #[trigger] built_by(cs[i], child, Some(Ok::<Arc<Interface>, ContainerError>(v@[i]))),
            Err(e) => exists|j: int, built: Option<Result<Arc<Interface>, ContainerError>>|
                0 <= j < cs.len() && #[trigger] built_by(cs[j], child, built) && !(built matches Some(Ok(_)))
                    && Err::<Arc<Interface>, ContainerError>(e) == build_result(key, built),
        }
}

/// What `get` for `key` gives, asked while the instances of `building` are being built:
/// `NotRegistered` when nothing is registered, `MultipleImplementations` when more than one
/// is; otherwise what a build with the single constructor gives.
pub open spec fn get_outcome_ok<T>(
    m: Map<TypeId, Seq<Constructor>>,
    building: Seq<TypeId>,
    key: TypeId,
    r: Result<T, ContainerError>,
) -> bool {
    let n = registered_for(m, key).len();
    &&& (n == 0 <==> r == Err::<T, ContainerError>(ContainerError::NotRegistered { interface_id: key }))
    &&& (n > 1 <==> r == Err::<T, ContainerError>(
        ContainerError::MultipleImplementations { interface_id: key, count: n as usize },
    ))
    &&& (n == 1 ==> build_outcome_ok(building, key, r))
}

/// What a build for `key` comes to: the instance, `TypeMismatch`, or the error the
/// implementation reported, wrapped.
pub open spec fn built_outcome<T>(key: TypeId, r: Result<T, ContainerError>) -> bool {
    ||| r is Ok
    ||| r == Err::<T, ContainerError>(ContainerError::TypeMismatch { interface_id: key })
    ||| r matches Err(ContainerError::ConstructionFailed { interface_id, cause }) && interface_id == key
}

/// What building every one of `n` constructors for `key` gives, asked while the instances of
/// `building` are being built: `CircularDependency` when `key` is among them; otherwise one
/// instance for each constructor, unless one of them built a value of another type or
/// reported an error.
pub open spec fn build_all_outcome_ok<T>(
    n: nat,
    building: Seq<TypeId>,
    key: TypeId,
    r: Result<Vec<T>, ContainerError>,
) -> bool {
    &&& (building.contains(key) <==> r == Err::<Vec<T>, ContainerError>(
        ContainerError::CircularDependency { interface_id: key },
    ))
    &&& (r matches Ok(v) ==> v@.len() == n)
    &&& (!building.contains(key) ==> built_outcome(key, r))
}

/// What `get_all` for `key` gives: `NotRegistered` when nothing is registered; otherwise what
/// building with each of the constructors gives.
pub open spec fn get_all_outcome_ok<T>(
    m: Map<TypeId, Seq<Constructor>>,
    building: Seq<TypeId>,
    key: TypeId,
    r: Result<Vec<T>, ContainerError>,
) -> bool {
    let n = registered_for(m, key).len();
    &&& (n == 0 <==> r == Err::<Vec<T>, ContainerError>(ContainerError::NotRegistered { interface_id: key }))
    &&& (n > 0 ==> build_all_outcome_ok(n, building, key, r))
}

/// The bindings after each registration of `regs` is applied in turn.
pub open spec fn with_registrations(m: Map<TypeId, Seq<Constructor>>, regs: Seq<Registration>) -> Map<
    TypeId,
    Seq<Constructor>,
>
    decreases regs.len(),
{
    if regs.len() == 0 {
        m
    } else {
        with_registered(
            with_registrations(m, regs.drop_last()),
            regs.last().interface_id,
            regs.last().constructor,
        )
    }
}

/// The text of a `ContainerError`.
pub open spec fn error_message(e: ContainerError) -> Seq<char>
    decreases e,
{
    match e {
        ContainerError::NotRegistered { interface_id } => "Interface with TypeId "@ + type_id_debug(
            interface_id,
        ) + " not registered to Container"@,
        ContainerError::MultipleImplementations { interface_id, count } => "Container::get() expects one implementation for TypeId "@
            + type_id_debug(interface_id) + " but received "@ + decimal(count as nat),
        ContainerError::TypeMismatch { interface_id } => "Type mismatch during downcast. Expected an instance for TypeId "@
            + type_id_debug(interface_id),
        ContainerError::CircularDependency { interface_id } => "Interface with TypeId "@ + type_id_debug(interface_id)
            + " depends on itself"@,
        ContainerError::ConstructionFailed { interface_id, cause } => "Building the implementation for TypeId "@
            + type_id_debug(interface_id) + " failed: "@ + error_message(*cause),
    }
}

impl ContainerError {
    /// The text of the error.
    pub fn message(&self) -> (r: String)
        ensures
            r@ == error_message(*self),
        decreases self,
    {
        match self {
            ContainerError::NotRegistered { interface_id } => {
                let mut m = String::from_str("Interface with TypeId ");
                m.append(type_id_text(interface_id).as_str());
                m.append(" not registered to Container");
                m
            },
            ContainerError::MultipleImplementations { interface_id, count } => {
                let mut m = String::from_str("Container::get() expects one implementation for TypeId ");
                m.append(type_id_text(interface_id).as_str());
                m.append(" but received ");
                push_decimal(&mut m, *count);
                m
            },
            ContainerError::TypeMismatch { interface_id } => {
                let mut m = String::from_str("Type mismatch during downcast. Expected an instance for TypeId ");
                m.append(type_id_text(interface_id).as_str());
                m
            },
            ContainerError::CircularDependency { interface_id } => {
                let mut m = String::from_str("Interface with TypeId ");
                m.append(type_id_text(interface_id).as_str());
                m.append(" depends on itself");
                m
            },
            ContainerError::ConstructionFailed { interface_id, cause } => {
                let mut m = String::from_str("Building the implementation for TypeId ");
                m.append(type_id_text(interface_id).as_str());
                m.append(" failed: ");
                let inner = cause.message();
                m.append(inner.as_str());
                m
            },
        }
    }
}

/// What a build by a constructor registered for `interface_id` comes to: the instance;
/// `TypeMismatch` when the constructor built a value of another type; `ConstructionFailed`
/// around the error the implementation reported.
pub fn built_or_mismatch<Interface: ?Sized>(
    interface_id: &TypeId,
    built: Option<Result<Arc<Interface>, ContainerError>>,
) -> (r: Result<Arc<Interface>, ContainerError>)
    ensures
        match built {
            Some(Ok(x)) => r == Ok::<Arc<Interface>, ContainerError>(x),
            Some(Err(e)) => r == Err::<Arc<Interface>, ContainerError>(
                ContainerError::ConstructionFailed { interface_id: *interface_id, cause: Box::new(e) },
            ),
            None => r == Err::<Arc<Interface>, ContainerError>(
                ContainerError::TypeMismatch { interface_id: *interface_id },
            ),
        },
{
    match built {
        Some(Ok(x)) => Ok(x),
        Some(Err(e)) => Err(ContainerError::ConstructionFailed { interface_id: *interface_id, cause: Box::new(e) }),
        None => Err(ContainerError::TypeMismatch { interface_id: *interface_id }),
    }
}

/// The constructors that `regs` register for `key`, in order.
pub open spec fn constructors_registered(regs: Seq<Registration>, key: TypeId) -> Seq<Constructor>
    decreases regs.len(),
{
    if regs.len() == 0 {
        Seq::empty()
    } else if regs.last().interface_id == key {
        constructors_registered(regs.drop_last(), key).push(regs.last().constructor)
    } else {
        constructors_registered(regs.drop_last(), key)
    }
}

/// Registering a constructor for an interface appends it to that interface's constructors
/// and leaves every other interface as it was.
pub proof fn law_register_appends(m: Map<TypeId, Seq<Constructor>>, key: TypeId, constructor: Constructor, other: TypeId)
    ensures
        registered_for(with_registered(m, key, constructor), key) == registered_for(m, key).push(constructor),
        other != key ==> registered_for(with_registered(m, key, constructor), other) == registered_for(m, other),
{
}

/// Registrations keep their order: after a list of registrations, an interface has the
/// constructors it had, followed by those registered for it, in the order of the list.
pub proof fn law_registration_order(m: Map<TypeId, Seq<Constructor>>, regs: Seq<Registration>, key: TypeId)
    ensures
        registered_for(with_registrations(m, regs), key) == registered_for(m, key) + constructors_registered(regs, key),
    decreases regs.len(),
{
    if regs.len() == 0 {
        assert(registered_for(m, key) + Seq::<Constructor>::empty() =~= registered_for(m, key));
    } else {
        law_registration_order(m, regs.drop_last(), key);
        let before = with_registrations(m, regs.drop_last());
        law_register_appends(before, regs.last().interface_id, regs.last().constructor, key);
        if regs.last().interface_id == key {
            assert(registered_for(m, key) + constructors_registered(regs.drop_last(), key).push(regs.last().constructor)
                =~= (registered_for(m, key) + constructors_registered(regs.drop_last(), key)).push(regs.last().constructor));
        }
    }
}

/// A new container has nothing registered: `get` and `get_all` answer `NotRegistered`.
pub proof fn law_empty_container_has_nothing<T>(
    building: Seq<TypeId>,
    key: TypeId,
    one: Result<T, ContainerError>,
    all: Result<Vec<T>, ContainerError>,
)
    ensures
        get_outcome_ok(Map::<TypeId, Seq<Constructor>>::empty(), building, key, one) ==> one == Err::<T, ContainerError>(
            ContainerError::NotRegistered { interface_id: key },
        ),
        get_all_outcome_ok(Map::<TypeId, Seq<Constructor>>::empty(), building, key, all) ==> all == Err::<Vec<T>, ContainerError>(
            ContainerError::NotRegistered { interface_id: key },
        ),
{
}

/// After the first registration for an interface, `get` (asked while the interface is not
/// being built) builds with that constructor: it answers the instance, or what became of the
/// build, and neither `NotRegistered`, `MultipleImplementations` nor `CircularDependency`.
pub proof fn law_get_after_first_registration<T>(
    m: Map<TypeId, Seq<Constructor>>,
    building: Seq<TypeId>,
    key: TypeId,
    constructor: Constructor,
    r: Result<T, ContainerError>,
)
    requires
        registered_for(m, key).len() == 0,
        !building.contains(key),
        get_outcome_ok(with_registered(m, key, constructor), building, key, r),
    ensures
        registered_for(with_registered(m, key, constructor), key) == seq![constructor],
        built_outcome(key, r),
{
    assert(registered_for(with_registered(m, key, constructor), key) =~= seq![constructor]);
}

/// Once an interface has a constructor, registering another one makes `get` answer
/// `MultipleImplementations` with the new count.
pub proof fn law_get_after_second_registration<T>(
    m: Map<TypeId, Seq<Constructor>>,
    building: Seq<TypeId>,
    key: TypeId,
    constructor: Constructor,
    r: Result<T, ContainerError>,
)
    requires
        registered_for(m, key).len() >= 1,
        registered_for(m, key).len() < usize::MAX,
        get_outcome_ok(with_registered(m, key, constructor), building, key, r),
    ensures
        r == Err::<T, ContainerError>(
            ContainerError::MultipleImplementations {
                interface_id: key,
                count: (registered_for(m, key).len() + 1) as usize,
            },
        ),
{
}

/// `get_all` gives one instance for each registration of the interface.
pub proof fn law_get_all_one_per_registration<T>(
    m: Map<TypeId, Seq<Constructor>>,
    building: Seq<TypeId>,
    regs: Seq<Registration>,
    key: TypeId,
    all: Vec<T>,
)
    requires
        get_all_outcome_ok(with_registrations(m, regs), building, key, Ok::<Vec<T>, ContainerError>(all)),
    ensures
        all@.len() == registered_for(m, key).len() + constructors_registered(regs, key).len(),
{
    law_registration_order(m, regs, key);
}

/// `get` and `get_all` agree on an interface: when `get` gives an instance, the interface has
/// one implementation, and `get_all` gives that one instance or what became of its build; when
/// `get_all` gives exactly one instance, `get` builds too.
pub proof fn law_get_agrees_with_get_all<T>(
    m: Map<TypeId, Seq<Constructor>>,
    building: Seq<TypeId>,
    key: TypeId,
    one: Result<T, ContainerError>,
    all: Result<Vec<T>, ContainerError>,
)
    requires
        get_outcome_ok(m, building, key, one),
        get_all_outcome_ok(m, building, key, all),
    ensures
        one is Ok ==> registered_for(m, key).len() == 1 && built_outcome(key, all) && (all matches Ok(v) ==> v@.len() == 1),
        (all matches Ok(v) && v@.len() == 1) ==> registered_for(m, key).len() == 1 && built_outcome(key, one),
{
}

/// `get` hands back what the single registered constructor built, with a container in which
/// the interface is being built: the instance it built, the error it reported (wrapped in
/// `ConstructionFailed`), or `TypeMismatch` when it built a value of another type.
pub proof fn law_get_hands_back_the_build<Interface: ?Sized + 'static>(
    parent: Container,
    key: TypeId,
    r: Result<Arc<Interface>, ContainerError>,
)
    requires
        single_build_ok(parent, key, r),
    ensures
        r matches Ok(x) ==> exists|child: Container|
            child_for(parent, key, child) && #[trigger] built_by(
                registered_for(parent@, key)[0],
                child,
                Some(Ok::<Arc<Interface>, ContainerError>(x)),
            ),
        r matches Err(ContainerError::ConstructionFailed { interface_id, cause }) ==> interface_id == key
            && exists|child: Container|
            child_for(parent, key, child) && #[trigger] built_by(
                registered_for(parent@, key)[0],
                child,
                Some(Err::<Arc<Interface>, ContainerError>(*cause)),
            ),
        r == Err::<Arc<Interface>, ContainerError>(ContainerError::TypeMismatch { interface_id: key }) ==> exists|
            child: Container,
        |
            child_for(parent, key, child) && #[trigger] built_by(
                registered_for(parent@, key)[0],
                child,
                None::<Result<Arc<Interface>, ContainerError>>,
            ),
{
    let (child, built) = choose|child: Container, built: Option<Result<Arc<Interface>, ContainerError>>|
        child_for(parent, key, child) && #[trigger] built_by(registered_for(parent@, key)[0], child, built) && r
            == build_result(key, built);
    assert(child_for(parent, key, child));
}

/// After a list of registrations, `get_all` hands back one instance for each registration of
/// the interface, in the order of the list: the i-th instance is what the i-th of them built.
pub proof fn law_get_all_follows_registration_order<Interface: ?Sized + 'static>(
    parent: Container,
    regs: Seq<Registration>,
    key: TypeId,
    v: Vec<Arc<Interface>>,
)
    requires
        parent@ == with_registrations(Map::<TypeId, Seq<Constructor>>::empty(), regs),
        all_builds_ok(parent, key, Ok::<Vec<Arc<Interface>>, ContainerError>(v)),
    ensures
        v@.len() == constructors_registered(regs, key).len(),
        exists|child: Container|
            #[trigger] child_for(parent, key, child) && forall|i: int|
                0 <= i < v@.len() ==> #[trigger] built_by(
                    constructors_registered(regs, key)[i],
                    child,
                    Some(Ok::<Arc<Interface>, ContainerError>(v@[i])),
                ),
{
    law_registration_order(Map::<TypeId, Seq<Constructor>>::empty(), regs, key);
    assert(registered_for(parent@, key) =~= constructors_registered(regs, key));
}

/// One interface with its constructors.
pub struct Binding {
    interface_id: TypeId,
    constructors: Vec<Constructor>,
}

/// The map that a list of bindings stands for; a later binding of a key overrides an earlier
/// one, though a well-formed list binds each key once.
pub closed spec fn bindings_map(s: Seq<Binding>) -> Map<TypeId, Seq<Constructor>>
    decreases s.len(),
{
    if s.len() == 0 {
        Map::empty()
    } else {
        bindings_map(s.drop_last()).insert(s.last().interface_id, s.last().constructors@)
    }
}

/// Each key is bound once, and to at least one constructor.
pub closed spec fn bindings_wf(s: Seq<Binding>) -> bool {
    &&& forall|i: int, j: int| 0 <= i < j < s.len() ==> s[i].interface_id != s[j].interface_id
    &&& forall|i: int| 0 <= i < s.len() ==> #[trigger] s[i].constructors@.len() > 0
}

proof fn lemma_bindings_map_index(s: Seq<Binding>, i: int)
    requires
        bindings_wf(s),
        0 <= i < s.len(),
    ensures
        bindings_map(s).contains_key(s[i].interface_id),
        bindings_map(s)[s[i].interface_id] == s[i].constructors@,
    decreases s.len(),
{
    if i < s.len() - 1 {
        let t = s.drop_last();
        assert(t[i] == s[i]);
        assert(bindings_wf(t));
        lemma_bindings_map_index(t, i);
        assert(s.last().interface_id != s[i].interface_id);
    }
}

proof fn lemma_bindings_map_absent(s: Seq<Binding>, k: TypeId)
    requires
        forall|i: int| 0 <= i < s.len() ==> s[i].interface_id != k,
    ensures
        !bindings_map(s).contains_key(k),
    decreases s.len(),
{
    if s.len() > 0 {
        let t = s.drop_last();
        assert forall|i: int| 0 <= i < t.len() implies t[i].interface_id != k by {
            assert(t[i] == s[i]);
        }
        lemma_bindings_map_absent(t, k);
        assert(s.last() == s[s.len() - 1]);
    }
}

proof fn lemma_bindings_map_facts(s: Seq<Binding>)
    requires
        bindings_wf(s),
    ensures
        bindings_ok(bindings_map(s)),
        forall|k: TypeId| #[trigger] bindings_map(s).contains_key(k)
            ==> exists|i: int| 0 <= i < s.len() && s[i].interface_id == k,
    decreases s.len(),
{
    if s.len() > 0 {
        let t = s.drop_last();
        assert forall|i: int, j: int| 0 <= i < j < t.len() implies t[i].interface_id != t[j].interface_id by {
            assert(t[i] == s[i] && t[j] == s[j]);
        }
        assert forall|i: int| 0 <= i < t.len() implies #[trigger] t[i].constructors@.len() > 0 by {
            assert(t[i] == s[i]);
        }
        lemma_bindings_map_facts(t);
        let m = bindings_map(s);
        assert forall|k: TypeId| #[trigger] m.contains_key(k)
            implies exists|i: int| 0 <= i < s.len() && s[i].interface_id == k by {
            if k != s.last().interface_id {
                let i = choose|i: int| 0 <= i < t.len() && t[i].interface_id == k;
                assert(s[i] == t[i]);
            } else {
                assert(s[s.len() - 1].interface_id == k);
            }
        }
        assert forall|k: TypeId| #[trigger] m.contains_key(k) implies m[k].len() > 0 by {
            if k == s.last().interface_id {
                assert(s[s.len() - 1].constructors@.len() > 0);
            }
        }
    }
}

proof fn lemma_bindings_map_update(s: Seq<Binding>, i: int, b: Binding)
    requires
        bindings_wf(s),
        0 <= i < s.len(),
        b.interface_id == s[i].interface_id,
    ensures
        bindings_map(s.update(i, b)) == bindings_map(s).insert(b.interface_id, b.constructors@),
    decreases s.len(),
{
    let u = s.update(i, b);
    if i == s.len() - 1 {
        assert(u.drop_last() =~= s.drop_last());
        let t = s.drop_last();
        assert forall|j: int| 0 <= j < t.len() implies t[j].interface_id != b.interface_id by {
            assert(t[j] == s[j]);
        }
        lemma_bindings_map_absent(t, b.interface_id);
        assert(bindings_map(u) =~= bindings_map(s).insert(b.interface_id, b.constructors@));
    } else {
        let t = s.drop_last();
        assert forall|x: int, y: int| 0 <= x < y < t.len() implies t[x].interface_id != t[y].interface_id by {
            assert(t[x] == s[x] && t[y] == s[y]);
        }
        assert forall|x: int| 0 <= x < t.len() implies #[trigger] t[x].constructors@.len() > 0 by {
            assert(t[x] == s[x]);
        }
        assert(t[i] == s[i]);
        lemma_bindings_map_update(t, i, b);
        assert(u.drop_last() =~= t.update(i, b));
        assert(u.last() == s.last());
        assert(s.last().interface_id != b.interface_id);
        assert(bindings_map(u) =~= bindings_map(s).insert(b.interface_id, b.constructors@));
    }
}

/// Calls `Arc::clone`: the copy shares the same bindings.
#[verifier::external_body]
fn share_bindings(bindings: &Arc<Vec<Binding>>) -> (r: Arc<Vec<Binding>>)
    ensures
        r == *bindings,
{
    Arc::clone(bindings)
}

fn copy_type_ids(ids: &Vec<TypeId>) -> (r: Vec<TypeId>)
    ensures
        r@ == ids@,
{
    let mut r: Vec<TypeId> = Vec::new();
    let mut i: usize = 0;
    while i < ids.len()
        invariant
            i <= ids@.len(),
            r@ == ids@.take(i as int),
        decreases ids@.len() - i,
    {
        r.push(ids[i]);
        i = i + 1;
        assert(r@ =~= ids@.take(i as int));
    }
    assert(r@ =~= ids@);
    r
}

/// The two lists bind the same interfaces to the same constructors, in the same order.
spec fn same_bindings(a: Seq<Binding>, b: Seq<Binding>) -> bool {
    &&& a.len() == b.len()
    &&& forall|i: int| 0 <= i < a.len() ==> #[trigger] a[i].interface_id == b[i].interface_id && a[i].constructors@ == b[i].constructors@
}

proof fn lemma_same_bindings(a: Seq<Binding>, b: Seq<Binding>)
    requires
        same_bindings(a, b),
    ensures
        bindings_map(a) == bindings_map(b),
        bindings_wf(a) ==> bindings_wf(b),
    decreases a.len(),
{
    if a.len() > 0 {
        assert(same_bindings(a.drop_last(), b.drop_last())) by {
            assert forall|i: int| 0 <= i < a.drop_last().len() implies #[trigger] a.drop_last()[i].interface_id == b.drop_last()[i].interface_id
                && a.drop_last()[i].constructors@ == b.drop_last()[i].constructors@ by {
                assert(a.drop_last()[i] == a[i] && b.drop_last()[i] == b[i]);
            }
        }
        lemma_same_bindings(a.drop_last(), b.drop_last());
        assert(a.last() == a[a.len() - 1] && b.last() == b[b.len() - 1]);
    }
    if bindings_wf(a) {
        assert forall|i: int, j: int| 0 <= i < j < b.len() implies b[i].interface_id != b[j].interface_id by {
            assert(a[i].interface_id == b[i].interface_id && a[j].interface_id == b[j].interface_id);
        }
        assert forall|i: int| 0 <= i < b.len() implies #[trigger] b[i].constructors@.len() > 0 by {
            assert(a[i].constructors@ == b[i].constructors@);
        }
    }
}

fn copy_bindings(bindings: &Vec<Binding>) -> (r: Vec<Binding>)
    ensures
        same_bindings(bindings@, r@),
{
    let mut r: Vec<Binding> = Vec::new();
    let mut i: usize = 0;
    while i < bindings.len()
        invariant
            i <= bindings@.len(),
            r@.len() == i,
            forall|j: int| 0 <= j < i ==> #[trigger] r@[j].interface_id == bindings@[j].interface_id && r@[j].constructors@ == bindings@[j].constructors@,
        decreases bindings@.len() - i,
    {
        let source = &bindings[i].constructors;
        let mut constructors: Vec<Constructor> = Vec::new();
        let mut k: usize = 0;
        while k < source.len()
            invariant
                k <= source@.len(),
                constructors@ == source@.take(k as int),
            decreases source@.len() - k,
        {
            constructors.push(source[k].duplicate());
            k = k + 1;
            assert(constructors@ =~= source@.take(k as int));
        }
        assert(constructors@ =~= source@);
        r.push(Binding { interface_id: bindings[i].interface_id, constructors });
        i = i + 1;
    }
    r
}

/// An inversion-of-control container.
pub struct Container {
    bindings: Arc<Vec<Binding>>,
    building: Vec<TypeId>,
}

impl View for Container {
    type V = Map<TypeId, Seq<Constructor>>;

    closed spec fn view(&self) -> Map<TypeId, Seq<Constructor>> {
        bindings_map(self.bindings@)
    }
}

impl Container {
    #[verifier::type_invariant]
    spec fn inv(self) -> bool {
        bindings_wf(self.bindings@)
    }

    /// The interfaces whose instances are being built, outermost first; a container handed to
    /// a constructor carries the interface that it builds.
    pub closed spec fn building(&self) -> Seq<TypeId> {
        self.building@
    }

    /// An empty container.
    pub fn new() -> (c: Container)
        ensures
            c@ == Map::<TypeId, Seq<Constructor>>::empty(),
            c.building() == Seq::<TypeId>::empty(),
            bindings_ok(c@),
    {
        let c = Container { bindings: Arc::new(Vec::new()), building: Vec::new() };
        assert(c@ =~= Map::<TypeId, Seq<Constructor>>::empty());
        c
    }

    fn is_building(&self, interface_id: &TypeId) -> (r: bool)
        ensures
            r == self.building().contains(*interface_id),
    {
        let mut i: usize = 0;
        while i < self.building.len()
            invariant
                i <= self.building@.len(),
                forall|j: int| 0 <= j < i ==> self.building@[j] != *interface_id,
            decreases self.building@.len() - i,
        {
            if same_type(&self.building[i], interface_id) {
                assert(self.building@[i as int] == *interface_id);
                return true;
            }
            i = i + 1;
        }
        false
    }

    /// The container to hand to a constructor for `interface_id`: the same bindings, with
    /// `interface_id` being built.
    fn building_child(&self, interface_id: &TypeId) -> (c: Container)
        ensures
            c@ == self@,
            c.building() == self.building().push(*interface_id),
    {
        proof {
            use_type_invariant(self);
        }
        let mut building = copy_type_ids(&self.building);
        building.push(*interface_id);
        Container { bindings: share_bindings(&self.bindings), building }
    }

    /// The constructors registered for `interface_id`, in the order they were registered.
    fn constructors_of(&self, interface_id: &TypeId) -> (r: Option<&Vec<Constructor>>)
        ensures
            r is None <==> !self@.contains_key(*interface_id),
            r matches Some(v) ==> v@ == self@[*interface_id] && v@.len() > 0,
    {
        proof {
            use_type_invariant(self);
        }
        let bindings: &Vec<Binding> = &self.bindings;
        match find_binding(bindings, interface_id) {
            Some(i) => {
                proof {
                    lemma_bindings_map_index(self.bindings@, i as int);
                }
                Some(&bindings[i].constructors)
            },
            None => {
                proof {
                    lemma_bindings_map_absent(self.bindings@, *interface_id);
                }
                None
            },
        }
    }

    /// The number of constructors registered for `interface_id`.
    pub fn registered_count(&self, interface_id: &TypeId) -> (n: usize)
        ensures
            n == registered_for(self@, *interface_id).len(),
    {
        match self.constructors_of(interface_id) {
            Some(v) => v.len(),
            None => 0,
        }
    }

    /// Registers `constructor` for the interface `interface_id`, after those it already has.
    pub fn register_inner(&mut self, interface_id: &TypeId, constructor: &Constructor)
        ensures
            final(self)@ == with_registered(old(self)@, *interface_id, *constructor),
            final(self).building() == old(self).building(),
            bindings_ok(final(self)@),
    {
        proof {
            use_type_invariant(&*self);
        }
        let mut bindings: Vec<Binding> = copy_bindings(&self.bindings);
        proof {
            lemma_same_bindings(self.bindings@, bindings@);
        }
        let ghost before = bindings@;
        let c = constructor.duplicate();
        match find_binding(&bindings, interface_id) {
            Some(i) => {
                proof {
                    lemma_bindings_map_index(before, i as int);
                }
                let mut b = bindings.remove(i);
                b.constructors.push(c);
                let ghost nb = b;
                bindings.insert(i, b);
                proof {
                    assert(bindings@ =~= before.update(i as int, nb));
                    lemma_bindings_map_update(before, i as int, nb);
                    assert(nb.constructors@ == registered_for(bindings_map(before), *interface_id).push(c));
                    assert(bindings_map(bindings@) == with_registered(bindings_map(before), *interface_id, c));
                }
            },
            None => {
                let b = Binding { interface_id: *interface_id, constructors: vec![c] };
                bindings.push(b);
                proof {
                    lemma_bindings_map_absent(before, *interface_id);
                    assert(bindings@.drop_last() =~= before);
                    assert(b.constructors@ =~= registered_for(bindings_map(before), *interface_id).push(c));
                    assert(bindings_map(bindings@) == with_registered(bindings_map(before), *interface_id, c));
                }
            },
        }
        proof {
            assert(bindings_map(bindings@) == with_registered(old(self)@, *interface_id, *constructor));
            lemma_bindings_map_facts(bindings@);
        }
        self.bindings = Arc::new(bindings);
    }

    /// Registers `Implementation` for `Interface`: its constructor is appended to those of the
    /// interface, under the identity of `Interface`.
    pub fn register<Interface: ?Sized + 'static, Implementation: Injectable<Interface> + 'static>(&mut self)
        ensures
            exists|key: TypeId, constructor: Constructor|
                call_ensures(type_id_of::<Interface>, (), key) && call_ensures(
                    Constructor::of::<Interface, Implementation>,
                    (),
                    constructor,
                ) && final(self)@ == with_registered(old(self)@, key, constructor),
            final(self).building() == old(self).building(),
            bindings_ok(final(self)@),
    {
        let identity_of = type_id_of::<Interface>;
        let interface_id = identity_of();
        let make_constructor = Constructor::of::<Interface, Implementation>;
        let constructor = make_constructor();
        self.register_inner(&interface_id, &constructor);
    }

    /// Registers each of `registrations` in turn.
    pub fn register_each(&mut self, registrations: &Vec<Registration>)
        ensures
            final(self)@ == with_registrations(old(self)@, registrations@),
            final(self).building() == old(self).building(),
            bindings_ok(final(self)@),
    {
        proof {
            use_type_invariant(&*self);
            lemma_bindings_map_facts(self.bindings@);
        }
        let mut i: usize = 0;
        while i < registrations.len()
            invariant
                i <= registrations@.len(),
                self@ == with_registrations(old(self)@, registrations@.subrange(0, i as int)),
                self.building() == old(self).building(),
                bindings_ok(self@),
            decreases registrations@.len() - i,
        {
            let r = &registrations[i];
            self.register_inner(&r.interface_id, &r.constructor);
            proof {
                let pre = registrations@.subrange(0, i as int);
                let post = registrations@.subrange(0, i + 1);
                assert(post.drop_last() =~= pre);
                assert(post.last() == registrations@[i as int]);
            }
            i = i + 1;
        }
        proof {
            assert(registrations@.subrange(0, registrations@.len() as int) =~= registrations@);
        }
    }

    /// The instance of the single implementation registered for `interface_id`, built with
    /// this container, in which the interface is then being built. The interface must have
    /// exactly one implementation registered (see `registered_count`).
    pub fn get_by_id<Interface: ?Sized + 'static>(&self, interface_id: &TypeId) -> (r: Result<
        Arc<Interface>,
        ContainerError,
    >)
        requires
            registered_for(self@, *interface_id).len() == 1,
        ensures
            build_outcome_ok(self.building(), *interface_id, r),
            !self.building().contains(*interface_id) ==> single_build_ok(*self, *interface_id, r),
    {
        if self.is_building(interface_id) {
            return Err(ContainerError::CircularDependency { interface_id: *interface_id });
        }
        match self.constructors_of(interface_id) {
            Some(constructors) => {
                let child = self.building_child(interface_id);
                let build = Constructor::build::<Interface>;
                let built = build(&constructors[0], &child);
                let r = built_or_mismatch(interface_id, built);
                assert(built_by(registered_for(self@, *interface_id)[0], child, built));
                r
            },
            // `requires` gives the interface a constructor
            None => Err(ContainerError::NotRegistered { interface_id: *interface_id }),
        }
    }

    /// One instance from each implementation registered for `interface_id`, in the order they
    /// were registered, each built with this container, in which the interface is then being
    /// built. The interface must have an implementation registered (see `registered_count`).
    pub fn get_all_by_id<Interface: ?Sized + 'static>(&self, interface_id: &TypeId) -> (r: Result<
        Vec<Arc<Interface>>,
        ContainerError,
    >)
        requires
            registered_for(self@, *interface_id).len() >= 1,
        ensures
            build_all_outcome_ok(registered_for(self@, *interface_id).len(), self.building(), *interface_id, r),
            !self.building().contains(*interface_id) ==> all_builds_ok(*self, *interface_id, r),
    {
        if self.is_building(interface_id) {
            return Err(ContainerError::CircularDependency { interface_id: *interface_id });
        }
        match self.constructors_of(interface_id) {
            Some(constructors) => {
                let child = self.building_child(interface_id);
                let mut all: Vec<Arc<Interface>> = Vec::new();
                let mut i: usize = 0;
                while i < constructors.len()
                    invariant
                        i <= constructors@.len(),
                        all@.len() == i,
                        constructors@.len() > 0,
                        constructors@ == registered_for(self@, *interface_id),
                        !self.building().contains(*interface_id),
                        child_for(*self, *interface_id, child),
                        forall|x: int| 0 <= x < i ==> #[trigger] built_by(constructors@[x], child, Some(Ok::<Arc<Interface>, ContainerError>(all@[x]))),
                    decreases constructors@.len() - i,
                {
                    let build = Constructor::build::<Interface>;
                    let built = build(&constructors[i], &child);
                    proof {
                        assert(built_by(constructors@[i as int], child, built));
                    }
                    match built_or_mismatch(interface_id, built) {
                        Ok(instance) => {
                            let ghost before = all@;
                            all.push(instance);
                            proof {
                                assert forall|x: int| 0 <= x < i + 1 implies #[trigger] built_by(constructors@[x], child, Some(Ok::<Arc<Interface>, ContainerError>(all@[x]))) by {
                                    if x < i {
                                        assert(all@[x] == before[x]);
                                    }
                                }
                            }
                        },
                        Err(e) => {
                            proof {
                                let r = Err::<Vec<Arc<Interface>>, ContainerError>(e);
                                assert(child_for(*self, *interface_id, child));
                                assert(built_by(constructors@[i as int], child, built));
                                assert(Err::<Arc<Interface>, ContainerError>(e) == build_result(*interface_id, built));
                            }
                            return Err(e);
                        },
                    }
                    i = i + 1;
                }
                proof {
                    assert(child_for(*self, *interface_id, child));
                }
                Ok(all)
            },
            // `requires` gives the interface a constructor
            None => Err(ContainerError::NotRegistered { interface_id: *interface_id }),
        }
    }

    /// The instance of the single implementation registered for `Interface`:
    /// `NotRegistered` when it has none, `MultipleImplementations` when it has more than one.
    pub fn get<Interface: ?Sized + 'static>(&self) -> (r: Result<Arc<Interface>, ContainerError>)
        ensures
            exists|key: TypeId|
                #[trigger] call_ensures(type_id_of::<Interface>, (), key) && get_outcome_ok(self@, self.building(), key, r) && (
                registered_for(self@, key).len() == 1 && !self.building().contains(key) ==> single_build_ok(
                    *self,
                    key,
                    r,
                )),
    {
        let identity_of = type_id_of::<Interface>;
        let interface_id = identity_of();
        let count = self.registered_count(&interface_id);
        let r = if count == 0 {
            Err(ContainerError::NotRegistered { interface_id })
        } else if count > 1 {
            Err(ContainerError::MultipleImplementations { interface_id, count })
        } else {
            self.get_by_id(&interface_id)
        };
        assert(get_outcome_ok(self@, self.building(), interface_id, r));
        assert(call_ensures(type_id_of::<Interface>, (), interface_id) && get_outcome_ok(self@, self.building(), interface_id, r) && (
            registered_for(self@, interface_id).len() == 1 && !self.building().contains(interface_id) ==> single_build_ok(
                *self,
                interface_id,
                r,
            )));
        r
    }

    /// One instance from each implementation registered for `Interface`, in the order they
    /// were registered: `NotRegistered` when it has none.
    pub fn get_all<Interface: ?Sized + 'static>(&self) -> (r: Result<Vec<Arc<Interface>>, ContainerError>)
        ensures
            exists|key: TypeId|
                #[trigger] call_ensures(type_id_of::<Interface>, (), key) && get_all_outcome_ok(self@, self.building(), key, r) && (
                registered_for(self@, key).len() > 0 && !self.building().contains(key) ==> all_builds_ok(
                    *self,
                    key,
                    r,
                )),
    {
        let identity_of = type_id_of::<Interface>;
        let interface_id = identity_of();
        let r = if self.registered_count(&interface_id) == 0 {
            Err(ContainerError::NotRegistered { interface_id })
        } else {
            self.get_all_by_id(&interface_id)
        };
        assert(get_all_outcome_ok(self@, self.building(), interface_id, r));
        assert(call_ensures(type_id_of::<Interface>, (), interface_id) && get_all_outcome_ok(self@, self.building(), interface_id, r) && (
            registered_for(self@, interface_id).len() > 0 && !self.building().contains(interface_id) ==> all_builds_ok(
                *self,
                interface_id,
                r,
            )));
        r
    }
}

fn find_binding(bindings: &Vec<Binding>, interface_id: &TypeId) -> (r: Option<usize>)
    ensures
        r matches Some(i) ==> i < bindings@.len() && bindings@[i as int].interface_id == *interface_id,
        r is None ==> forall|i: int| 0 <= i < bindings@.len() ==> bindings@[i].interface_id != *interface_id,
{
    let mut i: usize = 0;
    while i < bindings.len()
        invariant
            i <= bindings@.len(),
            forall|j: int| 0 <= j < i ==> bindings@[j].interface_id != *interface_id,
        decreases bindings@.len() - i,
    {
        if same_type(&bindings[i].interface_id, interface_id) {
            return Some(i);
        }
        i = i + 1;
    }
    None
}

} // verus!
