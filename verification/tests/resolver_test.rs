use std::any::TypeId;
use std::sync::Arc;
use kroom_core::container::{Container, ContainerError};
use kroom_core::dependency_resolver::{DependencyResolver, ResolveError};
use kroom_core::injectable::Injectable;
use kroom_core::registration::Registration;

trait Repo {}
trait Service {}

struct PgRepo;
impl Repo for PgRepo {}
impl Injectable<dyn Repo> for PgRepo {
    fn __kroom_interface_name() -> String {
        "dyn Repo".to_string()
    }
    fn __kroom_implementation_name() -> String {
        "PgRepo".to_string()
    }
    fn __kroom_construct(_container: &Container) -> Result<Arc<dyn Repo>, ContainerError> {
        Ok(Arc::new(PgRepo))
    }
}

struct DefaultService;
impl Service for DefaultService {}
impl Injectable<dyn Service> for DefaultService {
    fn __kroom_interface_name() -> String {
        "dyn Service".to_string()
    }
    fn __kroom_implementation_name() -> String {
        "DefaultService".to_string()
    }
    fn __kroom_construct(_container: &Container) -> Result<Arc<dyn Service>, ContainerError> {
        Ok(Arc::new(DefaultService))
    }
    fn __kroom_dependent_types() -> Vec<(TypeId, String)> {
        vec![(TypeId::of::<dyn Repo>(), "dyn Repo".to_string())]
    }
}

/// A repository that (wrongly) depends on the service.
struct LoopingRepo;
impl Repo for LoopingRepo {}
impl Injectable<dyn Repo> for LoopingRepo {
    fn __kroom_interface_name() -> String {
        "dyn Repo".to_string()
    }
    fn __kroom_implementation_name() -> String {
        "LoopingRepo".to_string()
    }
    fn __kroom_construct(_container: &Container) -> Result<Arc<dyn Repo>, ContainerError> {
        Ok(Arc::new(LoopingRepo))
    }
    fn __kroom_dependent_types() -> Vec<(TypeId, String)> {
        vec![(TypeId::of::<dyn Service>(), "dyn Service".to_string())]
    }
}

/// An implementation that depends on itself.
struct Selfish;
impl Injectable<Selfish> for Selfish {
    fn __kroom_interface_name() -> String {
        "Selfish".to_string()
    }
    fn __kroom_implementation_name() -> String {
        "Selfish".to_string()
    }
    fn __kroom_construct(_container: &Container) -> Result<Arc<Selfish>, ContainerError> {
        Ok(Arc::new(Selfish))
    }
    fn __kroom_dependent_types() -> Vec<(TypeId, String)> {
        vec![(TypeId::of::<Selfish>(), "Selfish".to_string())]
    }
}

#[test]
fn register_adds_each_type_once() {
    let mut resolver = DependencyResolver::new();
    assert_eq!(resolver.type_count(), 0);
    resolver.register::<dyn Repo, PgRepo>();
    assert_eq!(resolver.type_count(), 2);
    resolver.register::<dyn Repo, PgRepo>();
    assert_eq!(resolver.type_count(), 2);
    resolver.register::<Selfish, Selfish>();
    assert_eq!(resolver.type_count(), 3);
    assert_eq!(resolver.edge_count(), 0);
}

#[test]
fn resolve_draws_interface_and_dependency_edges() {
    let mut resolver = DependencyResolver::new();
    resolver.register::<dyn Repo, PgRepo>();
    resolver.register::<dyn Service, DefaultService>();
    let registrations = vec![Registration::of::<dyn Repo, PgRepo>(), Registration::of::<dyn Service, DefaultService>()];
    assert!(matches!(resolver.resolve(&registrations), Ok(true)));
    // repo -> pg, service -> default, default -> repo
    assert_eq!(resolver.edge_count(), 3);
}

#[test]
fn resolve_refuses_a_cycle() {
    let mut resolver = DependencyResolver::new();
    resolver.register::<dyn Repo, LoopingRepo>();
    resolver.register::<dyn Service, DefaultService>();
    let registrations = vec![
        Registration::of::<dyn Repo, LoopingRepo>(),
        Registration::of::<dyn Service, DefaultService>(),
    ];
    match resolver.resolve(&registrations) {
        Err(ResolveError::WouldCycle { parent, child }) => {
            assert_eq!(parent, TypeId::of::<DefaultService>());
            assert_eq!(child, TypeId::of::<dyn Repo>());
        }
        other => panic!("expected a cycle, got {:?}", other),
    }
    // repo -> looping, looping -> service, service -> default; default -> repo refused
    assert_eq!(resolver.edge_count(), 3);
}

#[test]
fn resolve_refuses_a_self_dependency() {
    let mut resolver = DependencyResolver::new();
    resolver.register::<Selfish, Selfish>();
    let registrations = vec![Registration::of::<Selfish, Selfish>()];
    match resolver.resolve(&registrations) {
        Err(ResolveError::WouldCycle { parent, child }) => {
            assert_eq!(parent, TypeId::of::<Selfish>());
            assert_eq!(child, TypeId::of::<Selfish>());
        }
        other => panic!("expected a cycle, got {:?}", other),
    }
    assert_eq!(resolver.edge_count(), 0);
}

#[test]
fn resolve_refuses_an_unregistered_type() {
    let mut resolver = DependencyResolver::new();
    resolver.register::<dyn Service, DefaultService>();
    let registrations = vec![Registration::of::<dyn Service, DefaultService>()];
    match resolver.resolve(&registrations) {
        Err(ResolveError::MissingType { type_id, name }) => {
            assert_eq!(type_id, TypeId::of::<dyn Repo>());
            assert_eq!(name, "dyn Repo");
        }
        other => panic!("expected a missing type, got {:?}", other),
    }
    assert_eq!(
        ResolveError::MissingType { type_id: TypeId::of::<u8>(), name: "u8".to_string() }.message(),
        "Expected to find u8 in DAG"
    );
}

#[test]
fn resolve_within_limit_resolves_small_graphs() {
    let mut resolver = DependencyResolver::new();
    resolver.register::<dyn Repo, PgRepo>();
    let registrations = vec![Registration::of::<dyn Repo, PgRepo>()];
    assert!(matches!(resolver.resolve_within_limit(&registrations), Some(Ok(true))));
    assert_eq!(resolver.edge_count(), 1);
}

#[test]
fn register_inner_leaves_the_resolver_unchanged() {
    let mut resolver = DependencyResolver::new();
    let a = TypeId::of::<u8>();
    let b = TypeId::of::<u16>();
    resolver.register_inner(&a, &a);
    assert_eq!(resolver.type_count(), 0);
    resolver.register::<dyn Repo, PgRepo>();
    resolver.register_inner(&a, &b);
    assert_eq!(resolver.type_count(), 2);
    assert_eq!(resolver.edge_count(), 0);
}

#[test]
fn a_cycle_message_is_the_graph_error_text() {
    let error = ResolveError::WouldCycle { parent: TypeId::of::<u8>(), child: TypeId::of::<u16>() };
    assert_eq!(error.message(), "WouldCycle\n\n");
}

#[test]
fn a_failed_resolve_keeps_the_edges_of_earlier_steps() {
    let mut resolver = DependencyResolver::new();
    resolver.register::<dyn Repo, PgRepo>();
    resolver.register::<dyn Service, DefaultService>();
    let registrations = vec![
        Registration::of::<dyn Repo, PgRepo>(),
        Registration::of::<Selfish, Selfish>(),
        Registration::of::<dyn Service, DefaultService>(),
    ];
    match resolver.resolve(&registrations) {
        Err(ResolveError::MissingType { type_id, name }) => {
            assert_eq!(type_id, TypeId::of::<Selfish>());
            assert_eq!(name, "Selfish");
        }
        other => panic!("expected a missing type, got {:?}", other),
    }
    // repo -> pg was drawn before the lookup of Selfish failed; nothing after it
    assert_eq!(resolver.edge_count(), 1);
}

#[test]
fn the_first_lookup_that_fails_is_reported() {
    let mut resolver = DependencyResolver::new();
    resolver.register::<Selfish, Selfish>();
    let registrations = vec![
        Registration::of::<dyn Repo, PgRepo>(),
        Registration::of::<dyn Service, DefaultService>(),
    ];
    match resolver.resolve(&registrations) {
        Err(ResolveError::MissingType { type_id, name }) => {
            assert_eq!(type_id, TypeId::of::<dyn Repo>());
            assert_eq!(name, "dyn Repo");
        }
        other => panic!("expected a missing type, got {:?}", other),
    }
    assert_eq!(resolver.edge_count(), 0);
}

#[test]
fn register_by_id_adds_each_type_once() {
    let mut resolver = DependencyResolver::new();
    let a = TypeId::of::<u8>();
    let b = TypeId::of::<u16>();
    resolver.register_by_id(&a, &b);
    assert_eq!(resolver.type_count(), 2);
    resolver.register_by_id(&a, &b);
    assert_eq!(resolver.type_count(), 2);
    resolver.register_by_id(&b, &b);
    assert_eq!(resolver.type_count(), 2);
    assert_eq!(resolver.edge_count(), 0);
}
