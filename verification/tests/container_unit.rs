use std::sync::Arc;
use kroom_core::container::{Container, ContainerError};
use kroom_core::injectable::Injectable;

trait Greeter: Send + Sync {
    fn greet(&self) -> String;
}

struct EnglishGreeter;
impl Greeter for EnglishGreeter {
    fn greet(&self) -> String {
        "Hello".to_string()
    }
}

impl Injectable<EnglishGreeter> for EnglishGreeter {
    fn __kroom_interface_name() -> String {
        "EnglishGreeter".to_string()
    }
    fn __kroom_implementation_name() -> String {
        "EnglishGreeter".to_string()
    }
    fn __kroom_construct(_container: &Container) -> Result<Arc<EnglishGreeter>, ContainerError> {
        Ok(Arc::new(EnglishGreeter))
    }
}

impl Injectable<dyn Greeter> for EnglishGreeter {
    fn __kroom_interface_name() -> String {
        "dyn Greeter".to_string()
    }
    fn __kroom_implementation_name() -> String {
        "EnglishGreeter".to_string()
    }
    fn __kroom_construct(_container: &Container) -> Result<Arc<dyn Greeter>, ContainerError> {
        Ok(Arc::new(EnglishGreeter))
    }
}

struct SpanishGreeter;
impl Greeter for SpanishGreeter {
    fn greet(&self) -> String {
        "Hola".to_string()
    }
}

impl Injectable<dyn Greeter> for SpanishGreeter {
    fn __kroom_interface_name() -> String {
        "dyn Greeter".to_string()
    }
    fn __kroom_implementation_name() -> String {
        "SpanishGreeter".to_string()
    }
    fn __kroom_construct(_container: &Container) -> Result<Arc<dyn Greeter>, ContainerError> {
        Ok(Arc::new(SpanishGreeter))
    }
}

struct GreeterService {
    greeter: Arc<dyn Greeter>,
}

impl Injectable<GreeterService> for GreeterService {
    fn __kroom_interface_name() -> String {
        "GreeterService".to_string()
    }
    fn __kroom_implementation_name() -> String {
        "GreeterService".to_string()
    }
    fn __kroom_construct(container: &Container) -> Result<Arc<GreeterService>, ContainerError> {
        let greeter = container.get::<dyn Greeter>()?;
        Ok(Arc::new(GreeterService { greeter }))
    }
}

#[test]
fn test_register_and_get_concrete() {
    let mut container = Container::new();
    container.register::<EnglishGreeter, EnglishGreeter>();

    let greeter = container.get::<EnglishGreeter>().unwrap();
    assert_eq!(greeter.greet(), "Hello");
}

#[test]
fn test_register_and_get_interface() {
    let mut container = Container::new();
    container.register::<dyn Greeter, EnglishGreeter>();

    let greeter = container.get::<dyn Greeter>().unwrap();
    assert_eq!(greeter.greet(), "Hello");
}

#[test]
fn test_get_all_multiple_registrations() {
    let mut container = Container::new();
    container.register::<dyn Greeter, EnglishGreeter>();
    container.register::<dyn Greeter, SpanishGreeter>();

    let greeters = container.get_all::<dyn Greeter>().unwrap();
    assert_eq!(greeters.len(), 2);
    assert_eq!(greeters[0].greet(), "Hello");
    assert_eq!(greeters[1].greet(), "Hola");
}

#[test]
fn test_get_all_single_registration() {
    let mut container = Container::new();
    container.register::<dyn Greeter, SpanishGreeter>();

    let greeters = container.get_all::<dyn Greeter>().unwrap();
    assert_eq!(greeters.len(), 1);
    assert_eq!(greeters[0].greet(), "Hola");
}

#[test]
fn container_test_nested_dependency_resolution() {
    let mut container = Container::new();
    container.register::<dyn Greeter, EnglishGreeter>();
    container.register::<GreeterService, GreeterService>();

    let service = container.get::<GreeterService>().unwrap();
    assert_eq!(service.greeter.greet(), "Hello");
}

#[test]
#[should_panic(expected = "not registered to Container")]
fn test_get_unregistered_panics() {
    let container = Container::new();
    let _ = container.get::<dyn Greeter>().unwrap_or_else(|e| panic!("{}", e.message()));
}

#[test]
#[should_panic(expected = "not registered to Container")]
fn test_get_all_unregistered_panics() {
    let container = Container::new();
    let _ = container.get_all::<dyn Greeter>().unwrap_or_else(|e| panic!("{}", e.message()));
}

#[test]
#[should_panic(expected = "Container::get() expects one implementation")]
fn test_get_multiple_registered_panics() {
    let mut container = Container::new();
    container.register::<dyn Greeter, EnglishGreeter>();
    container.register::<dyn Greeter, SpanishGreeter>();

    let _ = container.get::<dyn Greeter>().unwrap_or_else(|e| panic!("{}", e.message()));
}

struct Ouroboros;
impl Injectable<Ouroboros> for Ouroboros {
    fn __kroom_interface_name() -> String {
        "Ouroboros".to_string()
    }
    fn __kroom_implementation_name() -> String {
        "Ouroboros".to_string()
    }
    fn __kroom_construct(container: &Container) -> Result<Arc<Ouroboros>, ContainerError> {
        let _itself = container.get::<Ouroboros>()?;
        Ok(Arc::new(Ouroboros))
    }
}

#[test]
fn a_constructor_that_asks_for_its_own_interface_is_refused() {
    let mut container = Container::new();
    container.register::<Ouroboros, Ouroboros>();
    let id = std::any::TypeId::of::<Ouroboros>();
    match container.get::<Ouroboros>() {
        Err(ContainerError::ConstructionFailed { interface_id, cause }) => {
            assert_eq!(interface_id, id);
            match *cause {
                ContainerError::CircularDependency { interface_id } => assert_eq!(interface_id, id),
                other => panic!("expected a circular dependency, got {:?}", other),
            }
        }
        Err(other) => panic!("expected a failed construction, got {:?}", other),
        Ok(_) => panic!("expected a failed construction"),
    }
    assert!(container.get_all::<Ouroboros>().is_err());
}

#[test]
fn a_missing_dependency_fails_the_construction() {
    let mut container = Container::new();
    container.register::<GreeterService, GreeterService>();
    let error = match container.get::<GreeterService>() {
        Err(error) => error,
        Ok(_) => panic!("expected a failed construction"),
    };
    assert!(error.message().starts_with("Building the implementation for TypeId"));
    assert!(error.message().ends_with("not registered to Container"));
    match error {
        ContainerError::ConstructionFailed { interface_id, cause } => {
            assert_eq!(interface_id, std::any::TypeId::of::<GreeterService>());
            assert!(matches!(*cause, ContainerError::NotRegistered { .. }));
        }
        other => panic!("expected a failed construction, got {:?}", other),
    }
}

#[test]
fn the_interface_and_the_implementation_are_not_the_same_key() {
    let mut container = Container::new();
    container.register::<dyn Greeter, EnglishGreeter>();
    assert!(matches!(container.get::<EnglishGreeter>(), Err(ContainerError::NotRegistered { .. })));
    assert_eq!(container.get_all::<dyn Greeter>().unwrap().len(), 1);
}
