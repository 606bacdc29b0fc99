use std::any::TypeId;
use std::sync::Arc;
use kroom_core::container::{Container, ContainerError, Constructor};
use kroom_core::injectable::Injectable;
use kroom_core::registration::Registration;
use kroom_core::scope::Scope;

trait Engine {
    fn power(&self) -> u32;
}

struct Diesel;
impl Engine for Diesel {
    fn power(&self) -> u32 {
        150
    }
}
impl Injectable<dyn Engine> for Diesel {
    fn __kroom_interface_name() -> String {
        "dyn Engine".to_string()
    }
    fn __kroom_implementation_name() -> String {
        "Diesel".to_string()
    }
    fn __kroom_construct(_container: &Container) -> Result<Arc<dyn Engine>, ContainerError> {
        Ok(Arc::new(Diesel))
    }
}

struct Electric;
impl Engine for Electric {
    fn power(&self) -> u32 {
        300
    }
}
impl Injectable<dyn Engine> for Electric {
    fn __kroom_interface_name() -> String {
        "dyn Engine".to_string()
    }
    fn __kroom_implementation_name() -> String {
        "Electric".to_string()
    }
    fn __kroom_construct(_container: &Container) -> Result<Arc<dyn Engine>, ContainerError> {
        Ok(Arc::new(Electric))
    }
    fn __kroom_scope() -> Scope {
        Scope::Transient
    }
    fn __kroom_dependent_types() -> Vec<(TypeId, String)> {
        vec![(TypeId::of::<u8>(), "u8".to_string())]
    }
}

struct Car {
    engine: Arc<dyn Engine>,
}
impl Injectable<Car> for Car {
    fn __kroom_interface_name() -> String {
        "Car".to_string()
    }
    fn __kroom_implementation_name() -> String {
        "Car".to_string()
    }
    fn __kroom_construct(container: &Container) -> Result<Arc<Car>, ContainerError> {
        Ok(Arc::new(Car { engine: container.get::<dyn Engine>()? }))
    }
}

#[test]
fn registered_count_follows_registrations() {
    let mut container = Container::new();
    let id = TypeId::of::<dyn Engine>();
    assert_eq!(container.registered_count(&id), 0);
    container.register::<dyn Engine, Diesel>();
    assert_eq!(container.registered_count(&id), 1);
    container.register::<dyn Engine, Electric>();
    assert_eq!(container.registered_count(&id), 2);
    assert_eq!(container.registered_count(&TypeId::of::<Car>()), 0);
}

#[test]
fn errors_name_the_interface() {
    let mut container = Container::new();
    let id = TypeId::of::<dyn Engine>();
    match container.get::<dyn Engine>() {
        Err(ContainerError::NotRegistered { interface_id }) => assert_eq!(interface_id, id),
        _ => panic!("expected NotRegistered"),
    }
    container.register::<dyn Engine, Diesel>();
    container.register::<dyn Engine, Electric>();
    match container.get::<dyn Engine>() {
        Err(ContainerError::MultipleImplementations { interface_id, count }) => {
            assert_eq!(interface_id, id);
            assert_eq!(count, 2);
        }
        _ => panic!("expected MultipleImplementations"),
    }
    let all = container.get_all::<dyn Engine>().unwrap();
    assert_eq!(all.iter().map(|e| e.power()).collect::<Vec<_>>(), vec![150, 300]);
}

#[test]
fn error_messages() {
    let id = TypeId::of::<u32>();
    let text = format!("{:?}", id);
    assert_eq!(
        ContainerError::NotRegistered { interface_id: id }.message(),
        format!("Interface with TypeId {} not registered to Container", text)
    );
    assert_eq!(
        ContainerError::MultipleImplementations { interface_id: id, count: 3 }.message(),
        format!("Container::get() expects one implementation for TypeId {} but received 3", text)
    );
    assert_eq!(
        ContainerError::CircularDependency { interface_id: id }.message(),
        format!("Interface with TypeId {} depends on itself", text)
    );
    assert_eq!(
        ContainerError::ConstructionFailed {
            interface_id: id,
            cause: Box::new(ContainerError::NotRegistered { interface_id: id }),
        }
        .message(),
        format!(
            "Building the implementation for TypeId {} failed: Interface with TypeId {} not registered to Container",
            text, text
        )
    );
    assert_eq!(
        ContainerError::TypeMismatch { interface_id: id }.message(),
        format!("Type mismatch during downcast. Expected an instance for TypeId {}", text)
    );
}

#[test]
fn a_constructor_registered_under_another_interface_is_a_type_mismatch() {
    let mut container = Container::new();
    let wrong = TypeId::of::<Car>();
    container.register_inner(&wrong, &Constructor::of::<dyn Engine, Diesel>());
    match container.get::<Car>() {
        Err(ContainerError::TypeMismatch { interface_id }) => assert_eq!(interface_id, wrong),
        _ => panic!("expected TypeMismatch"),
    }
    match container.get_all::<Car>() {
        Err(ContainerError::TypeMismatch { interface_id }) => assert_eq!(interface_id, wrong),
        _ => panic!("expected TypeMismatch"),
    }
}

#[test]
fn get_by_id_and_get_all_by_id() {
    let mut container = Container::new();
    let id = TypeId::of::<dyn Engine>();
    container.register_inner(&id, &Constructor::of::<dyn Engine, Electric>());
    assert_eq!(container.get_by_id::<dyn Engine>(&id).unwrap().power(), 300);
    assert_eq!(container.get_all_by_id::<dyn Engine>(&id).unwrap().len(), 1);
}

#[test]
fn built_or_mismatch_maps_the_build() {
    let id = TypeId::of::<u8>();
    let built: Option<Result<Arc<u8>, ContainerError>> = Some(Ok(Arc::new(7)));
    assert_eq!(*kroom_core::container::built_or_mismatch(&id, built).unwrap(), 7);
    let failed: Option<Result<Arc<u8>, ContainerError>> =
        Some(Err(ContainerError::NotRegistered { interface_id: TypeId::of::<u16>() }));
    match kroom_core::container::built_or_mismatch(&id, failed) {
        Err(ContainerError::ConstructionFailed { interface_id, cause }) => {
            assert_eq!(interface_id, id);
            assert!(matches!(*cause, ContainerError::NotRegistered { interface_id } if interface_id == TypeId::of::<u16>()));
        }
        _ => panic!("expected ConstructionFailed"),
    }
    match kroom_core::container::built_or_mismatch::<u8>(&id, None) {
        Err(ContainerError::TypeMismatch { interface_id }) => assert_eq!(interface_id, id),
        _ => panic!("expected TypeMismatch"),
    }
}

#[test]
fn registrations_register_in_order_and_carry_their_details() {
    let registrations = vec![
        Registration::of::<dyn Engine, Diesel>(),
        Registration::of::<dyn Engine, Electric>(),
        Registration::of::<Car, Car>(),
    ];
    assert_eq!(registrations[0].interface_id, TypeId::of::<dyn Engine>());
    assert_eq!(registrations[0].implementation_id, TypeId::of::<Diesel>());
    assert_eq!(registrations[0].interface_name, "dyn Engine");
    assert_eq!(registrations[0].implementation_name, "Diesel");
    assert_eq!(registrations[0].scope, Scope::Singleton);
    assert!(registrations[0].dependent_types.is_empty());
    assert_eq!(registrations[1].scope, Scope::Transient);
    assert_eq!(registrations[1].dependent_types, vec![(TypeId::of::<u8>(), "u8".to_string())]);

    let mut container = Container::new();
    container.register_each(&registrations);
    let engines = container.get_all::<dyn Engine>().unwrap();
    assert_eq!(engines.len(), 2);
    assert_eq!(engines[0].power(), 150);
    assert_eq!(engines[1].power(), 300);
    assert!(container.get::<dyn Engine>().is_err());
    assert_eq!(container.registered_count(&TypeId::of::<Car>()), 1);
}

#[test]
fn registering_one_interface_leaves_another_alone() {
    let mut container = Container::new();
    container.register::<dyn Engine, Diesel>();
    container.register::<Car, Car>();
    assert_eq!(container.get::<Car>().unwrap().engine.power(), 150);
    container.register::<dyn Engine, Electric>();
    assert_eq!(container.registered_count(&TypeId::of::<Car>()), 1);
}
