use kroom_core::injectable_macro::args::{classify_argument, parse_macro_args, ArgumentKey, MacroArg, MacroArgError};
use kroom_core::injectable_macro::codegen::{generate_injectable, TypeSource};
use kroom_core::injectable_macro::expansion::injectable;
use kroom_core::injectable_macro::fields::{
    extract_inner_type_from_vector, field_has_attribute, get_injected_fields_for_constructor,
    get_multi_injected_fields_for_constructor, strip_attribute_from_struct_fields, wrap_injected_field_with_arc,
    wrap_multi_injected_field_with_arc, MultiInjected,
};
use kroom_core::injectable_macro::syntax::{
    AttributeShape, FieldShape, GenericArgShape, PathArgumentsShape, PathSegmentShape, StructShape, TypeRewrite,
    TypeShape,
};
use kroom_core::scope::Scope;

fn segment(ident: &str, arguments: PathArgumentsShape) -> PathSegmentShape {
    PathSegmentShape { ident: ident.to_string(), arguments }
}

fn path(segments: Vec<PathSegmentShape>) -> TypeShape {
    TypeShape::Path { leading_colon: false, qualified: false, segments }
}

fn plain(ident: &str) -> TypeShape {
    path(vec![segment(ident, PathArgumentsShape::Bare)])
}

fn vec_of_type() -> TypeShape {
    path(vec![segment("Vec", PathArgumentsShape::AngleBracketed(vec![GenericArgShape::Type]))])
}

fn field(ident: Option<&str>, attributes: &[&str], ty: TypeShape) -> FieldShape {
    FieldShape {
        ident: ident.map(|i| i.to_string()),
        attributes: attributes
            .iter()
            .enumerate()
            .map(|(origin, name)| AttributeShape { name: Some(name.to_string()), origin })
            .collect(),
        ty,
        rewrites: Vec::new(),
    }
}

fn sample_struct() -> StructShape {
    StructShape {
        ident: "Service".to_string(),
        fields: vec![
            field(Some("repo"), &["inject"], plain("Repo")),
            field(Some("count"), &["doc"], plain("u32")),
            field(Some("plugins"), &["multi_inject", "doc"], vec_of_type()),
        ],
    }
}

#[test]
fn classify_argument_by_key() {
    assert_eq!(classify_argument(Some("scope")), ArgumentKey::Scope);
    assert_eq!(classify_argument(Some("type")), ArgumentKey::Type);
    assert_eq!(classify_argument(Some("kind")), ArgumentKey::Unsupported);
    assert_eq!(classify_argument(None), ArgumentKey::Unsupported);
}

#[test]
fn parse_macro_args_keeps_the_last_of_each() {
    let args = vec![
        MacroArg::Scope("Transient".to_string()),
        MacroArg::Type(plain("A")),
        MacroArg::Type(plain("B")),
        MacroArg::Scope("singleton".to_string()),
    ];
    let parsed = parse_macro_args(&args).unwrap();
    assert_eq!(parsed.target_type, Some(2));
    assert_eq!(parsed.scope, Some(Scope::Singleton));
    let none = parse_macro_args(&Vec::new()).unwrap();
    assert_eq!(none.target_type, None);
    assert_eq!(none.scope, None);
}

#[test]
fn parse_macro_args_refuses_bad_arguments() {
    let args = vec![MacroArg::Type(plain("A")), MacroArg::Scope("forever".to_string())];
    match parse_macro_args(&args) {
        Err(MacroArgError::InvalidScope { position, message }) => {
            assert_eq!(position, 1);
            assert_eq!(message, "forever is not a valid Scope");
        }
        other => panic!("unexpected {:?}", other),
    }
    let args = vec![MacroArg::Unsupported, MacroArg::Scope("forever".to_string())];
    match parse_macro_args(&args) {
        Err(e @ MacroArgError::Unsupported { position: 0 }) => assert_eq!(e.message(), "Unsupported macro argument"),
        other => panic!("unexpected {:?}", other),
    }
}

#[test]
fn parse_macro_args_refuses_a_malformed_value() {
    let args = vec![MacroArg::Scope("transient".to_string()), MacroArg::Malformed];
    match parse_macro_args(&args) {
        Err(e @ MacroArgError::Malformed { position: 1 }) => assert_eq!(e.message(), "Malformed macro argument"),
        other => panic!("unexpected {:?}", other),
    }
}

#[test]
fn extract_inner_type_from_vector_finds_the_element() {
    assert_eq!(extract_inner_type_from_vector(&vec_of_type()), Some(0));
    let with_lifetime = path(vec![
        segment("std", PathArgumentsShape::Bare),
        segment("Vec", PathArgumentsShape::AngleBracketed(vec![GenericArgShape::Other, GenericArgShape::Type])),
    ]);
    assert_eq!(extract_inner_type_from_vector(&with_lifetime), Some(1));
    assert_eq!(extract_inner_type_from_vector(&plain("Vec")), None);
    assert_eq!(extract_inner_type_from_vector(&plain("Option")), None);
    let option = path(vec![segment("Option", PathArgumentsShape::AngleBracketed(vec![GenericArgShape::Type]))]);
    assert_eq!(extract_inner_type_from_vector(&option), None);
    assert_eq!(extract_inner_type_from_vector(&TypeShape::Other), None);
    let only_lifetime = path(vec![segment("Vec", PathArgumentsShape::AngleBracketed(vec![GenericArgShape::Other]))]);
    assert_eq!(extract_inner_type_from_vector(&only_lifetime), None);
}

#[test]
fn fields_for_the_constructor() {
    let s = sample_struct();
    assert!(field_has_attribute(&s.fields[0], "inject"));
    assert!(!field_has_attribute(&s.fields[1], "inject"));
    assert_eq!(get_injected_fields_for_constructor(&s), vec![0]);
    assert_eq!(
        get_multi_injected_fields_for_constructor(&s),
        vec![MultiInjected { field: 2, element: Some(0) }]
    );
    let plain_struct = StructShape { ident: "T".to_string(), fields: vec![field(Some("a"), &[], plain("u8"))] };
    assert!(get_injected_fields_for_constructor(&plain_struct).is_empty());
    assert!(get_multi_injected_fields_for_constructor(&plain_struct).is_empty());
}

#[test]
fn field_types_are_wrapped_and_attributes_stripped() {
    let mut s = sample_struct();
    wrap_injected_field_with_arc(&mut s);
    assert_eq!(s.fields[0].rewrites, vec![TypeRewrite::Arc]);
    assert!(s.fields[1].rewrites.is_empty());
    wrap_multi_injected_field_with_arc(&mut s);
    assert_eq!(s.fields[2].rewrites, vec![TypeRewrite::VecOfArc(Some(0))]);
    strip_attribute_from_struct_fields("inject", &mut s);
    strip_attribute_from_struct_fields("multi_inject", &mut s);
    assert!(s.fields[0].attributes.is_empty());
    assert_eq!(s.fields[1].attributes.len(), 1);
    assert_eq!(s.fields[2].attributes.len(), 1);
    assert_eq!(s.fields[2].attributes[0].origin, 1);
}

#[test]
fn a_field_with_both_attributes_loses_its_element() {
    let mut s = StructShape { ident: "S".to_string(), fields: vec![field(Some("x"), &["inject", "multi_inject"], vec_of_type())] };
    wrap_injected_field_with_arc(&mut s);
    wrap_multi_injected_field_with_arc(&mut s);
    assert_eq!(s.fields[0].rewrites, vec![TypeRewrite::Arc, TypeRewrite::VecOfArc(None)]);
}

#[test]
fn generate_injectable_keeps_its_inputs() {
    let plan = generate_injectable(TypeSource::Argument(3), TypeSource::Struct, &vec![1, 4], &vec![MultiInjected { field: 2, element: None }]);
    assert_eq!(plan.target, TypeSource::Argument(3));
    assert_eq!(plan.implementation, TypeSource::Struct);
    assert_eq!(plan.injected, vec![1, 4]);
    assert_eq!(plan.multi_injected, vec![MultiInjected { field: 2, element: None }]);
    assert_eq!(plan.scope, kroom_core::scope::Scope::Singleton);
    assert_eq!(plan.dependencies, vec![TypeSource::Argument(3)]);
}

#[test]
fn injectable_for_another_interface_has_two_impls() {
    let args = vec![MacroArg::Type(TypeShape::Other)];
    let expansion = injectable(&args, sample_struct());
    assert_eq!(expansion.target_impl.target, TypeSource::Argument(0));
    assert_eq!(expansion.target_impl.injected, vec![0]);
    let struct_impl = expansion.struct_impl.unwrap();
    assert_eq!(struct_impl.target, TypeSource::Struct);
    assert_eq!(expansion.item_struct.fields[0].rewrites, vec![TypeRewrite::Arc]);
    assert!(expansion.item_struct.fields[0].attributes.is_empty());
}

#[test]
fn injectable_for_itself_has_one_impl() {
    let own = vec![MacroArg::Type(plain("Service"))];
    assert!(injectable(&own, sample_struct()).struct_impl.is_none());
    let none: Vec<MacroArg> = Vec::new();
    let expansion = injectable(&none, sample_struct());
    assert_eq!(expansion.target_impl.target, TypeSource::Struct);
    assert!(expansion.struct_impl.is_none());
}

#[test]
fn injectable_ignores_refused_arguments() {
    let args = vec![MacroArg::Type(TypeShape::Other), MacroArg::Unsupported];
    let expansion = injectable(&args, sample_struct());
    assert_eq!(expansion.target_impl.target, TypeSource::Struct);
    assert!(expansion.struct_impl.is_none());
    let malformed = vec![MacroArg::Type(TypeShape::Other), MacroArg::Malformed];
    let expansion = injectable(&malformed, sample_struct());
    assert_eq!(expansion.target_impl.target, TypeSource::Struct);
    assert!(expansion.struct_impl.is_none());
}
