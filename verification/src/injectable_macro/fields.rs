//! The fields of an `#[injectable]` struct: which are injected, how their types are rewritten,
//! and which attributes are stripped.
use vstd::prelude::*;
use vstd::string::*;
use crate::injectable_macro::syntax::{
    AttributeShape, FieldShape, GenericArgShape, PathArgumentsShape, PathSegmentShape,
    StructShape, TypeRewrite, TypeShape, text_eq,
};

verus! {

/// An attribute of the list is named `name`.
pub open spec fn has_attribute(attrs: Seq<AttributeShape>, name: Seq<char>) -> bool {
    exists|i: int| 0 <= i < attrs.len() && #[trigger] attribute_named(attrs[i], name)
}

/// The attribute's path is the single identifier `name`.
pub open spec fn attribute_named(a: AttributeShape, name: Seq<char>) -> bool {
    a.name matches Some(n) && n@ == name
}

/// The position of the first type among some generic arguments.
pub open spec fn first_type_argument(args: Seq<GenericArgShape>, from: int) -> Option<usize>
    decreases args.len() - from,
{
    if from < 0 || from >= args.len() {
        None
    } else if args[from] == GenericArgShape::Type {
        Some(from as usize)
    } else {
        first_type_argument(args, from + 1)
    }
}

/// The element type of a type whose path ends in a segment `Vec<..>`: the position of the
/// first type among that segment's generic arguments.
pub open spec fn vec_element_position(ty: TypeShape) -> Option<usize> {
    match ty {
        TypeShape::Path { leading_colon, qualified, segments } => if segments@.len() == 0 {
            None
        } else {
            let last = segments@.last();
            if last.ident@ != "Vec"@ {
                None
            } else {
                match last.arguments {
                    PathArgumentsShape::AngleBracketed(args) => first_type_argument(args@, 0),
                    _ => None,
                }
            }
        },
        TypeShape::Other => None,
    }
}

/// The shape of `::std::sync::Arc<T>`.
pub open spec fn is_arc_path(ty: TypeShape) -> bool {
    match ty {
        TypeShape::Path { leading_colon, qualified, segments } => {
            &&& leading_colon
            &&& !qualified
            &&& segments@.len() == 3
            &&& segments@[0].ident@ == "std"@ && segments@[0].arguments is Bare
            &&& segments@[1].ident@ == "sync"@ && segments@[1].arguments is Bare
            &&& segments@[2].ident@ == "Arc"@
            &&& segments@[2].arguments matches PathArgumentsShape::AngleBracketed(a) && a@ == seq![
                GenericArgShape::Type,
            ]
        },
        TypeShape::Other => false,
    }
}

/// The shape of `Vec<::std::sync::Arc<T>>`.
pub open spec fn is_vec_path(ty: TypeShape) -> bool {
    match ty {
        TypeShape::Path { leading_colon, qualified, segments } => {
            &&& !leading_colon
            &&& !qualified
            &&& segments@.len() == 1
            &&& segments@[0].ident@ == "Vec"@
            &&& segments@[0].arguments matches PathArgumentsShape::AngleBracketed(a) && a@ == seq![
                GenericArgShape::Type,
            ]
        },
        TypeShape::Other => false,
    }
}

/// Whether the field carries the attribute `name` (`#[inject]`, `#[multi_inject]`).
pub fn field_has_attribute(field: &FieldShape, name: &str) -> (r: bool)
    ensures
        r == has_attribute(field.attributes@, name@),
{
    let mut i: usize = 0;
    while i < field.attributes.len()
        invariant
            i <= field.attributes@.len(),
            forall|j: int| 0 <= j < i ==> !#[trigger] attribute_named(field.attributes@[j], name@),
        decreases field.attributes@.len() - i,
    {
        match &field.attributes[i].name {
            Some(n) => {
                if text_eq(n.as_str(), name) {
                    assert(attribute_named(field.attributes@[i as int], name@));
                    return true;
                }
            },
            None => {},
        }
        i = i + 1;
    }
    false
}

/// The element type of a `Vec<..>` field type: the position of the first type among the
/// generic arguments of its last segment, when that segment is `Vec`.
pub fn extract_inner_type_from_vector(injected_type: &TypeShape) -> (r: Option<usize>)
    ensures
        r == vec_element_position(*injected_type),
{
    match injected_type {
        TypeShape::Path { leading_colon: _, qualified: _, segments } => {
            if segments.len() == 0 {
                return None;
            }
            let last = &segments[segments.len() - 1];
            if !text_eq(last.ident.as_str(), "Vec") {
                return None;
            }
            match &last.arguments {
                PathArgumentsShape::AngleBracketed(args) => {
                    assert(vec_element_position(*injected_type) == first_type_argument(args@, 0));
                    let mut i: usize = 0;
                    while i < args.len()
                        invariant
                            vec_element_position(*injected_type) == first_type_argument(args@, 0),
                            i <= args@.len(),
                            first_type_argument(args@, 0) == first_type_argument(args@, i as int),
                        decreases args@.len() - i,
                    {
                        if args[i] == GenericArgShape::Type {
                            return Some(i);
                        }
                        i = i + 1;
                    }
                    None
                },
                _ => None,
            }
        },
        TypeShape::Other => None,
    }
}

fn arc_path() -> (t: TypeShape)
    ensures
        is_arc_path(t),
{
    let mut segments: Vec<PathSegmentShape> = Vec::new();
    segments.push(PathSegmentShape { ident: String::from_str("std"), arguments: PathArgumentsShape::Bare });
    segments.push(PathSegmentShape { ident: String::from_str("sync"), arguments: PathArgumentsShape::Bare });
    let mut args: Vec<GenericArgShape> = Vec::new();
    args.push(GenericArgShape::Type);
    segments.push(PathSegmentShape { ident: String::from_str("Arc"), arguments: PathArgumentsShape::AngleBracketed(args) });
    proof {
        reveal_strlit("std");
        reveal_strlit("sync");
        reveal_strlit("Arc");
        assert(args@ =~= seq![GenericArgShape::Type]);
    }
    TypeShape::Path { leading_colon: true, qualified: false, segments }
}

fn vec_path() -> (t: TypeShape)
    ensures
        is_vec_path(t),
{
    let mut segments: Vec<PathSegmentShape> = Vec::new();
    let mut args: Vec<GenericArgShape> = Vec::new();
    args.push(GenericArgShape::Type);
    segments.push(PathSegmentShape { ident: String::from_str("Vec"), arguments: PathArgumentsShape::AngleBracketed(args) });
    proof {
        reveal_strlit("Vec");
        assert(args@ =~= seq![GenericArgShape::Type]);
    }
    TypeShape::Path { leading_colon: false, qualified: false, segments }
}

/// A field to fill with all the implementations of an interface.
#[derive(Debug, Clone, Copy, PartialEq, Eq, Structural)]
pub struct MultiInjected {
    /// The position of the field.
    pub field: usize,
    /// The position of the element type among the generic arguments of the last segment of
    /// the field's type, when that segment is `Vec`.
    pub element: Option<usize>,
}

/// The first `n` fields have names.
pub open spec fn named_before(fields: Seq<FieldShape>, n: int) -> bool {
    forall|i: int| 0 <= i < n ==> (#[trigger] fields[i]).ident is Some
}

/// The positions of the fields among the first `n` that carry the attribute `name`, in order.
pub open spec fn fields_with(fields: Seq<FieldShape>, name: Seq<char>, n: int) -> Seq<usize>
    decreases n,
{
    if n <= 0 {
        Seq::empty()
    } else if has_attribute(fields[n - 1].attributes@, name) {
        fields_with(fields, name, n - 1).push((n - 1) as usize)
    } else {
        fields_with(fields, name, n - 1)
    }
}

/// The fields among the first `n` that carry `#[multi_inject]`, with their element types.
pub open spec fn multi_fields(fields: Seq<FieldShape>, n: int) -> Seq<MultiInjected>
    decreases n,
{
    if n <= 0 {
        Seq::empty()
    } else if has_attribute(fields[n - 1].attributes@, "multi_inject"@) {
        multi_fields(fields, n - 1).push(
            MultiInjected { field: (n - 1) as usize, element: vec_element_position(fields[n - 1].ty) },
        )
    } else {
        multi_fields(fields, n - 1)
    }
}

/// The positions of the fields that carry `#[inject]`, in order. Every field must have a name.
pub fn get_injected_fields_for_constructor(item_struct: &StructShape) -> (r: Vec<usize>)
    requires
        named_before(item_struct.fields@, item_struct.fields@.len() as int),
    ensures
        r@ == fields_with(item_struct.fields@, "inject"@, item_struct.fields@.len() as int),
{
    let fields = &item_struct.fields;
    let mut injected: Vec<usize> = Vec::new();
    let mut i: usize = 0;
    while i < fields.len()
        invariant
            i <= fields@.len(),
            fields@ == item_struct.fields@,
            named_before(fields@, fields@.len() as int),
            injected@ == fields_with(fields@, "inject"@, i as int),
        decreases fields@.len() - i,
    {
        if field_has_attribute(&fields[i], "inject") {
            injected.push(i);
        }
        i = i + 1;
    }
    injected
}

/// The fields that carry `#[multi_inject]`, in order, each with its element type. Every field
/// must have a name.
pub fn get_multi_injected_fields_for_constructor(item_struct: &StructShape) -> (r: Vec<MultiInjected>)
    requires
        named_before(item_struct.fields@, item_struct.fields@.len() as int),
    ensures
        r@ == multi_fields(item_struct.fields@, item_struct.fields@.len() as int),
{
    let fields = &item_struct.fields;
    let mut injected: Vec<MultiInjected> = Vec::new();
    let mut i: usize = 0;
    while i < fields.len()
        invariant
            i <= fields@.len(),
            fields@ == item_struct.fields@,
            named_before(fields@, fields@.len() as int),
            injected@ == multi_fields(fields@, i as int),
        decreases fields@.len() - i,
    {
        if field_has_attribute(&fields[i], "multi_inject") {
            let element = extract_inner_type_from_vector(&fields[i].ty);
            injected.push(MultiInjected { field: i, element });
        }
        i = i + 1;
    }
    injected
}

/// The field after `#[inject]` wrapped its type in `::std::sync::Arc`.
pub open spec fn arc_wrapped(before: FieldShape, after: FieldShape) -> bool {
    &&& after.ident == before.ident
    &&& after.attributes == before.attributes
    &&& is_arc_path(after.ty)
    &&& after.rewrites@ == before.rewrites@.push(TypeRewrite::Arc)
}

/// The field after `#[multi_inject]` made its type a `Vec` of `::std::sync::Arc`s of its
/// element type.
pub open spec fn vec_wrapped(before: FieldShape, after: FieldShape) -> bool {
    &&& after.ident == before.ident
    &&& after.attributes == before.attributes
    &&& is_vec_path(after.ty)
    &&& after.rewrites@ == before.rewrites@.push(TypeRewrite::VecOfArc(vec_element_position(before.ty)))
}

/// Wraps the type of each field that carries `#[inject]` in `::std::sync::Arc`.
pub fn wrap_injected_field_with_arc(item_struct: &mut StructShape)
    ensures
        final(item_struct).ident == old(item_struct).ident,
        final(item_struct).fields@.len() == old(item_struct).fields@.len(),
        forall|i: int| 0 <= i < old(item_struct).fields@.len() ==> if has_attribute(old(item_struct).fields@[i].attributes@, "inject"@) {
            arc_wrapped(old(item_struct).fields@[i], #[trigger] final(item_struct).fields@[i])
        } else {
            final(item_struct).fields@[i] == old(item_struct).fields@[i]
        },
{
    let ghost before = item_struct.fields@;
    let mut i: usize = 0;
    while i < item_struct.fields.len()
        invariant
            i <= item_struct.fields@.len(),
            item_struct.fields@.len() == before.len(),
            item_struct.ident == old(item_struct).ident,
            before == old(item_struct).fields@,
            forall|j: int| i <= j < before.len() ==> item_struct.fields@[j] == before[j],
            forall|j: int| 0 <= j < i ==> if has_attribute(before[j].attributes@, "inject"@) {
                arc_wrapped(before[j], #[trigger] item_struct.fields@[j])
            } else {
                item_struct.fields@[j] == before[j]
            },
        decreases before.len() - i,
    {
        if field_has_attribute(&item_struct.fields[i], "inject") {
            let mut field = item_struct.fields.remove(i);
            field.ty = arc_path();
            field.rewrites.push(TypeRewrite::Arc);
            item_struct.fields.insert(i, field);
        }
        i = i + 1;
    }
}

/// Makes the type of each field that carries `#[multi_inject]` a `Vec` of `::std::sync::Arc`s
/// of its element type.
pub fn wrap_multi_injected_field_with_arc(item_struct: &mut StructShape)
    ensures
        final(item_struct).ident == old(item_struct).ident,
        final(item_struct).fields@.len() == old(item_struct).fields@.len(),
        forall|i: int| 0 <= i < old(item_struct).fields@.len() ==> if has_attribute(old(item_struct).fields@[i].attributes@, "multi_inject"@) {
            vec_wrapped(old(item_struct).fields@[i], #[trigger] final(item_struct).fields@[i])
        } else {
            final(item_struct).fields@[i] == old(item_struct).fields@[i]
        },
{
    let ghost before = item_struct.fields@;
    let mut i: usize = 0;
    while i < item_struct.fields.len()
        invariant
            i <= item_struct.fields@.len(),
            item_struct.fields@.len() == before.len(),
            item_struct.ident == old(item_struct).ident,
            before == old(item_struct).fields@,
            forall|j: int| i <= j < before.len() ==> item_struct.fields@[j] == before[j],
            forall|j: int| 0 <= j < i ==> if has_attribute(before[j].attributes@, "multi_inject"@) {
                vec_wrapped(before[j], #[trigger] item_struct.fields@[j])
            } else {
                item_struct.fields@[j] == before[j]
            },
        decreases before.len() - i,
    {
        if field_has_attribute(&item_struct.fields[i], "multi_inject") {
            let mut field = item_struct.fields.remove(i);
            let element = extract_inner_type_from_vector(&field.ty);
            field.ty = vec_path();
            field.rewrites.push(TypeRewrite::VecOfArc(element));
            item_struct.fields.insert(i, field);
        }
        i = i + 1;
    }
}

/// The attributes that are not named `name`, in order.
pub open spec fn attributes_without(attrs: Seq<AttributeShape>, name: Seq<char>) -> Seq<AttributeShape>
    decreases attrs.len(),
{
    if attrs.len() == 0 {
        Seq::empty()
    } else if attribute_named(attrs[0], name) {
        attributes_without(attrs.drop_first(), name)
    } else {
        seq![attrs[0]] + attributes_without(attrs.drop_first(), name)
    }
}

fn retain_attributes_without(attributes: &mut Vec<AttributeShape>, name: &str)
    ensures
        final(attributes)@ == attributes_without(old(attributes)@, name@),
{
    let mut rest: Vec<AttributeShape> = Vec::new();
    std::mem::swap(&mut rest, attributes);
    let ghost all = rest@;
    while rest.len() > 0
        invariant
            attributes@ + attributes_without(rest@, name@) == attributes_without(all, name@),
        decreases rest@.len(),
    {
        let ghost r0 = rest@;
        let a = rest.remove(0);
        proof {
            assert(r0.drop_first() =~= rest@);
        }
        let drop = match &a.name {
            Some(n) => text_eq(n.as_str(), name),
            None => false,
        };
        if !drop {
            attributes.push(a);
            proof {
                assert(attributes@ =~= attributes@.drop_last() + seq![a]);
            }
        }
    }
    proof {
        assert(attributes_without(rest@, name@) =~= Seq::<AttributeShape>::empty());
        assert(attributes@ + Seq::<AttributeShape>::empty() =~= attributes@);
    }
}

/// Removes every attribute named `attribute_name` from the fields.
pub fn strip_attribute_from_struct_fields(attribute_name: &str, item_struct: &mut StructShape)
    ensures
        final(item_struct).ident == old(item_struct).ident,
        final(item_struct).fields@.len() == old(item_struct).fields@.len(),
        forall|i: int| 0 <= i < old(item_struct).fields@.len() ==> {
            &&& (#[trigger] final(item_struct).fields@[i]).ident == old(item_struct).fields@[i].ident
            &&& final(item_struct).fields@[i].ty == old(item_struct).fields@[i].ty
            &&& final(item_struct).fields@[i].rewrites == old(item_struct).fields@[i].rewrites
            &&& final(item_struct).fields@[i].attributes@ == attributes_without(old(item_struct).fields@[i].attributes@, attribute_name@)
        },
{
    let ghost before = item_struct.fields@;
    let mut i: usize = 0;
    while i < item_struct.fields.len()
        invariant
            i <= item_struct.fields@.len(),
            item_struct.fields@.len() == before.len(),
            item_struct.ident == old(item_struct).ident,
            before == old(item_struct).fields@,
            forall|j: int| i <= j < before.len() ==> item_struct.fields@[j] == before[j],
            forall|j: int| 0 <= j < i ==> {
                &&& (#[trigger] item_struct.fields@[j]).ident == before[j].ident
                &&& item_struct.fields@[j].ty == before[j].ty
                &&& item_struct.fields@[j].rewrites == before[j].rewrites
                &&& item_struct.fields@[j].attributes@ == attributes_without(before[j].attributes@, attribute_name@)
            },
        decreases before.len() - i,
    {
        let mut field = item_struct.fields.remove(i);
        retain_attributes_without(&mut field.attributes, attribute_name);
        item_struct.fields.insert(i, field);
        i = i + 1;
    }
}

} // verus!
