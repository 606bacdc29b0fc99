//! The expansion of `#[injectable(...)]` on a struct.
use vstd::prelude::*;
use vstd::string::*;
use crate::injectable_macro::args::{
    MacroArg, MacroArgs, accepted_before, last_type_position, lemma_last_type_position, parse_macro_args,
};
use crate::scope::Scope;
use crate::injectable_macro::codegen::{InjectableImpl, TypeSource, generate_injectable};
use crate::injectable_macro::fields::{
    arc_wrapped, attributes_without, fields_with, get_injected_fields_for_constructor,
    get_multi_injected_fields_for_constructor, has_attribute, is_arc_path, is_vec_path, multi_fields,
    named_before, strip_attribute_from_struct_fields, vec_element_position, vec_wrapped,
    wrap_injected_field_with_arc, wrap_multi_injected_field_with_arc,
};
use crate::injectable_macro::syntax::{
    FieldShape, PathArgumentsShape, StructShape, TypeRewrite, TypeShape, text_eq,
};

verus! {

/// The expansion: the struct with its fields rewritten, the impl for the target type, and
/// one for the struct itself when the target is another type.
#[derive(Debug)]
pub struct Expansion {
    pub item_struct: StructShape,
    pub target_impl: InjectableImpl,
    pub struct_impl: Option<InjectableImpl>,
}

/// The type is the path made of the single identifier `ident`.
pub open spec fn names_struct(ty: TypeShape, ident: Seq<char>) -> bool {
    match ty {
        TypeShape::Path { leading_colon, qualified, segments } => {
            &&& !leading_colon
            &&& !qualified
            &&& segments@.len() == 1
            &&& segments@[0].ident@ == ident
            &&& segments@[0].arguments is Bare
        },
        TypeShape::Other => false,
    }
}

/// The type the impl is for: the last `type = T` argument when the arguments are accepted,
/// the struct otherwise.
pub open spec fn target_source(args: Seq<MacroArg>) -> TypeSource {
    if accepted_before(args, args.len() as int) {
        match last_type_position(args, args.len() as int) {
            Some(p) => TypeSource::Argument(p),
            None => TypeSource::Struct,
        }
    } else {
        TypeSource::Struct
    }
}

/// The target is the struct itself.
pub open spec fn targets_struct(args: Seq<MacroArg>, ident: Seq<char>) -> bool {
    match target_source(args) {
        TypeSource::Struct => true,
        TypeSource::Argument(p) => args[p as int] matches MacroArg::Type(t) && names_struct(t, ident),
    }
}

/// Refused arguments count as none: the target of the impl, and whether the struct gets an
/// impl of its own, are those of the attribute without arguments.
pub proof fn law_refused_arguments_count_as_none(args: Seq<MacroArg>, ident: Seq<char>)
    requires
        !accepted_before(args, args.len() as int),
    ensures
        target_source(args) == target_source(Seq::<MacroArg>::empty()),
        targets_struct(args, ident) == targets_struct(Seq::<MacroArg>::empty(), ident),
{
}

/// A field of the expanded struct: `#[inject]` wrapped its type in an `Arc`, `#[multi_inject]`
/// then made it a `Vec` of `Arc`s of the element type, and both attributes are gone.
pub open spec fn expanded_field(before: FieldShape, after: FieldShape) -> bool {
    let inject = has_attribute(before.attributes@, "inject"@);
    let multi = has_attribute(before.attributes@, "multi_inject"@);
    let element = if inject { None } else { vec_element_position(before.ty) };
    &&& after.ident == before.ident
    &&& after.attributes@ == attributes_without(attributes_without(before.attributes@, "inject"@), "multi_inject"@)
    &&& after.rewrites@ == before.rewrites@ + (if inject { seq![TypeRewrite::Arc] } else { Seq::empty() }) + (if multi {
        seq![TypeRewrite::VecOfArc(element)]
    } else {
        Seq::empty()
    })
    &&& (multi ==> is_vec_path(after.ty))
    &&& (inject && !multi ==> is_arc_path(after.ty))
    &&& (!inject && !multi ==> after.ty == before.ty)
}

/// An impl as the macro writes it for the given types: it declares the `Singleton` scope and
/// depends on its target.
pub open spec fn impl_ok(i: InjectableImpl, target: TypeSource, fields: Seq<FieldShape>) -> bool {
    &&& i.target == target
    &&& i.implementation == TypeSource::Struct
    &&& i.injected@ == fields_with(fields, "inject"@, fields.len() as int)
    &&& i.multi_injected@ == multi_fields(fields, fields.len() as int)
    &&& i.scope == Scope::Singleton
    &&& i.dependencies@ == seq![target]
}

fn is_struct_path(ty: &TypeShape, ident: &String) -> (r: bool)
    ensures
        r == names_struct(*ty, ident@),
{
    match ty {
        TypeShape::Path { leading_colon, qualified, segments } => {
            if *leading_colon || *qualified || segments.len() != 1 {
                return false;
            }
            match segments[0].arguments {
                PathArgumentsShape::Bare => text_eq(segments[0].ident.as_str(), ident.as_str()),
                _ => false,
            }
        },
        TypeShape::Other => false,
    }
}

/// Expands `#[injectable(args)]` on `item_struct`. Arguments that are refused count as none;
/// every field of the struct must have a name.
pub fn injectable(args: &Vec<MacroArg>, item_struct: StructShape) -> (e: Expansion)
    requires
        named_before(item_struct.fields@, item_struct.fields@.len() as int),
    ensures
        impl_ok(e.target_impl, target_source(args@), item_struct.fields@),
        e.struct_impl is None <==> targets_struct(args@, item_struct.ident@),
        e.struct_impl matches Some(s) ==> impl_ok(s, TypeSource::Struct, item_struct.fields@),
        e.item_struct.ident == item_struct.ident,
        e.item_struct.fields@.len() == item_struct.fields@.len(),
        forall|i: int| 0 <= i < item_struct.fields@.len() ==> #[trigger] expanded_field(item_struct.fields@[i], e.item_struct.fields@[i]),
{
    let parsed = match parse_macro_args(args) {
        Ok(parsed) => parsed,
        Err(_) => MacroArgs::default(),
    };
    let target_type = match parsed.target_type {
        Some(position) => TypeSource::Argument(position),
        None => TypeSource::Struct,
    };
    assert(target_type == target_source(args@));
    proof {
        assert(args@.len() == args.len());
        lemma_last_type_position(args@, args@.len() as int);
    }
    let same = match target_type {
        TypeSource::Struct => true,
        TypeSource::Argument(position) => match &args[position] {
            MacroArg::Type(t) => is_struct_path(t, &item_struct.ident),
            _ => false,
        },
    };
    let injected = get_injected_fields_for_constructor(&item_struct);
    let multi_injected = get_multi_injected_fields_for_constructor(&item_struct);
    let target_impl = generate_injectable(target_type, TypeSource::Struct, &injected, &multi_injected);
    let struct_impl = if same {
        None
    } else {
        Some(generate_injectable(TypeSource::Struct, TypeSource::Struct, &injected, &multi_injected))
    };
    let ghost source_fields = item_struct.fields@;
    let mut rewritten = item_struct;
    wrap_injected_field_with_arc(&mut rewritten);
    let ghost wrapped = rewritten.fields@;
    wrap_multi_injected_field_with_arc(&mut rewritten);
    let ghost multi_wrapped = rewritten.fields@;
    strip_attribute_from_struct_fields("inject", &mut rewritten);
    let ghost stripped = rewritten.fields@;
    strip_attribute_from_struct_fields("multi_inject", &mut rewritten);
    proof {
        reveal_strlit("Arc");
        reveal_strlit("Vec");
        assert forall|i: int| 0 <= i < source_fields.len() implies #[trigger] expanded_field(source_fields[i], rewritten.fields@[i]) by {
            let inject = has_attribute(source_fields[i].attributes@, "inject"@);
            let multi = has_attribute(source_fields[i].attributes@, "multi_inject"@);
            if inject {
                assert(arc_wrapped(source_fields[i], wrapped[i]));
                assert(vec_element_position(wrapped[i].ty) is None) by {
                    assert(is_arc_path(wrapped[i].ty));
                    if let TypeShape::Path { leading_colon, qualified, segments } = wrapped[i].ty {
                        assert(segments@.last() == segments@[2]);
                        assert(segments@[2].ident@ == "Arc"@);
                        assert("Arc"@ != "Vec"@) by {
                            assert("Arc"@[0] != "Vec"@[0]);
                        }
                    }
                }
            } else {
                assert(wrapped[i] == source_fields[i]);
            }
            assert(wrapped[i].attributes == source_fields[i].attributes);
            if multi {
                assert(vec_wrapped(wrapped[i], multi_wrapped[i]));
            } else {
                assert(multi_wrapped[i] == wrapped[i]);
            }
            assert(multi_wrapped[i].attributes == source_fields[i].attributes);
            assert(stripped[i].ty == multi_wrapped[i].ty);
            let out = rewritten.fields@[i];
            assert(out.rewrites@ =~= source_fields[i].rewrites@ + (if inject { seq![TypeRewrite::Arc] } else { Seq::empty() }) + (if multi {
                seq![TypeRewrite::VecOfArc(if inject { None } else { vec_element_position(source_fields[i].ty) })]
            } else {
                Seq::empty()
            }));
        }
    }
    Expansion { item_struct: rewritten, target_impl, struct_impl }
}

} // verus!
