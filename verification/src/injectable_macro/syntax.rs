//! The parts of a struct definition, and of the types in it, that the `#[injectable]` macro
//! reads. Each item keeps the position of the syntax node it stands for, so that the
//! expansion can be written back with the tokens of the source.
use vstd::prelude::*;
use vstd::string::*;

verus! {

/// A generic argument of a path segment: a type, or anything else (a lifetime, a constant,
/// a binding).
#[derive(Debug, Clone, Copy, PartialEq, Eq, Structural)]
pub enum GenericArgShape {
    Type,
    Other,
}

/// The arguments of a path segment.
#[derive(Debug)]
pub enum PathArgumentsShape {
    /// `Segment`
    Bare,
    /// `Segment<A, B>`
    AngleBracketed(Vec<GenericArgShape>),
    /// `Segment(A) -> B`
    Parenthesized,
}

/// A segment of a type path.
#[derive(Debug)]
pub struct PathSegmentShape {
    pub ident: String,
    pub arguments: PathArgumentsShape,
}

/// A type.
#[derive(Debug)]
pub enum TypeShape {
    /// A path such as `::std::sync::Arc<T>`; `qualified` when it has a `<T as Trait>` part.
    Path { leading_colon: bool, qualified: bool, segments: Vec<PathSegmentShape> },
    /// Any other type: a reference, a tuple, a trait object, ...
    Other,
}

/// An attribute of a field: the name of its path when that path is a single identifier.
#[derive(Debug)]
pub struct AttributeShape {
    pub name: Option<String>,
    /// The position of the attribute among the field's attributes in the source.
    pub origin: usize,
}

/// A rewrite of a field's type.
#[derive(Debug, Clone, Copy, PartialEq, Eq, Structural)]
pub enum TypeRewrite {
    /// `T` became `::std::sync::Arc<T>`.
    Arc,
    /// `T` became `Vec<::std::sync::Arc<E>>`, where `E` is the generic argument at the given
    /// position of the last segment of `T`, or nothing.
    VecOfArc(Option<usize>),
}

/// A field of a struct.
#[derive(Debug)]
pub struct FieldShape {
    pub ident: Option<String>,
    pub attributes: Vec<AttributeShape>,
    /// The shape of the field's type as it stands.
    pub ty: TypeShape,
    /// The rewrites that led from the type in the source to the type as it stands, in order.
    pub rewrites: Vec<TypeRewrite>,
}

/// A struct definition.
#[derive(Debug)]
pub struct StructShape {
    pub ident: String,
    pub fields: Vec<FieldShape>,
}

/// The text `s` is the text `t`.
pub fn text_eq(s: &str, t: &str) -> (r: bool)
    ensures
        r == (s@ == t@),
{
    let n = s.unicode_len();
    if n != t.unicode_len() {
        return false;
    }
    let mut i: usize = 0;
    while i < n
        invariant
            n == s@.len(),
            n == t@.len(),
            i <= n,
            forall|j: int| 0 <= j < i ==> s@[j] == t@[j],
        decreases n - i,
    {
        if s.get_char(i) != t.get_char(i) {
            return false;
        }
        i = i + 1;
    }
    assert(s@ =~= t@);
    true
}

} // verus!
