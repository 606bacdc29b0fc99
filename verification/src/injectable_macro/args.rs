//! The arguments of `#[injectable(...)]`: `type = T` names the interface, `scope = "..."`
//! the lifetime.
use vstd::prelude::*;
use vstd::string::*;
use crate::scope::{Scope, spells, invalid_scope_message};
use crate::injectable_macro::syntax::{TypeShape, text_eq};

verus! {

/// What the key of an argument asks for.
#[derive(Debug, Clone, Copy, PartialEq, Eq, Structural)]
pub enum ArgumentKey {
    Scope,
    Type,
    Unsupported,
}

/// The key that a path names, when the path is a single identifier.
pub open spec fn key_of(path: Option<Seq<char>>) -> ArgumentKey {
    match path {
        Some(p) => if p == "scope"@ {
            ArgumentKey::Scope
        } else if p == "type"@ {
            ArgumentKey::Type
        } else {
            ArgumentKey::Unsupported
        },
        None => ArgumentKey::Unsupported,
    }
}

/// Tells what the argument with the given key path asks for.
pub fn classify_argument(path: Option<&str>) -> (r: ArgumentKey)
    ensures
        r == key_of(
            match path {
                Some(p) => Some(p@),
                None => None,
            },
        ),
{
    match path {
        Some(p) => if text_eq(p, "scope") {
            ArgumentKey::Scope
        } else if text_eq(p, "type") {
            ArgumentKey::Type
        } else {
            ArgumentKey::Unsupported
        },
        None => ArgumentKey::Unsupported,
    }
}

/// An argument with its value read as its key asks.
#[derive(Debug)]
pub enum MacroArg {
    /// `scope = "..."`, with the text of the string literal.
    Scope(String),
    /// `type = T`, with the shape of `T`.
    Type(TypeShape),
    /// Any other key.
    Unsupported,
    /// An argument whose value is not what its key asks for (`scope = 1`), or that is not
    /// written as `key = value`.
    Malformed,
}

/// The arguments that were given.
#[derive(Debug, Clone, Copy, PartialEq, Eq, Structural)]
pub struct MacroArgs {
    /// The position of the last `type = T` argument.
    pub target_type: Option<usize>,
    /// The last scope given.
    pub scope: Option<Scope>,
}

impl MacroArgs {
    /// No arguments.
    pub fn default() -> (r: MacroArgs)
        ensures
            r.target_type is None,
            r.scope is None,
    {
        MacroArgs { target_type: None, scope: None }
    }
}

/// Why the arguments were refused.
#[derive(Debug)]
pub enum MacroArgError {
    /// The scope argument at `position` names no scope.
    InvalidScope { position: usize, message: String },
    /// The argument at `position` has a key that is not `scope` or `type`.
    Unsupported { position: usize },
    /// The argument at `position` is malformed.
    Malformed { position: usize },
}

/// The scope that a name spells, in any letter case.
pub open spec fn scope_named(s: Seq<char>) -> Option<Scope> {
    if spells(s, "singleton"@) {
        Some(Scope::Singleton)
    } else if spells(s, "transient"@) {
        Some(Scope::Transient)
    } else {
        None
    }
}

/// The argument is accepted.
pub open spec fn arg_accepted(a: MacroArg) -> bool {
    match a {
        MacroArg::Scope(s) => scope_named(s@) is Some,
        MacroArg::Type(_) => true,
        MacroArg::Unsupported => false,
        MacroArg::Malformed => false,
    }
}

/// Every argument before `n` is accepted.
pub open spec fn accepted_before(args: Seq<MacroArg>, n: int) -> bool {
    forall|i: int| 0 <= i < n ==> #[trigger] arg_accepted(args[i])
}

/// The scope of the last scope argument among the first `n`.
pub open spec fn last_scope(args: Seq<MacroArg>, n: int) -> Option<Scope>
    decreases n,
{
    if n <= 0 {
        None
    } else {
        match args[n - 1] {
            MacroArg::Scope(s) => scope_named(s@),
            _ => last_scope(args, n - 1),
        }
    }
}

/// The position of the last type argument among the first `n`.
pub open spec fn last_type_position(args: Seq<MacroArg>, n: int) -> Option<usize>
    decreases n,
{
    if n <= 0 {
        None
    } else {
        match args[n - 1] {
            MacroArg::Type(_) => Some((n - 1) as usize),
            _ => last_type_position(args, n - 1),
        }
    }
}

/// The last type argument among the first `n` is one of them, and a type argument.
pub proof fn lemma_last_type_position(args: Seq<MacroArg>, n: int)
    requires
        n <= args.len(),
        args.len() <= usize::MAX,
    ensures
        last_type_position(args, n) matches Some(p) ==> 0 <= p < n && args[p as int] is Type,
    decreases n,
{
    if n > 0 {
        lemma_last_type_position(args, n - 1);
    }
}

/// The error for a refused argument.
pub open spec fn arg_error_ok(args: Seq<MacroArg>, e: MacroArgError) -> bool {
    match e {
        MacroArgError::InvalidScope { position, message } => position < args.len() && accepted_before(
            args,
            position as int,
        ) && (args[position as int] matches MacroArg::Scope(s) && scope_named(s@) is None
            && message@ == invalid_scope_message(s@)),
        MacroArgError::Unsupported { position } => position < args.len() && accepted_before(
            args,
            position as int,
        ) && args[position as int] is Unsupported,
        MacroArgError::Malformed { position } => position < args.len() && accepted_before(args, position as int)
            && args[position as int] is Malformed,
    }
}

/// Reads the arguments in order: each `type` and `scope` argument overrides the ones before
/// it; the first argument with another key, or a scope that names none, is an error.
pub fn parse_macro_args(args: &Vec<MacroArg>) -> (r: Result<MacroArgs, MacroArgError>)
    ensures
        r is Ok <==> accepted_before(args@, args@.len() as int),
        r matches Ok(a) ==> a.scope == last_scope(args@, args@.len() as int) && a.target_type
            == last_type_position(args@, args@.len() as int),
        r matches Err(e) ==> arg_error_ok(args@, e),
{
    let mut parsed = MacroArgs::default();
    let mut i: usize = 0;
    while i < args.len()
        invariant
            i <= args@.len(),
            accepted_before(args@, i as int),
            parsed.scope == last_scope(args@, i as int),
            parsed.target_type == last_type_position(args@, i as int),
        decreases args@.len() - i,
    {
        match &args[i] {
            MacroArg::Scope(value) => {
                match Scope::parse(value.as_str()) {
                    Ok(scope) => {
                        parsed.scope = Some(scope);
                    },
                    Err(message) => {
                        assert(!arg_accepted(args@[i as int]));
                        return Err(MacroArgError::InvalidScope { position: i, message });
                    },
                }
            },
            MacroArg::Type(_) => {
                parsed.target_type = Some(i);
            },
            MacroArg::Unsupported => {
                assert(!arg_accepted(args@[i as int]));
                return Err(MacroArgError::Unsupported { position: i });
            },
            MacroArg::Malformed => {
                assert(!arg_accepted(args@[i as int]));
                return Err(MacroArgError::Malformed { position: i });
            },
        }
        i = i + 1;
    }
    Ok(parsed)
}

impl MacroArgError {
    /// The text of the error.
    pub fn message(&self) -> (r: String)
        ensures
            match self {
                MacroArgError::InvalidScope { position, message } => r@ == message@,
                MacroArgError::Unsupported { position } => r@ == "Unsupported macro argument"@,
                MacroArgError::Malformed { position } => r@ == "Malformed macro argument"@,
            },
    {
        match self {
            MacroArgError::InvalidScope { position: _, message } => message.clone(),
            MacroArgError::Unsupported { position: _ } => String::from_str("Unsupported macro argument"),
            MacroArgError::Malformed { position: _ } => String::from_str("Malformed macro argument"),
        }
    }
}

} // verus!
