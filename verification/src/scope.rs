//! How long an instance that the container builds is meant to live.
use vstd::prelude::*;
use vstd::string::*;

verus! {

/// The lifetime that an implementation declares for its instances. The container records it
/// and builds a new instance on each request whatever the scope.
#[derive(Debug, Clone, Copy, PartialEq, Eq, Structural)]
pub enum Scope {
    /// Meant to be one instance, shared.
    Singleton,
    /// Meant to be a new instance for each request.
    Transient,
}

/// `c` is the lower-case ASCII letter `lower` in either case.
pub open spec fn same_letter(c: char, lower: char) -> bool {
    c == lower || ('A' <= c <= 'Z' && (c as int) + 32 == lower as int)
}

/// `s` spells the lower-case word `word` with its letters in any case. Apart from these letters
/// and their ASCII capitals, no character lower-cases to a single letter of `singleton` or
/// `transient`, so for these two words it is the same as `s.to_lowercase() == word`.
pub open spec fn spells(s: Seq<char>, word: Seq<char>) -> bool {
    &&& s.len() == word.len()
    &&& forall|i: int| 0 <= i < s.len() ==> #[trigger] same_letter(s[i], word[i])
}

/// The message of the error for a string that names no scope.
pub open spec fn invalid_scope_message(s: Seq<char>) -> Seq<char> {
    s + " is not a valid Scope"@
}

fn spells_word(s: &str, word: &str) -> (r: bool)
    requires
        forall|i: int| 0 <= i < word@.len() ==> 'a' <= #[trigger] word@[i] <= 'z',
    ensures
        r == spells(s@, word@),
{
    let n = s.unicode_len();
    if n != word.unicode_len() {
        return false;
    }
    let mut i: usize = 0;
    while i < n
        invariant
            n == s@.len(),
            n == word@.len(),
            i <= n,
            forall|j: int| 0 <= j < word@.len() ==> 'a' <= #[trigger] word@[j] <= 'z',
            forall|j: int| 0 <= j < i ==> #[trigger] same_letter(s@[j], word@[j]),
        decreases n - i,
    {
        let c = s.get_char(i);
        let w = word.get_char(i);
        let upper_ok = 'A' <= c && c <= 'Z' && (c as u32) + 32 == (w as u32);
        if !(c == w || upper_ok) {
            assert(!same_letter(s@[i as int], word@[i as int]));
            return false;
        }
        i = i + 1;
    }
    true
}

impl Scope {
    /// Reads a scope from its name, in any letter case: `singleton` or `transient`.
    pub fn parse(s: &str) -> (r: Result<Scope, String>)
        ensures
            r == Ok::<Scope, String>(Scope::Singleton) <==> spells(s@, "singleton"@),
            r == Ok::<Scope, String>(Scope::Transient) <==> spells(s@, "transient"@),
            r matches Err(e) ==> e@ == invalid_scope_message(s@),
            r is Err <==> !spells(s@, "singleton"@) && !spells(s@, "transient"@),
    {
        proof {
            reveal_strlit("singleton");
            reveal_strlit("transient");
            if spells(s@, "singleton"@) && spells(s@, "transient"@) {
                assert("singleton"@[0] == 's');
                assert("transient"@[0] == 't');
                assert(same_letter(s@[0], "singleton"@[0]));
                assert(same_letter(s@[0], "transient"@[0]));
            }
        }
        if spells_word(s, "singleton") {
            Ok(Scope::Singleton)
        } else if spells_word(s, "transient") {
            Ok(Scope::Transient)
        } else {
            let mut message = String::from_str(s);
            message.append(" is not a valid Scope");
            Err(message)
        }
    }
}

impl std::str::FromStr for Scope {
    type Err = String;

    fn from_str(s: &str) -> (r: Result<Scope, String>)
        ensures
            r == Ok::<Scope, String>(Scope::Singleton) <==> spells(s@, "singleton"@),
            r == Ok::<Scope, String>(Scope::Transient) <==> spells(s@, "transient"@),
            r matches Err(e) ==> e@ == invalid_scope_message(s@),
            r is Err <==> !spells(s@, "singleton"@) && !spells(s@, "transient"@),
    {
        Scope::parse(s)
    }
}

} // verus!
