use std::str::FromStr;
use kroom_core::scope::Scope;

#[test]
fn scope_parses_its_names_in_any_case() {
    assert_eq!(Scope::parse("singleton"), Ok(Scope::Singleton));
    assert_eq!(Scope::parse("Singleton"), Ok(Scope::Singleton));
    assert_eq!(Scope::parse("TRANSIENT"), Ok(Scope::Transient));
    assert_eq!(Scope::parse("tRaNsIeNt"), Ok(Scope::Transient));
    assert_eq!(Scope::from_str("SINGLETON"), Ok(Scope::Singleton));
}

#[test]
fn scope_refuses_other_names() {
    assert_eq!(Scope::parse("scoped"), Err("scoped is not a valid Scope".to_string()));
    assert_eq!(Scope::parse(""), Err(" is not a valid Scope".to_string()));
    assert_eq!(Scope::parse("singletons"), Err("singletons is not a valid Scope".to_string()));
    assert_eq!(Scope::from_str(" singleton"), Err(" singleton is not a valid Scope".to_string()));
}

#[test]
fn scope_does_not_fold_non_ascii_letters() {
    // U+0130 (capital I with dot) lowercases to two characters, never to a plain `i`.
    assert!(Scope::parse("S\u{130}NGLETON").is_err());
}
