use rattler_installs_packages::specifiers::{SpecifierError, Specifiers};
use rattler_installs_packages::version::Version;

#[test]
fn empty_specifiers_accept_any_version() {
    let empty = Specifiers::empty();
    assert_eq!(empty.len(), 0);
    for text in ["0.0.1", "1.0a1", "2!3.4.post5", "1.0.dev0"] {
        let version = Version::parse(text).unwrap();
        assert!(matches!(empty.satisfied_by(&version), Ok(true)));
    }
}

#[test]
fn specifiers_are_a_conjunction() {
    let specifiers = Specifiers::parse(">=1.0, !=1.3.*, <2.0").unwrap();
    assert_eq!(specifiers.len(), 3);
    assert_eq!(specifiers.clause(0), ">=1.0");
    assert_eq!(specifiers.clause(1), "!=1.3.*");
    assert_eq!(specifiers.clause(2), "<2.0");
    let accepts = |text: &str| specifiers.satisfied_by(&Version::parse(text).unwrap()).unwrap();
    assert!(accepts("1.0"));
    assert!(accepts("1.9.9"));
    assert!(!accepts("0.9"));
    assert!(!accepts("1.3.4"));
    assert!(!accepts("2.0"));
}

#[test]
fn specifiers_parse_rejects_what_is_no_clause() {
    assert!(Specifiers::parse(">=").is_none());
    assert!(Specifiers::parse("").is_none());
    assert!(Specifiers::parse("~=1").is_none());
    assert!(Specifiers::parse("=>1.0").is_none());
}

#[test]
fn specifiers_with_a_clause_that_is_none_fail() {
    let specifiers = Specifiers::from_clauses(vec!["banana".to_string()]);
    let version = Version::parse("1.0").unwrap();
    match specifiers.satisfied_by(&version) {
        Err(SpecifierError::InvalidClause(text)) => assert_eq!(text, "banana"),
        other => panic!("expected an invalid clause, got {other:?}"),
    }
    let specifiers = Specifiers::from_clauses(vec!["<1.0".to_string(), "banana".to_string()]);
    assert!(matches!(specifiers.satisfied_by(&version), Ok(false)));
}

#[test]
fn specifiers_compare_clause_by_clause() {
    let a = Specifiers::parse(">=1.0,<2").unwrap();
    let b = Specifiers::parse(">= 1.0 , < 2").unwrap();
    let c = Specifiers::parse("<2,>=1.0").unwrap();
    assert!(a.same(&b));
    assert!(!a.same(&c));
    assert!(a.duplicate().same(&a));
}

#[test]
fn legacy_version_meets_the_empty_specifiers_only() {
    let version = Version::parse("2011k").unwrap();
    assert!(matches!(Specifiers::empty().satisfied_by(&version), Ok(true)));
    let specifiers = Specifiers::parse(">=2011").unwrap();
    match specifiers.satisfied_by(&version) {
        Err(SpecifierError::InvalidClause(text)) => assert_eq!(text, ">=2011"),
        other => panic!("expected an error, got {other:?}"),
    }
}
