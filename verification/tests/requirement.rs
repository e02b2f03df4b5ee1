use rattler_installs_packages::requirement::{
    MarkerEnvironment, MarkerError, MarkerExpr, Requirement, MAX_BRACKETS,
};

fn environment(python: &str) -> MarkerEnvironment {
    MarkerEnvironment {
        os_name: "posix".to_string(),
        sys_platform: "linux".to_string(),
        platform_machine: "x86_64".to_string(),
        platform_python_implementation: "CPython".to_string(),
        platform_release: "6.1".to_string(),
        platform_system: "Linux".to_string(),
        platform_version: "1".to_string(),
        python_version: python.to_string(),
        python_full_version: format!("{python}.0"),
        implementation_name: "cpython".to_string(),
        implementation_version: format!("{python}.0"),
        extra: String::new(),
    }
}

#[test]
fn requirement_parse_gives_the_parts() {
    let req =
        Requirement::parse("Requests[Security_X,tests] >=2.8.1, ==2.8.* ; python_version > '3.8'")
            .unwrap();
    assert_eq!(req.name.as_str(), "requests");
    assert_eq!(req.extras, vec!["security-x".to_string(), "tests".to_string()]);
    assert_eq!(req.specifiers.len(), 2);
    assert_eq!(req.specifiers.clause(0), ">=2.8.1");
    assert_eq!(req.specifiers.clause(1), "==2.8.*");
    assert!(req.url.is_none());
    assert!(req.env_marker.is_some());
    assert!(req.applies_in(&environment("3.9")));
    assert!(!req.applies_in(&environment("3.7")));
}

#[test]
fn requirement_without_marker_always_applies() {
    let req = Requirement::parse("typing_extensions").unwrap();
    assert_eq!(req.name.as_str(), "typing-extensions");
    assert_eq!(req.specifiers.len(), 0);
    assert!(req.env_marker.is_none());
    assert!(req.applies_in(&environment("3.9")));
}

#[test]
fn requirement_parse_rejects_what_is_none() {
    assert!(Requirement::parse("").is_none());
    assert!(Requirement::parse("numpy >=").is_none());
    assert!(Requirement::parse("numpy ; python_version >").is_none());
}

#[test]
fn marker_with_unknown_key_counts_as_false() {
    let marker = MarkerExpr::new("no_such_key == 'x'");
    assert_eq!(marker.eval(&environment("3.9")), Err(MarkerError::CannotEvaluate));
    assert!(!marker.holds(&environment("3.9")));
    let marker = MarkerExpr::new("python_version >= '3.8' and sys_platform == 'linux'");
    assert_eq!(marker.eval(&environment("3.9")), Ok(true));
    assert_eq!(marker.as_str(), "python_version >= '3.8' and sys_platform == 'linux'");
    let marker = MarkerExpr::new("sys_platform == 'win32' or os_name == 'nt'");
    assert_eq!(marker.eval(&environment("3.9")), Ok(false));
    assert!(!marker.duplicate().holds(&environment("3.9")));
}

#[test]
fn marker_needs_versions_in_the_environment() {
    let mut env = environment("3.9");
    env.python_full_version = String::new();
    let marker = MarkerExpr::new("python_version >= '3.8'");
    assert_eq!(marker.eval(&env), Err(MarkerError::CannotEvaluate));
}

fn nested(depth: usize) -> String {
    format!("{}python_version > '3'{}", "(".repeat(depth), ")".repeat(depth))
}

#[test]
fn marker_with_too_many_brackets_cannot_be_evaluated() {
    assert_eq!(MAX_BRACKETS, 64);
    let env = environment("3.9");
    assert_eq!(MarkerExpr::new(&nested(MAX_BRACKETS)).eval(&env), Ok(true));
    assert_eq!(
        MarkerExpr::new(&nested(MAX_BRACKETS + 1)).eval(&env),
        Err(MarkerError::CannotEvaluate)
    );
    assert!(!MarkerExpr::new(&nested(MAX_BRACKETS + 1)).holds(&env));
    assert_eq!(MarkerExpr::new(&nested(100_000)).eval(&env), Err(MarkerError::CannotEvaluate));
    let flat = format!("os_name == '{}'", "(".repeat(MAX_BRACKETS + 1));
    assert_eq!(MarkerExpr::new(&flat).eval(&env), Err(MarkerError::CannotEvaluate));
}

#[test]
fn requirement_with_too_many_brackets_is_none() {
    let env = environment("3.9");
    let req = Requirement::parse(&format!("a ; {}", nested(MAX_BRACKETS))).unwrap();
    assert!(req.applies_in(&env));
    assert!(Requirement::parse(&format!("a ; {}", nested(MAX_BRACKETS + 1))).is_none());
    assert!(Requirement::parse(&format!("a ; {}", nested(100_000))).is_none());
    let req = Requirement::parse(&format!("a (>=1.0) ; {}", nested(MAX_BRACKETS - 1))).unwrap();
    assert_eq!(req.specifiers.clause(0), ">=1.0");
    assert!(Requirement::parse(&format!("a (>=1.0) ; {}", nested(MAX_BRACKETS))).is_none());
}
