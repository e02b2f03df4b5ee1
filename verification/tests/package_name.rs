use rattler_installs_packages::package_name::{normalize, NormalizedPackageName, PackageName};

#[test]
fn normalize_lowers_and_collapses_runs() {
    assert_eq!(normalize("Foo.Bar_baz"), "foo-bar-baz");
    assert_eq!(normalize("foo-._-bar"), "foo-bar");
    assert_eq!(normalize("FOO"), "foo");
    assert_eq!(normalize(""), "");
    assert_eq!(normalize("--a--"), "-a-");
    assert_eq!(normalize("typing_extensions"), "typing-extensions");
    assert_eq!(normalize("Ünï_X"), "Ünï-x");
}

#[test]
fn normalize_is_idempotent_on_examples() {
    for name in ["Foo.Bar_baz", "a--b", "__x__", "Already-normal", "zope.interface", ""] {
        let once = normalize(name);
        assert_eq!(normalize(&once), once);
    }
}

#[test]
fn package_names_compare_by_normal_form() {
    let a = PackageName::new("Fake_Flask").to_normalized();
    let b = NormalizedPackageName::new("fake.flask");
    assert!(a.same(&b));
    assert_eq!(a.as_str(), "fake-flask");
    assert_eq!(PackageName::new("Fake_Flask").as_str(), "Fake_Flask");
    assert!(!a.same(&NormalizedPackageName::new("flask")));
    assert_eq!(a.duplicate().as_str(), "fake-flask");
}
