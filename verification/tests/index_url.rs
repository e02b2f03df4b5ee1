use rattler_installs_packages::index_url::normalize_index_url;

#[test]
fn index_url_gets_a_slash_at_the_end_of_its_path() {
    assert_eq!(
        normalize_index_url("https://pypi.org/simple").unwrap(),
        "https://pypi.org/simple/"
    );
    assert_eq!(
        normalize_index_url("https://pypi.org/simple/").unwrap(),
        "https://pypi.org/simple/"
    );
    assert_eq!(normalize_index_url("https://pypi.org").unwrap(), "https://pypi.org/");
    assert_eq!(
        normalize_index_url("https://example.org/a/b?x=1#frag").unwrap(),
        "https://example.org/a/b/?x=1#frag"
    );
    assert_eq!(
        normalize_index_url("HTTPS://Example.ORG/Simple").unwrap(),
        "https://example.org/Simple/"
    );
}

#[test]
fn index_url_that_is_no_address_gives_nothing() {
    assert!(normalize_index_url("not an address").is_none());
    assert!(normalize_index_url("").is_none());
}
