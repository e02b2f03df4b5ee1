use rattler_installs_packages::core_metadata::{
    MetadataVersion, WheelCoreMetaDataError, WheelCoreMetadata,
};
use rattler_installs_packages::rfc822ish::{
    encode_header, find_fields, is_named, parse_header, HeaderField,
};

fn decode(text: &str) -> Result<WheelCoreMetadata, WheelCoreMetaDataError> {
    WheelCoreMetadata::decode(&text.as_bytes().to_vec())
}

#[test]
fn header_fields_in_file_order() {
    let fields = parse_header("Name: rich\nVersion: 13.6.0\nClassifier: a\nclassifier: b\n\nName: later\n").unwrap();
    let listed: Vec<(&str, &str)> =
        fields.iter().map(|f| (f.name.as_str(), f.value.as_str())).collect();
    assert_eq!(
        listed,
        vec![("Name", "rich"), ("Version", "13.6.0"), ("Classifier", "a"), ("classifier", "b")]
    );
    assert_eq!(find_fields(&fields, "CLASSIFIER"), vec![2, 3]);
    assert_eq!(find_fields(&fields, "Summary"), Vec::<usize>::new());
    assert!(is_named("Requires-Dist", "requires-dist"));
    assert!(!is_named("Requires-Dist", "Requires_Dist"));
}

#[test]
fn header_continuation_lines_are_joined_by_spaces() {
    let fields = parse_header("Summary: one\r\n two\r\n\tthree\r\nName:x\r\n\r\nbody: no").unwrap();
    let listed: Vec<(&str, &str)> =
        fields.iter().map(|f| (f.name.as_str(), f.value.as_str())).collect();
    assert_eq!(listed, vec![("Summary", "one two three"), ("Name", "x")]);
}

#[test]
fn header_with_a_line_that_is_no_field_is_malformed() {
    assert!(parse_header("Name: rich\nno colon here\n").is_err());
    assert!(parse_header(" starts with a continuation\n").is_err());
    assert!(parse_header("").unwrap().is_empty());
    assert!(parse_header("\nName: rich\n").unwrap().is_empty());
}

#[test]
fn decode_reads_the_known_fields() {
    let metadata = decode(
        "Metadata-Version: 2.1\nName: Fake_Flask\nVersion: 3.0.0\nRequires-Python: >=3.8\n\
         Requires-Dist: Werkzeug >=3.0.0\nRequires-Dist: importlib-metadata >=3.6.0 ; python_version < \"3.10\"\n\
         Provides-Extra: Async\nProvides-Extra: dot_env\nHome-page: https://example.org\n\nA description.\n",
    )
    .unwrap();
    assert_eq!(metadata.name.as_str(), "Fake_Flask");
    assert_eq!(metadata.version.as_str(), "3.0.0");
    assert_eq!(metadata.metadata_version, MetadataVersion { major: 2, minor: 1 });
    assert!(!metadata.metadata_version.implements_pep643());
    assert_eq!(metadata.requires_dist.len(), 2);
    assert_eq!(metadata.requires_dist[0].name.as_str(), "werkzeug");
    assert_eq!(metadata.requires_dist[0].specifiers.clause(0), ">=3.0.0");
    assert_eq!(metadata.requires_dist[1].name.as_str(), "importlib-metadata");
    assert!(metadata.requires_dist[1].env_marker.is_some());
    assert_eq!(metadata.requires_python.unwrap().clause(0), ">=3.8");
    assert_eq!(metadata.extras, vec!["async".to_string(), "dot-env".to_string()]);
    assert_eq!(metadata.fields.len(), 9);
    assert_eq!(metadata.fields[8].name, "Home-page");
}

#[test]
fn decode_names_what_is_missing_or_wrong() {
    assert_eq!(decode("Name: a\nVersion: 1\n").unwrap_err(), WheelCoreMetaDataError::MissingMetadataVersion);
    assert_eq!(
        decode("Metadata-Version: two\nName: a\nVersion: 1\n").unwrap_err(),
        WheelCoreMetaDataError::InvalidMetadataVersion
    );
    assert_eq!(
        decode("Metadata-Version: 2\nName: a\nVersion: 1\n").unwrap_err(),
        WheelCoreMetaDataError::InvalidMetadataVersion
    );
    assert_eq!(decode("Metadata-Version: 2.1\nVersion: 1\n").unwrap_err(), WheelCoreMetaDataError::MissingName);
    assert_eq!(decode("Metadata-Version: 2.1\nName: a\n").unwrap_err(), WheelCoreMetaDataError::MissingVersion);
    assert_eq!(
        decode("Metadata-Version: 2.1\nName: a\nVersion: one\n").unwrap_err(),
        WheelCoreMetaDataError::InvalidVersion
    );
    assert_eq!(
        decode("Metadata-Version: 2.1\nName: a\nVersion: 1\nRequires-Dist: b\nRequires-Dist: c >=\n")
            .unwrap_err(),
        WheelCoreMetaDataError::InvalidRequirement(1)
    );
    assert_eq!(
        decode("Metadata-Version: 2.1\nName: a\nVersion: 1\nRequires-Python: python3\n").unwrap_err(),
        WheelCoreMetaDataError::InvalidRequiresPython
    );
    assert_eq!(decode("Metadata-Version: 2.1\nName a\n").unwrap_err(), WheelCoreMetaDataError::MalformedHeader);
    assert_eq!(
        WheelCoreMetadata::decode(&vec![0x4e, 0xff, 0x3a]).unwrap_err(),
        WheelCoreMetaDataError::InvalidUtf8
    );
}

#[test]
fn metadata_version_gate() {
    assert!(!MetadataVersion { major: 1, minor: 9 }.implements_pep643());
    assert!(!MetadataVersion { major: 2, minor: 1 }.implements_pep643());
    assert!(MetadataVersion { major: 2, minor: 2 }.implements_pep643());
    assert!(MetadataVersion { major: 2, minor: 3 }.implements_pep643());
    assert!(MetadataVersion { major: 3, minor: 0 }.implements_pep643());
}

#[test]
fn encode_writes_a_field_on_each_line() {
    let fields = vec![
        HeaderField { name: "Metadata-Version".to_string(), value: "2.2".to_string() },
        HeaderField { name: "Name".to_string(), value: "fake-flask".to_string() },
        HeaderField { name: "Summary".to_string(), value: String::new() },
    ];
    assert_eq!(encode_header(&fields), "Metadata-Version: 2.2\nName: fake-flask\nSummary: \n");
    assert_eq!(encode_header(&Vec::new()), "");
}

#[test]
fn decode_of_encode_gives_the_metadata_back() {
    let text = "Metadata-Version: 2.2\nName: Fake_Flask\nVersion: 3.0.0\nRequires-Python: >=3.8\n\
         Requires-Dist: Werkzeug >=3.0.0\nRequires-Dist: importlib-metadata >=3.6.0 ; python_version < \"3.10\"\n\
         Provides-Extra: Async\nSummary: A long\n   summary\nX-Unknown: kept\n\nA description.\n";
    let first = decode(text).unwrap();
    let bytes = first.encode();
    assert_eq!(
        String::from_utf8(bytes.clone()).unwrap(),
        "Metadata-Version: 2.2\nName: Fake_Flask\nVersion: 3.0.0\nRequires-Python: >=3.8\n\
         Requires-Dist: Werkzeug >=3.0.0\nRequires-Dist: importlib-metadata >=3.6.0 ; python_version < \"3.10\"\n\
         Provides-Extra: Async\nSummary: A long summary\nX-Unknown: kept\n"
    );
    let second = WheelCoreMetadata::decode(&bytes).unwrap();
    assert_eq!(second.name.as_str(), first.name.as_str());
    assert_eq!(second.version.as_str(), first.version.as_str());
    assert_eq!(second.metadata_version, first.metadata_version);
    assert_eq!(second.extras, first.extras);
    assert_eq!(second.requires_dist.len(), first.requires_dist.len());
    assert_eq!(second.requires_dist[1].name.as_str(), "importlib-metadata");
    assert_eq!(second.fields.len(), first.fields.len());
    assert_eq!(second.encode(), bytes);
}

#[test]
fn decode_refuses_a_requirement_with_too_many_brackets() {
    let nested = |depth: usize| {
        format!(
            "Metadata-Version: 2.1\nName: a\nVersion: 2011k\nRequires-Dist: b\nRequires-Dist: c ; {}os_name == 'posix'{}\n",
            "(".repeat(depth),
            ")".repeat(depth)
        )
    };
    let metadata = decode(&nested(64)).unwrap();
    assert!(metadata.version.is_legacy());
    assert_eq!(metadata.requires_dist.len(), 2);
    assert_eq!(decode(&nested(65)).unwrap_err(), WheelCoreMetaDataError::InvalidRequirement(1));
    assert_eq!(
        decode(&nested(100_000)).unwrap_err(),
        WheelCoreMetaDataError::InvalidRequirement(1)
    );
}
