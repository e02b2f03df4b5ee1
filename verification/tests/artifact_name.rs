use rattler_installs_packages::artifact_name::{
    ArtifactName, ParseArtifactNameError, SDistFilename, SDistFormat, WheelFilename,
};
use rattler_installs_packages::package_name::NormalizedPackageName;

fn name(text: &str) -> NormalizedPackageName {
    NormalizedPackageName::new(text)
}

#[test]
fn sdist_name_has_package_version_and_format() {
    let sdist = SDistFilename::from_filename("rich-13.6.0.tar.gz", &name("rich")).unwrap();
    assert_eq!(sdist.distribution, "rich");
    assert_eq!(sdist.version.as_str(), "13.6.0");
    assert_eq!(sdist.format, SDistFormat::TarGz);
    let sdist = SDistFilename::from_filename("rich-13.6.0.tar", &name("rich")).unwrap();
    assert_eq!(sdist.format, SDistFormat::Tar);
    let sdist = SDistFilename::from_filename("rich-13.6.0.zip", &name("rich")).unwrap();
    assert_eq!(sdist.format, SDistFormat::Zip);
}

#[test]
fn sdist_name_with_dashes_in_the_package() {
    let sdist = SDistFilename::from_filename("fake-flask-3.0.0.tar.gz", &name("fake-flask")).unwrap();
    assert_eq!(sdist.distribution, "fake-flask");
    assert_eq!(sdist.version.as_str(), "3.0.0");
    let sdist = SDistFilename::from_filename("Fake_Flask-3.0.0.tar.gz", &name("fake-flask")).unwrap();
    assert_eq!(sdist.distribution, "Fake_Flask");
    let sdist = SDistFilename::from_filename("a-1-2.tar.gz", &name("a-1")).unwrap();
    assert_eq!(sdist.distribution, "a-1");
    assert_eq!(sdist.version.as_str(), "2");
    let sdist = SDistFilename::from_filename("a-1-2.tar.gz", &name("a")).unwrap();
    assert_eq!(sdist.distribution, "a");
    assert_eq!(sdist.version.as_str(), "1-2");
}

#[test]
fn artifact_name_errors() {
    assert_eq!(
        ArtifactName::from_filename("rich-13.6.0.exe", &name("rich")).unwrap_err(),
        ParseArtifactNameError::UnknownFormat
    );
    assert_eq!(
        SDistFilename::from_filename("rich-13.6.0-py3-none-any.whl", &name("rich")).unwrap_err(),
        ParseArtifactNameError::UnknownFormat
    );
    assert_eq!(
        WheelFilename::from_filename("rich-13.6.0.tar.gz", &name("rich")).unwrap_err(),
        ParseArtifactNameError::UnknownFormat
    );
    assert_eq!(
        SDistFilename::from_filename("rich-13.6.0.tar.gz", &name("poor")).unwrap_err(),
        ParseArtifactNameError::InvalidName
    );
    assert_eq!(
        SDistFilename::from_filename("rich.tar.gz", &name("rich")).unwrap_err(),
        ParseArtifactNameError::InvalidName
    );
    assert_eq!(
        SDistFilename::from_filename("rich-banana.tar.gz", &name("rich")).unwrap_err(),
        ParseArtifactNameError::InvalidVersion
    );
    assert_eq!(
        WheelFilename::from_filename("rich-13.6.0-py3-none.whl", &name("rich")).unwrap_err(),
        ParseArtifactNameError::InvalidWheelName
    );
    assert_eq!(
        WheelFilename::from_filename("rich.whl", &name("rich")).unwrap_err(),
        ParseArtifactNameError::InvalidWheelName
    );
    assert_eq!(
        WheelFilename::from_filename("poor-13.6.0-py3-none.whl", &name("rich")).unwrap_err(),
        ParseArtifactNameError::InvalidWheelName
    );
    assert_eq!(
        WheelFilename::from_filename("poor-13.6.0-py3-none-any.whl", &name("rich")).unwrap_err(),
        ParseArtifactNameError::InvalidName
    );
    assert_eq!(
        ArtifactName::from_filename("poor-13.6.0-1-py3-none-any.whl", &name("rich")).unwrap_err(),
        ParseArtifactNameError::InvalidName
    );
    assert_eq!(
        WheelFilename::from_filename("rich-13.6.0-1-py3-none-any-extra.whl", &name("rich"))
            .unwrap_err(),
        ParseArtifactNameError::InvalidWheelName
    );
    assert_eq!(
        WheelFilename::from_filename("rich-13.6.0--none-any.whl", &name("rich")).unwrap_err(),
        ParseArtifactNameError::InvalidWheelName
    );
    assert_eq!(
        WheelFilename::from_filename("rich-banana-py3-none-any.whl", &name("rich")).unwrap_err(),
        ParseArtifactNameError::InvalidVersion
    );
}

#[test]
fn wheel_name_has_five_or_six_parts() {
    let wheel =
        WheelFilename::from_filename("rich-13.6.0-py3-none-any.whl", &name("rich")).unwrap();
    assert_eq!(wheel.distribution, "rich");
    assert_eq!(wheel.version.as_str(), "13.6.0");
    assert_eq!(wheel.build_tag, None);
    assert_eq!(wheel.python_tag, "py3");
    assert_eq!(wheel.abi_tag, "none");
    assert_eq!(wheel.platform_tag, "any");
    let wheel = WheelFilename::from_filename(
        "numpy-1.26.0-1-cp311-cp311-manylinux_2_17_x86_64.manylinux2014_x86_64.whl",
        &name("numpy"),
    )
    .unwrap();
    assert_eq!(wheel.build_tag, Some("1".to_string()));
    assert_eq!(wheel.python_tag, "cp311");
    assert_eq!(wheel.abi_tag, "cp311");
    assert_eq!(wheel.platform_tag, "manylinux_2_17_x86_64.manylinux2014_x86_64");
}

#[test]
fn artifact_name_round_trip() {
    for (file, package) in [
        ("rich-13.6.0.tar.gz", "rich"),
        ("fake-flask-3.0.0.tar.gz", "fake-flask"),
        ("Fake_Flask-3.0.0.zip", "fake-flask"),
        ("zope.interface-6.0.tar", "zope-interface"),
        ("rich-13.6.0-py3-none-any.whl", "rich"),
        ("typing_extensions-4.8.0-2-py3-none-any.whl", "typing-extensions"),
    ] {
        let parsed = ArtifactName::from_filename(file, &name(package)).unwrap();
        assert_eq!(parsed.to_filename(), file);
        let again = ArtifactName::from_filename(&parsed.to_filename(), &name(package)).unwrap();
        assert_eq!(again.to_filename(), file);
        assert_eq!(again.is_wheel(), file.ends_with(".whl"));
        assert_eq!(again.version().as_str(), parsed.version().as_str());
    }
}

#[test]
fn artifact_name_with_a_legacy_version() {
    let sdist = SDistFilename::from_filename("pytz-2011k.tar.gz", &name("pytz")).unwrap();
    assert_eq!(sdist.distribution, "pytz");
    assert_eq!(sdist.version.as_str(), "2011k");
    assert!(sdist.version.is_legacy());
    assert_eq!(sdist.to_filename(), "pytz-2011k.tar.gz");
    let wheel = WheelFilename::from_filename("pytz-2011k-py3-none-any.whl", &name("pytz")).unwrap();
    assert!(wheel.version.is_legacy());
    assert_eq!(wheel.to_filename(), "pytz-2011k-py3-none-any.whl");
}
