use rattler_installs_packages::system_python::{
    ParsePythonInterpreterVersionError, PythonInterpreterVersion,
};

#[test]
pub fn parse_python_version() {
    let version = PythonInterpreterVersion::from_python_output("Python 3.8.5").unwrap();
    assert_eq!(version.major, 3);
    assert_eq!(version.minor, 8);
    assert_eq!(version.patch, 5);
}

#[test]
fn python_version_needs_three_fields() {
    match PythonInterpreterVersion::from_python_output("Python 3.8") {
        Err(ParsePythonInterpreterVersionError::InvalidVersion(text)) => {
            assert_eq!(text, "Python 3.8")
        }
        _ => panic!("expected an invalid version"),
    }
}

#[test]
fn python_version_needs_the_word_python() {
    assert!(matches!(
        PythonInterpreterVersion::from_python_output("CPython 3.8.5"),
        Err(ParsePythonInterpreterVersionError::InvalidVersion(_))
    ));
    assert!(PythonInterpreterVersion::from_python_output("").is_err());
    assert!(PythonInterpreterVersion::from_python_output("Python").is_err());
    assert!(PythonInterpreterVersion::from_python_output("python 3.8.5").is_err());
}

#[test]
fn python_version_ignores_what_follows() {
    let version =
        PythonInterpreterVersion::from_python_output("  Python\t3.11.4.2 (main)\n").unwrap();
    assert_eq!((version.major, version.minor, version.patch), (3, 11, 4));
    let version = PythonInterpreterVersion::from_python_output("Python +3.08.0").unwrap();
    assert_eq!((version.major, version.minor, version.patch), (3, 8, 0));
}

#[test]
fn python_version_fields_are_u32() {
    let version = PythonInterpreterVersion::from_python_output("Python 4294967295.0.1").unwrap();
    assert_eq!(version.major, u32::MAX);
    assert!(PythonInterpreterVersion::from_python_output("Python 4294967296.0.1").is_err());
    assert!(PythonInterpreterVersion::from_python_output("Python 3..5").is_err());
    assert!(PythonInterpreterVersion::from_python_output("Python 3.-8.5").is_err());
    assert!(PythonInterpreterVersion::from_python_output("Python 3.8.5rc1").is_err());
    assert!(PythonInterpreterVersion::from_python_output("Python 3.+.5").is_err());
}

#[test]
fn python_version_new_keeps_fields() {
    let version = PythonInterpreterVersion::new(3, 12, 1);
    assert_eq!((version.major, version.minor, version.patch), (3, 12, 1));
}

#[test]
fn python_version_words_are_split_at_whitespace() {
    for code in 0..0x3100u32 {
        let Some(c) = char::from_u32(code) else { continue };
        let text = format!("Python{c}3.8.5");
        assert_eq!(
            PythonInterpreterVersion::from_python_output(&text).is_ok(),
            c.is_whitespace(),
            "U+{code:04X}"
        );
        let text = format!("Python 3{c}.8.5");
        assert_eq!(
            PythonInterpreterVersion::from_python_output(&text).is_ok(),
            text.split_whitespace().nth(1).map(|v| v.split('.').count() >= 3
                && v.split('.').take(3).all(|f| f.parse::<u32>().is_ok()))
                == Some(true),
            "U+{code:04X}"
        );
    }
}
