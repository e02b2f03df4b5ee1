use flate2::write::GzEncoder;
use flate2::Compression;
use rattler_installs_packages::artifact_name::{SDistFilename, SDistFormat};
use rattler_installs_packages::package_name::NormalizedPackageName;
use rattler_installs_packages::sdist::{SDist, SDistError};
use std::io::Write;

const RICH_PKG_INFO: &str = "Metadata-Version: 2.1\nName: rich\nVersion: 13.6.0\nSummary: Render rich text\nRequires-Python: >=3.7.0\nRequires-Dist: markdown-it-py (>=2.2.0)\nRequires-Dist: pygments (>=2.13.0,<3.0.0)\nRequires-Dist: typing-extensions (>=4.0.0,<5.0) ; python_version < \"3.9\"\nProvides-Extra: jupyter\n\nRich is a Python library.\n";

const RICH_PYPROJECT: &str = "[tool.poetry]\nname = \"rich\"\nversion = \"13.6.0\"\n\n[build-system]\nrequires = [\"poetry-core>=1.0.0\"]\nbuild-backend = \"poetry.core.masonry.api\"\n";

const FLASK_PKG_INFO: &str = "Metadata-Version: 2.2\nName: fake-flask\nVersion: 3.0.0\nRequires-Dist: Werkzeug>=3.0.0\n";

fn tar_of_bytes(files: &[(&str, &[u8])]) -> Vec<u8> {
    let mut builder = tar::Builder::new(Vec::new());
    for (path, contents) in files {
        let mut header = tar::Header::new_gnu();
        header.set_size(contents.len() as u64);
        header.set_mode(0o644);
        header.set_cksum();
        builder.append_data(&mut header, path, *contents).unwrap();
    }
    builder.into_inner().unwrap()
}

fn tar_of(files: &[(&str, &str)]) -> Vec<u8> {
    let files: Vec<(&str, &[u8])> = files.iter().map(|(p, c)| (*p, c.as_bytes())).collect();
    tar_of_bytes(&files)
}

fn gzip_of(bytes: &[u8]) -> Vec<u8> {
    let mut encoder = GzEncoder::new(Vec::new(), Compression::default());
    encoder.write_all(bytes).unwrap();
    encoder.finish().unwrap()
}

fn rich_archive() -> Vec<u8> {
    gzip_of(&tar_of(&[
        ("rich-13.6.0/README.md", "# Rich\n"),
        ("rich-13.6.0/pyproject.toml", RICH_PYPROJECT),
        ("rich-13.6.0/rich/__init__.py", "\n"),
        ("rich-13.6.0/PKG-INFO", RICH_PKG_INFO),
    ]))
}

fn flask_archive() -> Vec<u8> {
    gzip_of(&tar_of(&[
        ("fake-flask-3.0.0/src/flask/__init__.py", "\n"),
        ("fake-flask-3.0.0/PKG-INFO", FLASK_PKG_INFO),
        ("fake-flask-3.0.0/src/PKG-INFO", "Metadata-Version: 1.0\nName: other\nVersion: 1\n"),
    ]))
}

fn open(file: &str, package: &str, bytes: Vec<u8>) -> SDist {
    let name = SDistFilename::from_filename(file, &NormalizedPackageName::new(package)).unwrap();
    SDist::new(name, bytes).unwrap()
}

#[test]
pub fn reject_rich_metadata() {
    let mut sdist = open("rich-13.6.0.tar.gz", "rich", rich_archive());
    // Rich has an old metadata version
    let metadata = sdist.pep643_metadata();
    assert!(metadata.is_none());
}

#[test]
pub fn correct_metadata_fake_flask() {
    let mut sdist = open("fake-flask-3.0.0.tar.gz", "fake-flask", flask_archive());
    // Should not fail as it is a valid PKG-INFO
    // and considered reliable
    let (bytes, metadata) = sdist.pep643_metadata().unwrap();
    assert_eq!(bytes, FLASK_PKG_INFO.as_bytes());
    assert_eq!(metadata.name.as_str(), "fake-flask");
    assert_eq!(metadata.version.as_str(), "3.0.0");
}

#[test]
pub fn read_rich_build_info() {
    let mut sdist = open("rich-13.6.0.tar.gz", "rich", rich_archive());
    let build_system = sdist.read_build_info().unwrap();
    assert_eq!(build_system.requirements, vec!["poetry-core >=1.0.0".to_string()]);
    assert_eq!(build_system.build_backend, Some("poetry.core.masonry.api".to_string()));
    assert_eq!(build_system.backend_path, None);
}

#[test]
fn sdist_reads_package_info() {
    let mut sdist = open("rich-13.6.0.tar.gz", "rich", rich_archive());
    assert_eq!(sdist.name().distribution, "rich");
    let (bytes, metadata) = sdist.read_package_info().unwrap();
    assert_eq!(bytes, RICH_PKG_INFO.as_bytes());
    assert_eq!(metadata.name.as_str(), "rich");
    assert_eq!(metadata.requires_dist.len(), 3);
    assert_eq!(metadata.requires_dist[1].name.as_str(), "pygments");
}

#[test]
fn sdist_archive_is_read_once() {
    let mut sdist = open("rich-13.6.0.tar.gz", "rich", rich_archive());
    assert!(sdist.read_package_info().is_ok());
    assert_eq!(sdist.read_build_info().unwrap_err(), SDistError::ArchiveConsumed);
    assert_eq!(sdist.find_entry("README.md").unwrap_err(), SDistError::ArchiveConsumed);
    assert!(sdist.pep643_metadata().is_none());
}

#[test]
fn sdist_first_entry_with_the_path_wins() {
    let mut sdist = open(
        "a-1.tar",
        "a",
        tar_of(&[("a-1/xPKG-INFO", "no"), ("a-1/sub/PKG-INFO", "first"), ("a-1/PKG-INFO", "second")]),
    );
    assert_eq!(sdist.find_entry("PKG-INFO").unwrap(), Some(b"first".to_vec()));
    let mut sdist = open("a-1.tar", "a", tar_of(&[("a-1/sub/PKG-INFO", "first")]));
    assert_eq!(sdist.find_entry("sub/PKG-INFO").unwrap(), Some(b"first".to_vec()));
    let mut sdist = open("a-1.tar", "a", tar_of(&[("a-1/sub/PKG-INFO", "first")]));
    assert_eq!(sdist.find_entry("pyproject.toml").unwrap(), None);
}

#[test]
fn sdist_zip_is_not_supported() {
    let name = SDistFilename::from_filename("a-1.zip", &NormalizedPackageName::new("a")).unwrap();
    assert_eq!(
        SDist::new(name, Vec::new()).unwrap_err(),
        SDistError::UnsupportedFormat(SDistFormat::Zip)
    );
}

#[test]
fn sdist_errors() {
    let mut sdist = open("a-1.tar", "a", tar_of(&[("a-1/README", "x")]));
    assert_eq!(sdist.read_package_info().unwrap_err(), SDistError::MissingPackageInfo);
    let mut sdist = open("a-1.tar", "a", tar_of(&[("a-1/README", "x")]));
    assert_eq!(sdist.read_build_info().unwrap_err(), SDistError::MissingPyProject);
    let mut sdist = open("a-1.tar", "a", tar_of(&[("a-1/pyproject.toml", "[project]\nname = \"a\"\n")]));
    assert_eq!(sdist.read_build_info().unwrap_err(), SDistError::MissingBuildSystem);
    let mut sdist = open("a-1.tar", "a", tar_of(&[("a-1/pyproject.toml", "not toml = = =")]));
    assert_eq!(sdist.read_build_info().unwrap_err(), SDistError::InvalidPyProject);
    let mut sdist =
        open("a-1.tar", "a", tar_of_bytes(&[("a-1/pyproject.toml", &[0x5b, 0xff, 0xfe, 0x5d])]));
    assert_eq!(sdist.read_build_info().unwrap_err(), SDistError::InvalidUtf8);
    let mut sdist = open("a-1.tar", "a", tar_of(&[("a-1/PKG-INFO", "Name: a\n")]));
    assert!(matches!(sdist.read_package_info().unwrap_err(), SDistError::InvalidPackageInfo(_)));
    let mut damaged = rich_archive();
    damaged.truncate(40);
    let mut sdist = open("rich-13.6.0.tar.gz", "rich", damaged);
    assert_eq!(sdist.find_entry("PKG-INFO").unwrap_err(), SDistError::DamagedArchive);
    let mut sdist = open("a-1.tar.gz", "a", b"this is no gzip stream".to_vec());
    assert_eq!(sdist.read_package_info().unwrap_err(), SDistError::DamagedArchive);
    let mut whole = tar_of(&[("a-1/PKG-INFO", FLASK_PKG_INFO), ("a-1/z", "zzzz")]);
    whole.truncate(512 + 512 + 512 + 2);
    let mut sdist = open("a-1.tar", "a", whole);
    assert!(sdist.read_package_info().is_ok());
}

fn pyproject_requiring(open: &str, close: &str) -> String {
    format!("[build-system]\nrequires = [\"a ; {open}python_version > '3'{close}\"]\n")
}

#[test]
fn pyproject_with_too_many_brackets_is_not_read() {
    let nested = |depth: usize| pyproject_requiring(&"(".repeat(depth), &")".repeat(depth));
    let mut sdist = open("a-1.tar", "a", tar_of(&[("a-1/pyproject.toml", &nested(64))]));
    assert_eq!(sdist.read_build_info().unwrap().requirements.len(), 1);
    let mut sdist = open("a-1.tar", "a", tar_of(&[("a-1/pyproject.toml", &nested(65))]));
    assert_eq!(sdist.read_build_info().unwrap_err(), SDistError::InvalidPyProject);
    let mut sdist = open("a-1.tar", "a", tar_of(&[("a-1/pyproject.toml", &nested(100_000))]));
    assert_eq!(sdist.read_build_info().unwrap_err(), SDistError::InvalidPyProject);
    let escaped = pyproject_requiring(&"\\u0028".repeat(65), &")".repeat(65));
    let mut sdist = open("a-1.tar", "a", tar_of(&[("a-1/pyproject.toml", &escaped)]));
    assert_eq!(sdist.read_build_info().unwrap_err(), SDistError::InvalidPyProject);
    let mixed = format!("{}{}", "\\u0028".repeat(32), "(".repeat(32));
    let escaped = pyproject_requiring(&mixed, &")".repeat(64));
    let mut sdist = open("a-1.tar", "a", tar_of(&[("a-1/pyproject.toml", &escaped)]));
    assert_eq!(sdist.read_build_info().unwrap().requirements.len(), 1);
}
