//! Source distributions: archives that hold the sources of a package, its
//! metadata in a file `PKG-INFO`, and its build requirements in a file
//! `pyproject.toml`.

use vstd::prelude::*;
use std::io::Read;
use crate::archive_path::{ends_with, path_ends_with};
use crate::artifact_name::{SDistFilename, SDistFormat};
use crate::core_metadata::{decoded, CoreMetadataData, WheelCoreMetaDataError, WheelCoreMetadata};
use crate::requirement::MAX_BRACKETS;
use crate::text::{count_char, count_of, string_from_utf8, texts};

verus! {

/// A source distribution: its name and the bytes of its archive. The
/// archive is read once: a second lookup needs a fresh value.
#[derive(Debug)]
pub struct SDist {
    name: SDistFilename,
    archive: Vec<u8>,
    consumed: bool,
}

/// One file of an archive.
#[derive(Debug)]
pub struct ArchiveEntry {
    pub path: String,
    pub contents: Vec<u8>,
}

/// The build requirements of a source distribution: the table
/// `build-system` of its `pyproject.toml`.
#[derive(Debug)]
pub struct BuildSystem {
    /// The requirements of the build, each as text.
    pub requirements: Vec<String>,
    pub build_backend: Option<String>,
    pub backend_path: Option<Vec<String>>,
}

/// The mathematical value of a [`BuildSystem`].
pub struct BuildSystemData {
    pub requirements: Seq<Seq<char>>,
    pub build_backend: Option<Seq<char>>,
    pub backend_path: Option<Seq<Seq<char>>>,
}

/// Why a source distribution could not be read.
#[derive(Debug, PartialEq, Eq, Structural)]
pub enum SDistError {
    /// Archives of this format are not read.
    UnsupportedFormat(SDistFormat),
    /// The archive was read before.
    ArchiveConsumed,
    /// The archive is damaged before the place of the file looked for.
    DamagedArchive,
    MissingPackageInfo,
    InvalidPackageInfo(WheelCoreMetaDataError),
    MissingPyProject,
    /// `pyproject.toml` is no UTF-8 text.
    InvalidUtf8,
    /// `pyproject.toml` is not what its format asks for, or holds more `(`
    /// and `\` than are read.
    InvalidPyProject,
    MissingBuildSystem,
}

/// The files of the tar archive `stream`, path and contents, in order up to
/// the end of the archive or to the first place where it is damaged, and
/// whether the end was reached.
pub uninterp spec fn tar_listing(stream: Seq<u8>) -> (Seq<(Seq<char>, Seq<u8>)>, bool);

/// The same of the tar archive that the gzip stream `bytes` holds.
pub uninterp spec fn tar_gz_listing(bytes: Seq<u8>) -> (Seq<(Seq<char>, Seq<u8>)>, bool);

/// The table `build-system` of the `pyproject.toml` with the text
/// `source`: nothing where the text is no `pyproject.toml`, and no table
/// where it holds none.
pub uninterp spec fn build_system_of(source: Seq<char>) -> Option<Option<BuildSystemData>>;

impl ArchiveEntry {
    pub open spec fn view(&self) -> (Seq<char>, Seq<u8>) {
        (self.path@, self.contents@)
    }
}

/// The values of a list of entries.
pub open spec fn entry_values(v: Seq<ArchiveEntry>) -> Seq<(Seq<char>, Seq<u8>)> {
    Seq::new(v.len(), |i: int| v[i]@)
}

impl BuildSystem {
    pub open spec fn view(&self) -> BuildSystemData {
        BuildSystemData {
            requirements: texts(self.requirements@),
            build_backend: match self.build_backend {
                Some(b) => Some(b@),
                None => None,
            },
            backend_path: match self.backend_path {
                Some(p) => Some(texts(p@)),
                None => None,
            },
        }
    }
}

/// Whether a `pyproject.toml` is read: it holds no more `(` and `\` than a
/// requirement may hold `(`. The requirements that it holds are written
/// with these, and none of them can then hold more `(` than are read.
pub open spec fn few_escapes_and_brackets(source: Seq<char>) -> bool {
    count_of(source, '(') + count_of(source, '\\') <= MAX_BRACKETS
}

/// The listing of an archive of the given format.
pub open spec fn listing(format: SDistFormat, archive: Seq<u8>) -> (Seq<(Seq<char>, Seq<u8>)>, bool) {
    match format {
        SDistFormat::TarGz => tar_gz_listing(archive),
        _ => tar_listing(archive),
    }
}

/// The contents of the first entry at or after place `i` whose path ends
/// with `name`.
pub open spec fn first_match(entries: Seq<(Seq<char>, Seq<u8>)>, name: Seq<char>, i: int) -> Option<
    Seq<u8>,
>
    decreases entries.len() - i,
{
    if i < 0 || i >= entries.len() {
        None
    } else if path_ends_with(entries[i].0, name) {
        Some(entries[i].1)
    } else {
        first_match(entries, name, i + 1)
    }
}

/// What a lookup of `name` gives in a fresh archive: the contents of the
/// first file whose path ends with `name`; nothing where the archive
/// holds none; an error where it is damaged before one is found, or where
/// its format is not read.
pub open spec fn found(format: SDistFormat, archive: Seq<u8>, name: Seq<char>) -> Result<
    Option<Seq<u8>>,
    SDistError,
> {
    if format == SDistFormat::Zip {
        Err(SDistError::UnsupportedFormat(format))
    } else {
        match first_match(listing(format, archive).0, name, 0) {
            Some(contents) => Ok(Some(contents)),
            None => if listing(format, archive).1 {
                Ok(None)
            } else {
                Err(SDistError::DamagedArchive)
            },
        }
    }
}

/// What the file `PKG-INFO` of a fresh archive holds: its bytes, and the
/// metadata that they denote.
pub open spec fn package_info(format: SDistFormat, archive: Seq<u8>) -> Result<
    (Seq<u8>, CoreMetadataData),
    SDistError,
> {
    match found(format, archive, "PKG-INFO"@) {
        Err(e) => Err(e),
        Ok(None) => Err(SDistError::MissingPackageInfo),
        Ok(Some(bytes)) => match decoded(bytes) {
            Ok(metadata) => Ok((bytes, metadata)),
            Err(e) => Err(SDistError::InvalidPackageInfo(e)),
        },
    }
}

/// The build requirements that the file `pyproject.toml` of a fresh archive
/// holds.
pub open spec fn build_info(format: SDistFormat, archive: Seq<u8>) -> Result<
    BuildSystemData,
    SDistError,
> {
    match found(format, archive, "pyproject.toml"@) {
        Err(e) => Err(e),
        Ok(None) => Err(SDistError::MissingPyProject),
        Ok(Some(bytes)) => if !vstd::utf8::valid_utf8(bytes) {
            Err(SDistError::InvalidUtf8)
        } else if !few_escapes_and_brackets(vstd::utf8::decode_utf8(bytes)) {
            Err(SDistError::InvalidPyProject)
        } else {
            match build_system_of(vstd::utf8::decode_utf8(bytes)) {
                None => Err(SDistError::InvalidPyProject),
                Some(None) => Err(SDistError::MissingBuildSystem),
                Some(Some(b)) => Ok(b),
            }
        },
    }
}

/// The metadata of a fresh archive that can be relied on: what `PKG-INFO`
/// holds, where its metadata version is 2.2 or later.
pub open spec fn reliable_metadata(format: SDistFormat, archive: Seq<u8>) -> Option<
    (Seq<u8>, CoreMetadataData),
> {
    match package_info(format, archive) {
        Ok((bytes, metadata)) => if metadata.metadata_version.pep643() {
            Some((bytes, metadata))
        } else {
            None
        },
        Err(_) => None,
    }
}

fn copy_bytes(v: &Vec<u8>) -> (r: Vec<u8>)
    ensures
        r@ == v@,
{
    let mut out: Vec<u8> = Vec::new();
    let mut i: usize = 0;
    while i < v.len()
        invariant
            i <= v.len(),
            out@ == v@.take(i as int),
        decreases v.len() - i,
    {
        out.push(v[i]);
        assert(out@ =~= v@.take(i + 1));
        i += 1;
    }
    assert(v@.take(v.len() as int) =~= v@);
    out
}

impl SDist {
    /// The format of the archive.
    pub closed spec fn format(&self) -> SDistFormat {
        self.name.format
    }

    /// The bytes of the archive.
    pub closed spec fn archive(&self) -> Seq<u8> {
        self.archive@
    }

    /// Whether the archive was read.
    pub closed spec fn consumed(&self) -> bool {
        self.consumed
    }

    /// A source distribution with the given name, read from `bytes`. Only
    /// tar archives are read, compressed with gzip or not.
    pub fn new(name: SDistFilename, bytes: Vec<u8>) -> (r: Result<SDist, SDistError>)
        ensures
            match r {
                Ok(sdist) => name.format != SDistFormat::Zip && sdist.format() == name.format
                    && sdist.archive() == bytes@ && !sdist.consumed() && *sdist.name_of() == name,
                Err(e) => name.format == SDistFormat::Zip && e == SDistError::UnsupportedFormat(
                    name.format,
                ),
            },
    {
        match name.format {
            SDistFormat::TarGz => Ok(SDist { name, archive: bytes, consumed: false }),
            SDistFormat::Tar => Ok(SDist { name, archive: bytes, consumed: false }),
            SDistFormat::Zip => Err(SDistError::UnsupportedFormat(name.format)),
        }
    }

    pub closed spec fn name_of(&self) -> &SDistFilename {
        &self.name
    }

    /// The name of the source distribution.
    pub fn name(&self) -> (r: &SDistFilename)
        ensures
            r == self.name_of(),
    {
        &self.name
    }

    /// Looks for the first file of the archive whose path ends with `name`
    /// and gives its contents.
    pub fn find_entry(&mut self, name: &str) -> (r: Result<Option<Vec<u8>>, SDistError>)
        ensures
            final(self).consumed(),
            final(self).format() == old(self).format(),
            final(self).archive() == old(self).archive(),
            final(self).name_of() == old(self).name_of(),
            match (
                if old(self).consumed() {
                    Err(SDistError::ArchiveConsumed)
                } else {
                    found(old(self).format(), old(self).archive(), name@)
                }
            ) {
                Ok(Some(contents)) => r matches Ok(Some(v)) && v@ == contents,
                Ok(None) => r matches Ok(None),
                Err(e) => r matches Err(x) && x == e,
            },
    {
        if self.consumed {
            return Err(SDistError::ArchiveConsumed);
        }
        self.consumed = true;
        let (entries, complete) = match self.name.format {
            SDistFormat::TarGz => list_tar_gz(&self.archive),
            SDistFormat::Tar => list_tar(&self.archive),
            SDistFormat::Zip => {
                return Err(SDistError::UnsupportedFormat(self.name.format));
            },
        };
        let ghost all = entry_values(entries@);
        let mut i: usize = 0;
        while i < entries.len()
            invariant
                i <= entries.len(),
                all == entry_values(entries@),
                all == listing(old(self).format(), old(self).archive()).0,
                self.consumed,
                !old(self).consumed(),
                self.archive@ == old(self).archive@,
                self.name == old(self).name,
                self.name.format != SDistFormat::Zip,
                first_match(all, name@, 0) == first_match(all, name@, i as int),
            decreases entries.len() - i,
        {
            if ends_with(entries[i].path.as_str(), name) {
                return Ok(Some(copy_bytes(&entries[i].contents)));
            }
            i += 1;
        }
        if complete {
            Ok(None)
        } else {
            Err(SDistError::DamagedArchive)
        }
    }

    /// Reads the file `PKG-INFO` of the archive: its bytes, and the metadata
    /// that they hold.
    pub fn read_package_info(&mut self) -> (r: Result<(Vec<u8>, WheelCoreMetadata), SDistError>)
        ensures
            final(self).consumed(),
            final(self).format() == old(self).format(),
            final(self).archive() == old(self).archive(),
            match (
                if old(self).consumed() {
                    Err(SDistError::ArchiveConsumed)
                } else {
                    package_info(old(self).format(), old(self).archive())
                }
            ) {
                Ok((bytes, metadata)) => r matches Ok((b, m)) && b@ == bytes && m@ == metadata,
                Err(e) => r matches Err(x) && x == e,
            },
    {
        match self.find_entry("PKG-INFO") {
            Err(e) => Err(e),
            Ok(None) => Err(SDistError::MissingPackageInfo),
            Ok(Some(bytes)) => match WheelCoreMetadata::decode(&bytes) {
                Ok(metadata) => Ok((bytes, metadata)),
                Err(e) => Err(SDistError::InvalidPackageInfo(e)),
            },
        }
    }

    /// Reads the build requirements from the file `pyproject.toml` of the
    /// archive.
    pub fn read_build_info(&mut self) -> (r: Result<BuildSystem, SDistError>)
        ensures
            final(self).consumed(),
            final(self).format() == old(self).format(),
            final(self).archive() == old(self).archive(),
            match (
                if old(self).consumed() {
                    Err(SDistError::ArchiveConsumed)
                } else {
                    build_info(old(self).format(), old(self).archive())
                }
            ) {
                Ok(b) => r matches Ok(x) && x@ == b,
                Err(e) => r matches Err(x) && x == e,
            },
    {
        match self.find_entry("pyproject.toml") {
            Err(e) => Err(e),
            Ok(None) => Err(SDistError::MissingPyProject),
            Ok(Some(bytes)) => match string_from_utf8(&bytes) {
                None => Err(SDistError::InvalidUtf8),
                Some(source) => {
                    let brackets = count_char(source.as_str(), '(');
                    let escapes = count_char(source.as_str(), '\\');
                    if brackets > MAX_BRACKETS || escapes > MAX_BRACKETS - brackets {
                        return Err(SDistError::InvalidPyProject);
                    }
                    match parse_build_system(source.as_str()) {
                        None => Err(SDistError::InvalidPyProject),
                        Some(None) => Err(SDistError::MissingBuildSystem),
                        Some(Some(b)) => Ok(b),
                    }
                },
            },
        }
    }

    /// The metadata of the source distribution, if it can be relied on:
    /// what `PKG-INFO` holds, where its metadata version is 2.2 or later.
    pub fn pep643_metadata(&mut self) -> (r: Option<(Vec<u8>, WheelCoreMetadata)>)
        ensures
            final(self).consumed(),
            final(self).format() == old(self).format(),
            final(self).archive() == old(self).archive(),
            match (
                if old(self).consumed() {
                    None
                } else {
                    reliable_metadata(old(self).format(), old(self).archive())
                }
            ) {
                Some((bytes, metadata)) => r matches Some((b, m)) && b@ == bytes && m@ == metadata,
                None => r is None,
            },
    {
        match self.read_package_info() {
            Ok((bytes, metadata)) => {
                if metadata.metadata_version.implements_pep643() {
                    Some((bytes, metadata))
                } else {
                    None
                }
            },
            Err(_) => None,
        }
    }
}

/// `tar::Archive::entries` on `stream`, then `Entry::path` and
/// `Read::read_to_end` of each entry: path and contents of the entries up to
/// the end of the archive, or to the first of these calls that fails, and
/// whether none failed.
#[verifier::external_body]
fn list_tar(stream: &Vec<u8>) -> (r: (Vec<ArchiveEntry>, bool))
    ensures
        entry_values(r.0@) == tar_listing(stream@).0,
        r.1 == tar_listing(stream@).1,
{
    let mut archive = tar::Archive::new(stream.as_slice());
    let mut out = Vec::new();
    let Ok(entries) = archive.entries() else { return (out, false) };
    for entry in entries {
        let Ok(mut entry) = entry else { return (out, false) };
        let Ok(path) = entry.path().map(|p| p.to_string_lossy().into_owned()) else { return (out, false) };
        let mut contents = Vec::new();
        if entry.read_to_end(&mut contents).is_err() { return (out, false) }
        out.push(ArchiveEntry { path, contents });
    }
    (out, true)
}

/// The same on the stream that `flate2::read::GzDecoder` decodes from
/// `bytes`; a failure of the decoder counts as one of the archive.
#[verifier::external_body]
fn list_tar_gz(bytes: &Vec<u8>) -> (r: (Vec<ArchiveEntry>, bool))
    ensures
        entry_values(r.0@) == tar_gz_listing(bytes@).0,
        r.1 == tar_gz_listing(bytes@).1,
{
    let mut archive = tar::Archive::new(flate2::read::GzDecoder::new(bytes.as_slice()));
    let mut out = Vec::new();
    let Ok(entries) = archive.entries() else { return (out, false) };
    for entry in entries {
        let Ok(mut entry) = entry else { return (out, false) };
        let Ok(path) = entry.path().map(|p| p.to_string_lossy().into_owned()) else { return (out, false) };
        let mut contents = Vec::new();
        if entry.read_to_end(&mut contents).is_err() { return (out, false) }
        out.push(ArchiveEntry { path, contents });
    }
    (out, true)
}

/// `pyproject_toml::PyProjectToml::new`: the table `build-system` of the
/// `pyproject.toml` with the text `source`, each requirement written out by
/// its `to_string`. The requirements of the file are read by a parser that
/// calls itself once more for each `(` that is open in a marker; a `(` of a
/// requirement stands in the file as it is or after a `\`, so the file is
/// given with few of both only.
#[verifier::external_body]
fn parse_build_system(source: &str) -> (r: Option<Option<BuildSystem>>)
    requires
        few_escapes_and_brackets(source@),
    ensures
        match build_system_of(source@) {
            None => r is None,
            Some(None) => r matches Some(None),
            Some(Some(b)) => r matches Some(Some(x)) && x@ == b,
        },
{
    let project = pyproject_toml::PyProjectToml::new(source).ok()?;
    Some(project.build_system.map(|b| BuildSystem {
        requirements: b.requires.iter().map(|r| r.to_string()).collect(),
        build_backend: b.build_backend,
        backend_path: b.backend_path,
    }))
}

} // verus!
