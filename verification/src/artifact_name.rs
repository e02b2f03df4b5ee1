//! Names of artifacts: the files that a package index offers for a version
//! of a package.

use vstd::prelude::*;
use vstd::string::StringExecFns;
use crate::package_name::{is_separator, lower, normalize_chars, normalized, NormalizedPackageName};
use crate::text::{
    chars_of, lacks, lemma_parts_cons, lemma_parts_one, parts, same_chars, split_on,
    string_of_range,
};
use crate::version::{parsed_version, Version, VersionData};

verus! {

/// The archive format of a source distribution.
#[derive(Clone, Copy, Debug, PartialEq, Eq, Structural)]
pub enum SDistFormat {
    TarGz,
    Tar,
    Zip,
}

/// The name of a source distribution, such as `rich-13.6.0.tar.gz`.
#[derive(Debug)]
pub struct SDistFilename {
    pub distribution: String,
    pub version: Version,
    pub format: SDistFormat,
}

/// The name of a wheel, such as `rich-13.6.0-py3-none-any.whl`.
#[derive(Debug)]
pub struct WheelFilename {
    pub distribution: String,
    pub version: Version,
    pub build_tag: Option<String>,
    pub python_tag: String,
    pub abi_tag: String,
    pub platform_tag: String,
}

/// The name of an artifact.
#[derive(Debug)]
pub enum ArtifactName {
    Wheel(WheelFilename),
    SDist(SDistFilename),
}

/// Why a file name is no name of an artifact.
#[derive(Debug, PartialEq, Eq, Structural)]
pub enum ParseArtifactNameError {
    /// The name ends with none of `.whl`, `.tar.gz`, `.tar` and `.zip`, or
    /// not with one that was asked for.
    UnknownFormat,
    /// No part of the name before a `-` is the expected package.
    InvalidName,
    /// What follows the package is no version.
    InvalidVersion,
    /// The name of a wheel does not have five or six parts, or one of its
    /// tags is empty.
    InvalidWheelName,
}

/// The mathematical value of an [`SDistFilename`].
pub struct SDistData {
    pub distribution: Seq<char>,
    pub version: VersionData,
    pub version_text: Seq<char>,
    pub format: SDistFormat,
}

/// The mathematical value of a [`WheelFilename`].
pub struct WheelData {
    pub distribution: Seq<char>,
    pub version: VersionData,
    pub version_text: Seq<char>,
    pub build_tag: Option<Seq<char>>,
    pub python_tag: Seq<char>,
    pub abi_tag: Seq<char>,
    pub platform_tag: Seq<char>,
}

/// The mathematical value of an [`ArtifactName`].
pub enum ArtifactNameData {
    Wheel(WheelData),
    SDist(SDistData),
}

/// What the end of a file name says of the artifact.
pub enum Extension {
    Wheel,
    SDist(SDistFormat),
}

pub open spec fn whl_ext() -> Seq<char> {
    seq!['.', 'w', 'h', 'l']
}

pub open spec fn tar_gz_ext() -> Seq<char> {
    seq!['.', 't', 'a', 'r', '.', 'g', 'z']
}

pub open spec fn tar_ext() -> Seq<char> {
    seq!['.', 't', 'a', 'r']
}

pub open spec fn zip_ext() -> Seq<char> {
    seq!['.', 'z', 'i', 'p']
}

/// The extension of a source distribution of the given format.
pub open spec fn sdist_ext(format: SDistFormat) -> Seq<char> {
    match format {
        SDistFormat::TarGz => tar_gz_ext(),
        SDistFormat::Tar => tar_ext(),
        SDistFormat::Zip => zip_ext(),
    }
}

/// Whether `s` ends with `suffix`.
pub open spec fn has_suffix(s: Seq<char>, suffix: Seq<char>) -> bool {
    s.len() >= suffix.len() && s.subrange(s.len() - suffix.len(), s.len() as int) == suffix
}

/// The kind of artifact that the end of `name` tells, and `name` without
/// that end. The ends are tried in the order `.whl`, `.tar.gz`, `.tar`,
/// `.zip`.
pub open spec fn split_extension(name: Seq<char>) -> Option<(Extension, Seq<char>)> {
    if has_suffix(name, whl_ext()) {
        Some((Extension::Wheel, name.take(name.len() - 4)))
    } else if has_suffix(name, tar_gz_ext()) {
        Some((Extension::SDist(SDistFormat::TarGz), name.take(name.len() - 7)))
    } else if has_suffix(name, tar_ext()) {
        Some((Extension::SDist(SDistFormat::Tar), name.take(name.len() - 4)))
    } else if has_suffix(name, zip_ext()) {
        Some((Extension::SDist(SDistFormat::Zip), name.take(name.len() - 4)))
    } else {
        None
    }
}

/// Whether the package may end at place `k` of `stem`: a `-` stands there,
/// and what stands before it is the expected package, in normal form.
pub open spec fn is_split(stem: Seq<char>, expected: Seq<char>, k: int) -> bool {
    0 <= k < stem.len() && stem[k] == '-' && normalized(stem.take(k)) == expected
}

/// The last place before `k` at which the package may end, or -1.
pub open spec fn last_split(stem: Seq<char>, expected: Seq<char>, k: int) -> int
    decreases k,
{
    if k <= 0 {
        -1
    } else if is_split(stem, expected, k - 1) {
        k - 1
    } else {
        last_split(stem, expected, k - 1)
    }
}

/// The parts of `s` between its `-`.
pub open spec fn dash_parts(s: Seq<char>) -> Seq<Seq<char>> {
    parts(s, '-')
}

/// The name of a source distribution of the given format whose file name
/// is `stem` and the extension, for the package `expected`.
pub open spec fn sdist_of_stem(stem: Seq<char>, format: SDistFormat, expected: Seq<char>) -> Result<
    SDistData,
    ParseArtifactNameError,
> {
    let at = last_split(stem, expected, stem.len() as int);
    let version_text = stem.subrange(at + 1, stem.len() as int);
    if at < 0 {
        Err(ParseArtifactNameError::InvalidName)
    } else if parsed_version(version_text) is None {
        Err(ParseArtifactNameError::InvalidVersion)
    } else {
        Ok(
            SDistData {
                distribution: stem.take(at),
                version: parsed_version(version_text)->0,
                version_text,
                format,
            },
        )
    }
}

/// The name of a source distribution that `name` is, for the package
/// `expected`: the package, a `-`, the version, and the extension of an
/// archive. The package is the longest part of the name before a `-` that
/// is the expected package.
pub open spec fn parsed_sdist(name: Seq<char>, expected: Seq<char>) -> Result<
    SDistData,
    ParseArtifactNameError,
> {
    match split_extension(name) {
        Some((Extension::SDist(format), stem)) => sdist_of_stem(stem, format, expected),
        _ => Err(ParseArtifactNameError::UnknownFormat),
    }
}

/// The wheel whose parts after the package are `parts`: the version, the
/// build tag if there are five parts, and three tags, none of them empty.
pub open spec fn wheel_of_parts(distribution: Seq<char>, parts: Seq<Seq<char>>) -> Result<
    WheelData,
    ParseArtifactNameError,
> {
    let tags = parts.len() - 3;
    if !(parts.len() == 4 || parts.len() == 5) || parts[tags].len() == 0 || parts[tags + 1].len()
        == 0 || parts[tags + 2].len() == 0 || (parts.len() == 5 && parts[1].len() == 0) {
        Err(ParseArtifactNameError::InvalidWheelName)
    } else if parsed_version(parts[0]) is None {
        Err(ParseArtifactNameError::InvalidVersion)
    } else {
        Ok(
            WheelData {
                distribution,
                version: parsed_version(parts[0])->0,
                version_text: parts[0],
                build_tag: if parts.len() == 5 {
                    Some(parts[1])
                } else {
                    None
                },
                python_tag: parts[tags],
                abi_tag: parts[tags + 1],
                platform_tag: parts[tags + 2],
            },
        )
    }
}

/// The name of a wheel whose file name is `stem` and `.whl`, for the
/// package `expected`. Where no part of the name is the package, the name
/// is that of another package if it has five or six parts, else that of no
/// wheel.
pub open spec fn wheel_of_stem(stem: Seq<char>, expected: Seq<char>) -> Result<
    WheelData,
    ParseArtifactNameError,
> {
    let at = last_split(stem, expected, stem.len() as int);
    if at >= 0 {
        wheel_of_parts(stem.take(at), dash_parts(stem.subrange(at + 1, stem.len() as int)))
    } else if dash_parts(stem).len() == 5 || dash_parts(stem).len() == 6 {
        Err(ParseArtifactNameError::InvalidName)
    } else {
        Err(ParseArtifactNameError::InvalidWheelName)
    }
}

/// The name of a wheel that `name` is, for the package `expected`: the
/// package, the version, the build tag if there is one, the python tag, the
/// abi tag and the platform tag, with a `-` between them, and `.whl`. The
/// package is the longest part of the name before a `-` that is the
/// expected package.
pub open spec fn parsed_wheel(name: Seq<char>, expected: Seq<char>) -> Result<
    WheelData,
    ParseArtifactNameError,
> {
    match split_extension(name) {
        Some((Extension::Wheel, stem)) => wheel_of_stem(stem, expected),
        _ => Err(ParseArtifactNameError::UnknownFormat),
    }
}

/// The name of an artifact that `name` is, for the package `expected`.
pub open spec fn parsed_artifact(name: Seq<char>, expected: Seq<char>) -> Result<
    ArtifactNameData,
    ParseArtifactNameError,
> {
    match split_extension(name) {
        Some((Extension::Wheel, _)) => match parsed_wheel(name, expected) {
            Ok(w) => Ok(ArtifactNameData::Wheel(w)),
            Err(e) => Err(e),
        },
        Some((Extension::SDist(_), _)) => match parsed_sdist(name, expected) {
            Ok(s) => Ok(ArtifactNameData::SDist(s)),
            Err(e) => Err(e),
        },
        None => Err(ParseArtifactNameError::UnknownFormat),
    }
}

/// The file name of a source distribution.
pub open spec fn sdist_filename(d: SDistData) -> Seq<char> {
    d.distribution + seq!['-'] + d.version_text + sdist_ext(d.format)
}

/// The file name of a wheel.
pub open spec fn wheel_filename(d: WheelData) -> Seq<char> {
    d.distribution + seq!['-'] + d.version_text + (match d.build_tag {
        Some(b) => seq!['-'] + b,
        None => Seq::empty(),
    }) + seq!['-'] + d.python_tag + seq!['-'] + d.abi_tag + seq!['-'] + d.platform_tag + whl_ext()
}

/// The file name of an artifact.
pub open spec fn artifact_filename(d: ArtifactNameData) -> Seq<char> {
    match d {
        ArtifactNameData::Wheel(w) => wheel_filename(w),
        ArtifactNameData::SDist(s) => sdist_filename(s),
    }
}

/// Whether `s` holds no `-`.
pub open spec fn no_dash(s: Seq<char>) -> bool {
    lacks(s, '-')
}

/// Whether `s` is a tag: it is not empty and holds no `-`.
pub open spec fn is_tag(s: Seq<char>) -> bool {
    s.len() > 0 && no_dash(s)
}

/// Whether the name of a source distribution is well formed: the text of
/// its version holds no `-` and denotes its version.
pub open spec fn sdist_wf(d: SDistData) -> bool {
    &&& no_dash(d.version_text)
    &&& parsed_version(d.version_text) == Some(d.version)
}

/// Whether the name of a wheel is well formed: the text of its version
/// holds no `-`, holds more than separators and denotes its version; and
/// its tags are tags.
pub open spec fn wheel_wf(d: WheelData) -> bool {
    &&& no_dash(d.version_text)
    &&& exists|i: int| 0 <= i < d.version_text.len() && !is_separator(d.version_text[i])
    &&& parsed_version(d.version_text) == Some(d.version)
    &&& d.build_tag matches Some(b) ==> is_tag(b)
    &&& is_tag(d.python_tag)
    &&& is_tag(d.abi_tag)
    &&& is_tag(d.platform_tag)
}

/// Whether the name of an artifact is well formed.
pub open spec fn artifact_wf(d: ArtifactNameData) -> bool {
    match d {
        ArtifactNameData::Wheel(w) => wheel_wf(w),
        ArtifactNameData::SDist(s) => sdist_wf(s),
    }
}

/// The package of an artifact, as its name gives it.
pub open spec fn distribution_of(d: ArtifactNameData) -> Seq<char> {
    match d {
        ArtifactNameData::Wheel(w) => w.distribution,
        ArtifactNameData::SDist(s) => s.distribution,
    }
}

/// The number of characters of `s` that are no separators.
pub open spec fn solid(s: Seq<char>) -> nat
    decreases s.len(),
{
    if s.len() == 0 {
        0
    } else if is_separator(s.last()) {
        solid(s.drop_last())
    } else {
        solid(s.drop_last()) + 1
    }
}

proof fn lemma_solid_concat(a: Seq<char>, b: Seq<char>)
    ensures
        solid(a + b) == solid(a) + solid(b),
    decreases b.len(),
{
    if b.len() == 0 {
        assert(a + b =~= a);
    } else {
        assert((a + b).drop_last() =~= a + b.drop_last());
        assert((a + b).last() == b.last());
        lemma_solid_concat(a, b.drop_last());
    }
}

proof fn lemma_solid_normalized(s: Seq<char>)
    ensures
        solid(normalized(s)) == solid(s),
    decreases s.len(),
{
    if s.len() > 0 {
        lemma_solid_normalized(s.drop_last());
        let rest = normalized(s.drop_last());
        if !is_separator(s.last()) {
            let c = lower(s.last());
            assert(!is_separator(c));
            assert(rest.push(c).drop_last() =~= rest);
            assert(rest.push(c).last() == c);
        } else if !(s.len() >= 2 && is_separator(s[s.len() - 2])) {
            assert(rest.push('-').drop_last() =~= rest);
            assert(rest.push('-').last() == '-');
        }
    }
}

proof fn lemma_solid_positive(s: Seq<char>, i: int)
    requires
        0 <= i < s.len(),
        !is_separator(s[i]),
    ensures
        solid(s) > 0,
    decreases s.len(),
{
    if i < s.len() - 1 {
        assert(s.drop_last()[i] == s[i]);
        lemma_solid_positive(s.drop_last(), i);
    }
}

proof fn lemma_last_split(stem: Seq<char>, expected: Seq<char>, k: int, at: int)
    requires
        is_split(stem, expected, at),
        at < k <= stem.len(),
        forall|j: int| at < j < k ==> !is_split(stem, expected, j),
    ensures
        last_split(stem, expected, k) == at,
    decreases k,
{
    if k - 1 > at {
        lemma_last_split(stem, expected, k - 1, at);
    }
}

/// A text without `-` is its own one part.
proof fn lemma_dash_parts_one(a: Seq<char>)
    requires
        no_dash(a),
    ensures
        dash_parts(a) == seq![a],
{
    lemma_parts_one(a, '-');
}

/// The parts of a text without `-`, a `-` and a rest are the text and the
/// parts of the rest.
proof fn lemma_dash_parts_cons(a: Seq<char>, b: Seq<char>)
    requires
        no_dash(a),
    ensures
        dash_parts(a + seq!['-'] + b) == seq![a] + dash_parts(b),
{
    lemma_parts_cons(a, '-', b);
}

proof fn lemma_extension(stem: Seq<char>, format: SDistFormat)
    ensures
        split_extension(stem + sdist_ext(format)) == Some((Extension::SDist(format), stem)),
        split_extension(stem + whl_ext()) == Some((Extension::Wheel, stem)),
{
    let wheel = stem + whl_ext();
    assert(wheel.subrange(wheel.len() - 4, wheel.len() as int) =~= whl_ext());
    assert(wheel.take(wheel.len() - 4) =~= stem);
    let name = stem + sdist_ext(format);
    let n = name.len() as int;
    assert(name.last() == sdist_ext(format).last());
    assert(name.take(n - sdist_ext(format).len()) =~= stem);
    assert(name.subrange(n - sdist_ext(format).len(), n) =~= sdist_ext(format));
    if n >= 4 {
        assert(name.subrange(n - 4, n)[3] == name.last());
    }
    if n >= 7 {
        assert(name.subrange(n - 7, n)[6] == name.last());
    }
}

/// To read the file name of a well-formed source distribution, for the
/// package that it names, gives the source distribution back.
pub proof fn lemma_sdist_round_trip(d: SDistData)
    requires
        sdist_wf(d),
    ensures
        parsed_sdist(sdist_filename(d), normalized(d.distribution)) == Ok::<
            SDistData,
            ParseArtifactNameError,
        >(d),
{
    let expected = normalized(d.distribution);
    let stem = d.distribution + seq!['-'] + d.version_text;
    let at = d.distribution.len() as int;
    lemma_extension(stem, d.format);
    assert(sdist_filename(d) =~= stem + sdist_ext(d.format));
    assert(stem.take(at) =~= d.distribution);
    assert(stem[at] == '-');
    assert forall|j: int| at < j < stem.len() implies !is_split(stem, expected, j) by {
        assert(stem[j] == d.version_text[j - at - 1]);
    }
    lemma_last_split(stem, expected, stem.len() as int, at);
    assert(stem.subrange(at + 1, stem.len() as int) =~= d.version_text);
}

/// The tags of a wheel with a `-` between them.
pub open spec fn wheel_tags(d: WheelData) -> Seq<char> {
    d.python_tag + seq!['-'] + d.abi_tag + seq!['-'] + d.platform_tag
}

/// What follows the package and its `-` in the file name of a wheel,
/// without the extension.
pub open spec fn wheel_rest(d: WheelData) -> Seq<char> {
    d.version_text + seq!['-'] + (match d.build_tag {
        Some(b) => b + seq!['-'] + wheel_tags(d),
        None => wheel_tags(d),
    })
}

/// The parts that the file name of a wheel has after the package.
pub open spec fn wheel_parts(d: WheelData) -> Seq<Seq<char>> {
    match d.build_tag {
        Some(b) => seq![d.version_text, b, d.python_tag, d.abi_tag, d.platform_tag],
        None => seq![d.version_text, d.python_tag, d.abi_tag, d.platform_tag],
    }
}

proof fn lemma_wheel_parts(d: WheelData)
    requires
        wheel_wf(d),
    ensures
        dash_parts(wheel_rest(d)) == wheel_parts(d),
{
    let dash = seq!['-'];
    let tags = wheel_tags(d);
    lemma_dash_parts_one(d.platform_tag);
    lemma_dash_parts_cons(d.abi_tag, d.platform_tag);
    lemma_dash_parts_cons(d.python_tag, d.abi_tag + dash + d.platform_tag);
    assert(tags =~= d.python_tag + dash + (d.abi_tag + dash + d.platform_tag));
    assert(dash_parts(tags) =~= seq![d.python_tag, d.abi_tag, d.platform_tag]);
    match d.build_tag {
        Some(b) => {
            lemma_dash_parts_cons(b, tags);
            lemma_dash_parts_cons(d.version_text, b + dash + tags);
            assert(dash_parts(b + dash + tags) =~= seq![
                b,
                d.python_tag,
                d.abi_tag,
                d.platform_tag,
            ]);
            assert(dash_parts(wheel_rest(d)) =~= wheel_parts(d));
        },
        None => {
            lemma_dash_parts_cons(d.version_text, tags);
            assert(dash_parts(wheel_rest(d)) =~= wheel_parts(d));
        },
    }
}

/// After the package, its `-` and the version, no part of the name is the
/// package again.
proof fn lemma_no_later_split(distribution: Seq<char>, version_text: Seq<char>, rest: Seq<char>, j: int)
    requires
        no_dash(version_text),
        exists|i: int| 0 <= i < version_text.len() && !is_separator(version_text[i]),
        rest.len() >= version_text.len(),
        rest.take(version_text.len() as int) == version_text,
        distribution.len() < j < distribution.len() + 1 + rest.len(),
    ensures
        !is_split(distribution + seq!['-'] + rest, normalized(distribution), j),
{
    let dash = seq!['-'];
    let stem = distribution + dash + rest;
    let at = distribution.len() as int;
    if stem[j] == '-' {
        let x = rest.take(j - at - 1);
        assert(stem.take(j) =~= distribution + (dash + x));
        assert(j - at - 1 >= version_text.len()) by {
            if j - at - 1 < version_text.len() {
                assert(stem[j] == rest[j - at - 1]);
                assert(rest.take(version_text.len() as int)[j - at - 1] == rest[j - at - 1]);
            }
        }
        let y = x.skip(version_text.len() as int);
        assert(x =~= version_text + y) by {
            assert forall|i: int| 0 <= i < version_text.len() implies x[i] == version_text[i] by {
                assert(rest.take(version_text.len() as int)[i] == rest[i]);
            }
        }
        let i = choose|i: int| 0 <= i < version_text.len() && !is_separator(version_text[i]);
        lemma_solid_positive(version_text, i);
        lemma_solid_concat(version_text, y);
        lemma_solid_concat(dash, x);
        lemma_solid_concat(distribution, dash + x);
        lemma_solid_normalized(stem.take(j));
        lemma_solid_normalized(distribution);
    }
}

proof fn lemma_wheel_split(d: WheelData)
    requires
        wheel_wf(d),
    ensures
        last_split(
            d.distribution + seq!['-'] + wheel_rest(d),
            normalized(d.distribution),
            (d.distribution + seq!['-'] + wheel_rest(d)).len() as int,
        ) == d.distribution.len(),
{
    let expected = normalized(d.distribution);
    let rest = wheel_rest(d);
    let stem = d.distribution + seq!['-'] + rest;
    let at = d.distribution.len() as int;
    assert(stem.take(at) =~= d.distribution);
    assert(stem[at] == '-');
    assert(rest.take(d.version_text.len() as int) =~= d.version_text);
    assert forall|j: int| at < j < stem.len() implies !is_split(stem, expected, j) by {
        lemma_no_later_split(d.distribution, d.version_text, rest, j);
    }
    lemma_last_split(stem, expected, stem.len() as int, at);
}

proof fn lemma_wheel_of_parts(d: WheelData)
    requires
        wheel_wf(d),
    ensures
        wheel_of_parts(d.distribution, wheel_parts(d)) == Ok::<WheelData, ParseArtifactNameError>(d),
{
}

proof fn lemma_wheel_of_stem(d: WheelData)
    requires
        wheel_wf(d),
    ensures
        wheel_of_stem(d.distribution + seq!['-'] + wheel_rest(d), normalized(d.distribution))
            == Ok::<WheelData, ParseArtifactNameError>(d),
{
    let rest = wheel_rest(d);
    let stem = d.distribution + seq!['-'] + rest;
    let at = d.distribution.len() as int;
    lemma_wheel_split(d);
    lemma_wheel_parts(d);
    lemma_wheel_of_parts(d);
    assert(stem.take(at) =~= d.distribution);
    assert(stem.subrange(at + 1, stem.len() as int) =~= rest);
}

/// To read the file name of a well-formed wheel, for the package that it
/// names, gives the wheel back.
pub proof fn lemma_wheel_round_trip(d: WheelData)
    requires
        wheel_wf(d),
    ensures
        parsed_wheel(wheel_filename(d), normalized(d.distribution)) == Ok::<
            WheelData,
            ParseArtifactNameError,
        >(d),
{
    let stem = d.distribution + seq!['-'] + wheel_rest(d);
    lemma_extension(stem, SDistFormat::Tar);
    assert(wheel_filename(d) =~= stem + whl_ext());
    lemma_wheel_of_stem(d);
}

/// To read the file name of a well-formed artifact, for the package that it
/// names, gives the artifact back.
pub proof fn lemma_artifact_round_trip(d: ArtifactNameData)
    requires
        artifact_wf(d),
    ensures
        parsed_artifact(artifact_filename(d), normalized(distribution_of(d))) == Ok::<
            ArtifactNameData,
            ParseArtifactNameError,
        >(d),
{
    match d {
        ArtifactNameData::Wheel(w) => {
            lemma_wheel_round_trip(w);
        },
        ArtifactNameData::SDist(s) => {
            lemma_sdist_round_trip(s);
        },
    }
}

fn ends_with_chars(s: &Vec<char>, suffix: &Vec<char>) -> (r: bool)
    ensures
        r == has_suffix(s@, suffix@),
{
    if s.len() < suffix.len() {
        return false;
    }
    let start = s.len() - suffix.len();
    let ghost tail = s@.subrange(start as int, s.len() as int);
    let mut i: usize = 0;
    while i < suffix.len()
        invariant
            i <= suffix.len(),
            start + suffix.len() == s.len(),
            tail == s@.subrange(start as int, s.len() as int),
            forall|j: int| 0 <= j < i ==> tail[j] == suffix@[j],
        decreases suffix.len() - i,
    {
        assert(tail[i as int] == s@[start + i]);
        if s[start + i] != suffix[i] {
            return false;
        }
        i += 1;
    }
    assert(tail =~= suffix@);
    true
}

/// The kind of artifact that the end of `s` tells, and the length of `s`
/// without that end.
fn split_extension_exec(s: &Vec<char>) -> (r: Option<(Option<SDistFormat>, usize)>)
    ensures
        match split_extension(s@) {
            Some((Extension::Wheel, stem)) => r == Some((None::<SDistFormat>, stem.len() as usize))
                && stem == s@.take(stem.len() as int) && stem.len() <= s@.len(),
            Some((Extension::SDist(format), stem)) => r == Some(
                (Some(format), stem.len() as usize),
            ) && stem == s@.take(stem.len() as int) && stem.len() <= s@.len(),
            None => r is None,
        },
{
    let whl = vec!['.', 'w', 'h', 'l'];
    let tar_gz = vec!['.', 't', 'a', 'r', '.', 'g', 'z'];
    let tar = vec!['.', 't', 'a', 'r'];
    let zip = vec!['.', 'z', 'i', 'p'];
    assert(whl@ =~= whl_ext());
    assert(tar_gz@ =~= tar_gz_ext());
    assert(tar@ =~= tar_ext());
    assert(zip@ =~= zip_ext());
    if ends_with_chars(s, &whl) {
        Some((None, s.len() - 4))
    } else if ends_with_chars(s, &tar_gz) {
        Some((Some(SDistFormat::TarGz), s.len() - 7))
    } else if ends_with_chars(s, &tar) {
        Some((Some(SDistFormat::Tar), s.len() - 4))
    } else if ends_with_chars(s, &zip) {
        Some((Some(SDistFormat::Zip), s.len() - 4))
    } else {
        None
    }
}

/// The last place of `s[..stem]` at which the package may end.
fn find_split(s: &Vec<char>, stem: usize, expected: &Vec<char>) -> (r: Option<usize>)
    requires
        stem <= s.len(),
    ensures
        match r {
            Some(at) => at == last_split(s@.take(stem as int), expected@, stem as int) && at < stem,
            None => last_split(s@.take(stem as int), expected@, stem as int) < 0,
        },
{
    let ghost t = s@.take(stem as int);
    let mut k: usize = stem;
    while k > 0
        invariant
            k <= stem <= s.len(),
            t == s@.take(stem as int),
            last_split(t, expected@, stem as int) == last_split(t, expected@, k as int),
        decreases k,
    {
        k -= 1;
        if s[k] == '-' {
            let norm = normalize_chars(s, k);
            assert(t.take(k as int) =~= s@.take(k as int));
            if same_chars(&norm, expected) {
                return Some(k);
            }
        }
    }
    None
}

impl SDistFilename {
    pub open spec fn view(&self) -> SDistData {
        SDistData {
            distribution: self.distribution@,
            version: self.version@,
            version_text: self.version.text(),
            format: self.format,
        }
    }

    /// Reads the name of a source distribution of the package
    /// `normalized_package_name`.
    pub fn from_filename(s: &str, normalized_package_name: &NormalizedPackageName) -> (r: Result<
        Self,
        ParseArtifactNameError,
    >)
        ensures
            match parsed_sdist(s@, normalized_package_name@) {
                Ok(d) => r matches Ok(n) && n@ == d && n.version.wf(),
                Err(e) => r matches Err(x) && x == e,
            },
    {
        let chars = chars_of(s);
        let expected = chars_of(normalized_package_name.as_str());
        let (format, stem) = match split_extension_exec(&chars) {
            Some((Some(format), stem)) => (format, stem),
            _ => {
                return Err(ParseArtifactNameError::UnknownFormat);
            },
        };
        let at = match find_split(&chars, stem, &expected) {
            Some(at) => at,
            None => {
                return Err(ParseArtifactNameError::InvalidName);
            },
        };
        let ghost t = chars@.take(stem as int);
        assert(t.subrange(at + 1, stem as int) =~= chars@.subrange(at + 1, stem as int));
        assert(t.take(at as int) =~= chars@.subrange(0, at as int));
        let version_text = string_of_range(&chars, at + 1, stem);
        let version = match Version::parse(version_text.as_str()) {
            Some(v) => v,
            None => {
                return Err(ParseArtifactNameError::InvalidVersion);
            },
        };
        Ok(SDistFilename { distribution: string_of_range(&chars, 0, at), version, format })
    }

    /// The file name.
    pub fn to_filename(&self) -> (r: String)
        ensures
            r@ == sdist_filename(self@),
    {
        let mut out = self.distribution.clone();
        out.append("-");
        out.append(self.version.as_str());
        proof {
            reveal_strlit("-");
            reveal_strlit(".tar.gz");
            reveal_strlit(".tar");
            reveal_strlit(".zip");
        }
        match self.format {
            SDistFormat::TarGz => {
                out.append(".tar.gz");
                assert(".tar.gz"@ =~= tar_gz_ext());
            },
            SDistFormat::Tar => {
                out.append(".tar");
                assert(".tar"@ =~= tar_ext());
            },
            SDistFormat::Zip => {
                out.append(".zip");
                assert(".zip"@ =~= zip_ext());
            },
        }
        assert("-"@ =~= seq!['-']);
        out
    }
}

impl WheelFilename {
    pub open spec fn view(&self) -> WheelData {
        WheelData {
            distribution: self.distribution@,
            version: self.version@,
            version_text: self.version.text(),
            build_tag: match self.build_tag {
                Some(b) => Some(b@),
                None => None,
            },
            python_tag: self.python_tag@,
            abi_tag: self.abi_tag@,
            platform_tag: self.platform_tag@,
        }
    }

    /// Reads the name of a wheel of the package `normalized_package_name`.
    pub fn from_filename(s: &str, normalized_package_name: &NormalizedPackageName) -> (r: Result<
        Self,
        ParseArtifactNameError,
    >)
        ensures
            match parsed_wheel(s@, normalized_package_name@) {
                Ok(d) => r matches Ok(n) && n@ == d && n.version.wf(),
                Err(e) => r matches Err(x) && x == e,
            },
    {
        let chars = chars_of(s);
        let expected = chars_of(normalized_package_name.as_str());
        let stem = match split_extension_exec(&chars) {
            Some((None, stem)) => stem,
            _ => {
                return Err(ParseArtifactNameError::UnknownFormat);
            },
        };
        let ghost t = chars@.take(stem as int);
        let at = match find_split(&chars, stem, &expected) {
            Some(at) => at,
            None => {
                let count = split_on(&chars, 0, stem, '-').len();
                assert(t =~= chars@.subrange(0, stem as int));
                if count == 5 || count == 6 {
                    return Err(ParseArtifactNameError::InvalidName);
                } else {
                    return Err(ParseArtifactNameError::InvalidWheelName);
                }
            },
        };
        assert(t.subrange(at + 1, stem as int) =~= chars@.subrange(at + 1, stem as int));
        assert(t.take(at as int) =~= chars@.subrange(0, at as int));
        let parts = split_on(&chars, at + 1, stem, '-');
        let n = parts.len();
        if n != 4 && n != 5 {
            return Err(ParseArtifactNameError::InvalidWheelName);
        }
        let tags = n - 3;
        if parts[tags].0 == parts[tags].1 || parts[tags + 1].0 == parts[tags + 1].1 || parts[tags
            + 2].0 == parts[tags + 2].1 || (n == 5 && parts[1].0 == parts[1].1) {
            return Err(ParseArtifactNameError::InvalidWheelName);
        }
        let version_text = string_of_range(&chars, parts[0].0, parts[0].1);
        let version = match Version::parse(version_text.as_str()) {
            Some(v) => v,
            None => {
                return Err(ParseArtifactNameError::InvalidVersion);
            },
        };
        let build_tag = if n == 5 {
            Some(string_of_range(&chars, parts[1].0, parts[1].1))
        } else {
            None
        };
        Ok(
            WheelFilename {
                distribution: string_of_range(&chars, 0, at),
                version,
                build_tag,
                python_tag: string_of_range(&chars, parts[tags].0, parts[tags].1),
                abi_tag: string_of_range(&chars, parts[tags + 1].0, parts[tags + 1].1),
                platform_tag: string_of_range(&chars, parts[tags + 2].0, parts[tags + 2].1),
            },
        )
    }

    /// The file name.
    pub fn to_filename(&self) -> (r: String)
        ensures
            r@ == wheel_filename(self@),
    {
        proof {
            reveal_strlit("-");
            reveal_strlit(".whl");
        }
        assert("-"@ =~= seq!['-']);
        assert(".whl"@ =~= whl_ext());
        let mut out = self.distribution.clone();
        out.append("-");
        out.append(self.version.as_str());
        match &self.build_tag {
            Some(b) => {
                out.append("-");
                out.append(b.as_str());
                assert(out@ =~= self@.distribution + seq!['-'] + self@.version_text + (seq!['-']
                    + b@));
            },
            None => {
                assert(out@ =~= self@.distribution + seq!['-'] + self@.version_text + Seq::<
                    char,
                >::empty());
            },
        }
        out.append("-");
        out.append(self.python_tag.as_str());
        out.append("-");
        out.append(self.abi_tag.as_str());
        out.append("-");
        out.append(self.platform_tag.as_str());
        out.append(".whl");
        out
    }
}

impl ArtifactName {
    pub open spec fn view(&self) -> ArtifactNameData {
        match self {
            ArtifactName::Wheel(w) => ArtifactNameData::Wheel(w@),
            ArtifactName::SDist(s) => ArtifactNameData::SDist(s@),
        }
    }

    /// The version that the name gives.
    pub open spec fn version_of(&self) -> Version {
        match self {
            ArtifactName::Wheel(w) => w.version,
            ArtifactName::SDist(s) => s.version,
        }
    }

    /// Reads the name of an artifact of the package
    /// `normalized_package_name`.
    pub fn from_filename(s: &str, normalized_package_name: &NormalizedPackageName) -> (r: Result<
        Self,
        ParseArtifactNameError,
    >)
        ensures
            match parsed_artifact(s@, normalized_package_name@) {
                Ok(d) => r matches Ok(n) && n@ == d,
                Err(e) => r matches Err(x) && x == e,
            },
    {
        let chars = chars_of(s);
        match split_extension_exec(&chars) {
            None => Err(ParseArtifactNameError::UnknownFormat),
            Some((None, _)) => match WheelFilename::from_filename(s, normalized_package_name) {
                Ok(w) => Ok(ArtifactName::Wheel(w)),
                Err(e) => Err(e),
            },
            Some((Some(_), _)) => match SDistFilename::from_filename(s, normalized_package_name) {
                Ok(d) => Ok(ArtifactName::SDist(d)),
                Err(e) => Err(e),
            },
        }
    }

    /// The file name.
    pub fn to_filename(&self) -> (r: String)
        ensures
            r@ == artifact_filename(self@),
    {
        match self {
            ArtifactName::Wheel(w) => w.to_filename(),
            ArtifactName::SDist(s) => s.to_filename(),
        }
    }

    pub fn version(&self) -> (r: &Version)
        ensures
            *r == self.version_of(),
    {
        match self {
            ArtifactName::Wheel(w) => &w.version,
            ArtifactName::SDist(s) => &s.version,
        }
    }

    pub fn is_wheel(&self) -> (r: bool)
        ensures
            r == (self is Wheel),
    {
        match self {
            ArtifactName::Wheel(_) => true,
            ArtifactName::SDist(_) => false,
        }
    }
}

} // verus!
