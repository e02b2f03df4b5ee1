//! The core metadata of a distribution, as the files `METADATA` and
//! `PKG-INFO` hold it.

use vstd::prelude::*;
use vstd::string::StrSliceExecFns;
use vstd::utf8::{decode_utf8, encode_utf8, valid_utf8};
use crate::package_name::{normalize, normalized, PackageName};
use crate::requirement::{
    all_normalized, requirement_from_parts, requirement_in, Requirement, RequirementData,
};
use crate::rfc822ish::{
    encode_header, encoded_fields, field_values, field_wf, find_fields, header_fields,
    lemma_header_round_trip, parse_header, values_of, FieldData, HeaderField,
};
use crate::specifiers::{clauses_of_text, Specifiers};
use crate::system_python::{digits_to_u32, digits_to_u32_range, field_end, field_end_from};
use crate::text::{chars_of, string_from_utf8};
use crate::version::{parsed_version, Version, VersionData};

verus! {

/// The version of the metadata format.
#[derive(Clone, Copy, Debug, PartialEq, Eq, Structural)]
pub struct MetadataVersion {
    pub major: u32,
    pub minor: u32,
}

/// The core metadata of a distribution.
#[derive(Debug)]
pub struct WheelCoreMetadata {
    pub name: PackageName,
    pub version: Version,
    pub metadata_version: MetadataVersion,
    pub requires_dist: Vec<Requirement>,
    pub requires_python: Option<Specifiers>,
    pub extras: Vec<String>,
    /// Every field of the header block, the fields above among them.
    pub fields: Vec<HeaderField>,
}

/// Why metadata could not be decoded.
#[derive(Debug, PartialEq, Eq, Structural)]
pub enum WheelCoreMetaDataError {
    /// The bytes are no UTF-8 text.
    InvalidUtf8,
    /// A line of the header block is no field and goes on with none.
    MalformedHeader,
    MissingMetadataVersion,
    InvalidMetadataVersion,
    MissingName,
    MissingVersion,
    InvalidVersion,
    /// Holds the place of the first `Requires-Dist` that is no requirement.
    InvalidRequirement(usize),
    InvalidRequiresPython,
}

/// The mathematical value of a [`WheelCoreMetadata`].
pub struct CoreMetadataData {
    pub name: Seq<char>,
    pub version: VersionData,
    pub version_text: Seq<char>,
    pub metadata_version: MetadataVersion,
    pub requires_dist: Seq<RequirementData>,
    pub requires_python: Option<Seq<Seq<char>>>,
    pub extras: Seq<Seq<char>>,
    pub fields: Seq<FieldData>,
}

impl MetadataVersion {
    /// Whether metadata of this version in a source distribution can be
    /// relied on: the version is 2.2 or later.
    pub open spec fn pep643(&self) -> bool {
        self.major > 2 || (self.major == 2 && self.minor >= 2)
    }

    pub fn implements_pep643(&self) -> (r: bool)
        ensures
            r == self.pep643(),
    {
        self.major > 2 || (self.major == 2 && self.minor >= 2)
    }
}

/// The metadata version that a text denotes: two numbers with a dot
/// between them.
pub open spec fn metadata_version_of(t: Seq<char>) -> Option<MetadataVersion> {
    let dot = field_end(t, 0);
    if dot >= t.len() {
        None
    } else {
        match (digits_to_u32(t.subrange(0, dot)), digits_to_u32(t.subrange(dot + 1, t.len() as int))) {
            (Some(major), Some(minor)) => Some(MetadataVersion { major, minor }),
            _ => None,
        }
    }
}

/// The first value of the fields with the name `key`.
pub open spec fn first_value(fields: Seq<FieldData>, key: Seq<char>) -> Option<Seq<char>> {
    if values_of(fields, key).len() > 0 {
        Some(values_of(fields, key)[0])
    } else {
        None
    }
}

/// The place of the first text at or after `i` that is no requirement, or
/// the number of texts.
pub open spec fn first_invalid(texts: Seq<Seq<char>>, i: int) -> int
    decreases texts.len() - i,
{
    if i < 0 || i >= texts.len() {
        texts.len() as int
    } else if requirement_in(texts[i]) is None {
        i
    } else {
        first_invalid(texts, i + 1)
    }
}

/// The requirements that the texts denote.
pub open spec fn requirements_of(texts: Seq<Seq<char>>) -> Seq<RequirementData> {
    Seq::new(texts.len(), |i: int| requirement_from_parts(requirement_in(texts[i])->0))
}

/// The metadata that the fields of a header block hold. `Metadata-Version`,
/// `Name` and `Version` have to be there, the first of each counts; each
/// `Requires-Dist` has to be a requirement; `Requires-Python`, where it is
/// there, has to be specifiers.
pub open spec fn decoded_fields(fields: Seq<FieldData>) -> Result<
    CoreMetadataData,
    WheelCoreMetaDataError,
> {
    let metadata_version = first_value(fields, "Metadata-Version"@);
    let name = first_value(fields, "Name"@);
    let version = first_value(fields, "Version"@);
    let dists = values_of(fields, "Requires-Dist"@);
    let python = first_value(fields, "Requires-Python"@);
    if metadata_version is None {
        Err(WheelCoreMetaDataError::MissingMetadataVersion)
    } else if metadata_version_of(metadata_version->0) is None {
        Err(WheelCoreMetaDataError::InvalidMetadataVersion)
    } else if name is None {
        Err(WheelCoreMetaDataError::MissingName)
    } else if version is None {
        Err(WheelCoreMetaDataError::MissingVersion)
    } else if parsed_version(version->0) is None {
        Err(WheelCoreMetaDataError::InvalidVersion)
    } else if first_invalid(dists, 0) < dists.len() {
        Err(WheelCoreMetaDataError::InvalidRequirement(first_invalid(dists, 0) as usize))
    } else if python is Some && clauses_of_text(python->0) is None {
        Err(WheelCoreMetaDataError::InvalidRequiresPython)
    } else {
        Ok(
            CoreMetadataData {
                name: name->0,
                version: parsed_version(version->0)->0,
                version_text: version->0,
                metadata_version: metadata_version_of(metadata_version->0)->0,
                requires_dist: requirements_of(dists),
                requires_python: match python {
                    Some(text) => clauses_of_text(text),
                    None => None,
                },
                extras: all_normalized(values_of(fields, "Provides-Extra"@)),
                fields,
            },
        )
    }
}

/// The metadata that bytes hold: they are UTF-8 text that starts with a
/// header block.
pub open spec fn decoded(bytes: Seq<u8>) -> Result<CoreMetadataData, WheelCoreMetaDataError> {
    if !valid_utf8(bytes) {
        Err(WheelCoreMetaDataError::InvalidUtf8)
    } else {
        match header_fields(decode_utf8(bytes)) {
            None => Err(WheelCoreMetaDataError::MalformedHeader),
            Some(fields) => decoded_fields(fields),
        }
    }
}

/// Whether metadata can be written and read back: it is what its fields
/// hold, and each of its fields can be written on a line.
pub open spec fn metadata_wf(d: CoreMetadataData) -> bool {
    &&& decoded_fields(d.fields) == Ok::<CoreMetadataData, WheelCoreMetaDataError>(d)
    &&& forall|i: int| 0 <= i < d.fields.len() ==> field_wf(#[trigger] d.fields[i])
}

/// The bytes that metadata are written as: the header block of its fields,
/// in UTF-8.
pub open spec fn encoded(d: CoreMetadataData) -> Seq<u8> {
    encode_utf8(encoded_fields(d.fields))
}

/// To decode the bytes that well-formed metadata are written as gives the
/// metadata back.
pub proof fn lemma_metadata_round_trip(d: CoreMetadataData)
    requires
        metadata_wf(d),
    ensures
        decoded(encoded(d)) == Ok::<CoreMetadataData, WheelCoreMetaDataError>(d),
{
    let text = encoded_fields(d.fields);
    vstd::utf8::encode_utf8_valid_utf8(text);
    vstd::utf8::encode_utf8_decode_utf8(text);
    lemma_header_round_trip(d.fields);
}

fn parse_metadata_version(text: &str) -> (r: Option<MetadataVersion>)
    ensures
        r == metadata_version_of(text@),
{
    let s = chars_of(text);
    let dot = field_end_from(&s, 0, s.len(), 0);
    assert(s@.subrange(0, s.len() as int) =~= s@);
    if dot >= s.len() {
        return None;
    }
    match (digits_to_u32_range(&s, 0, dot), digits_to_u32_range(&s, dot + 1, s.len())) {
        (Some(major), Some(minor)) => Some(MetadataVersion { major, minor }),
        _ => None,
    }
}

impl WheelCoreMetadata {
    pub open spec fn view(&self) -> CoreMetadataData {
        CoreMetadataData {
            name: self.name@,
            version: self.version@,
            version_text: self.version.text(),
            metadata_version: self.metadata_version,
            requires_dist: Seq::new(self.requires_dist@.len(), |i: int| self.requires_dist@[i]@),
            requires_python: match self.requires_python {
                Some(s) => Some(s@),
                None => None,
            },
            extras: Seq::new(self.extras@.len(), |i: int| self.extras@[i]@),
            fields: field_values(self.fields@),
        }
    }

    /// The bytes that the metadata are written as: every field on a line
    /// of its own.
    pub fn encode(&self) -> (r: Vec<u8>)
        ensures
            r@ == encoded(self@),
    {
        let text = encode_header(&self.fields);
        text.as_str().as_bytes_vec()
    }

    /// Decodes the metadata that `bytes` hold.
    pub fn decode(bytes: &Vec<u8>) -> (r: Result<WheelCoreMetadata, WheelCoreMetaDataError>)
        ensures
            match decoded(bytes@) {
                Ok(d) => r matches Ok(m) && m@ == d && m.version.wf(),
                Err(e) => r matches Err(x) && x == e,
            },
    {
        let text = match string_from_utf8(bytes) {
            Some(text) => text,
            None => {
                return Err(WheelCoreMetaDataError::InvalidUtf8);
            },
        };
        let fields = match parse_header(text.as_str()) {
            Ok(fields) => fields,
            Err(_) => {
                return Err(WheelCoreMetaDataError::MalformedHeader);
            },
        };
        WheelCoreMetadata::from_fields(fields)
    }

    /// The metadata that the fields of a header block hold.
    pub fn from_fields(fields: Vec<HeaderField>) -> (r: Result<
        WheelCoreMetadata,
        WheelCoreMetaDataError,
    >)
        ensures
            match decoded_fields(field_values(fields@)) {
                Ok(d) => r matches Ok(m) && m@ == d && m.version.wf(),
                Err(e) => r matches Err(x) && x == e,
            },
    {
        let ghost all = field_values(fields@);
        let at = find_fields(&fields, "Metadata-Version");
        if at.len() == 0 {
            return Err(WheelCoreMetaDataError::MissingMetadataVersion);
        }
        let metadata_version = match parse_metadata_version(fields[at[0]].value.as_str()) {
            Some(v) => v,
            None => {
                return Err(WheelCoreMetaDataError::InvalidMetadataVersion);
            },
        };
        let at = find_fields(&fields, "Name");
        if at.len() == 0 {
            return Err(WheelCoreMetaDataError::MissingName);
        }
        let name = PackageName::new(fields[at[0]].value.as_str());
        let at = find_fields(&fields, "Version");
        if at.len() == 0 {
            return Err(WheelCoreMetaDataError::MissingVersion);
        }
        let version = match Version::parse(fields[at[0]].value.as_str()) {
            Some(v) => v,
            None => {
                return Err(WheelCoreMetaDataError::InvalidVersion);
            },
        };
        let at = find_fields(&fields, "Requires-Dist");
        let ghost texts = values_of(all, "Requires-Dist"@);
        let mut requires_dist: Vec<Requirement> = Vec::new();
        let mut i: usize = 0;
        while i < at.len()
            invariant
                i <= at.len(),
                all == field_values(fields@),
                texts == values_of(all, "Requires-Dist"@),
                at@.len() == texts.len(),
                forall|k: int|
                    0 <= k < at@.len() ==> (#[trigger] at@[k]) < fields@.len()
                        && fields@[at@[k] as int].value@ == texts[k],
                first_invalid(texts, 0) == first_invalid(texts, i as int),
                first_value(all, "Metadata-Version"@) is Some,
                metadata_version_of(first_value(all, "Metadata-Version"@)->0) is Some,
                first_value(all, "Name"@) is Some,
                first_value(all, "Version"@) is Some,
                parsed_version(first_value(all, "Version"@)->0) is Some,
                requires_dist@.len() == i,
                forall|k: int|
                    0 <= k < i ==> (#[trigger] requires_dist@[k])@ == requirement_from_parts(
                        requirement_in(texts[k])->0,
                    ),
            decreases at.len() - i,
        {
            match Requirement::parse(fields[at[i]].value.as_str()) {
                Some(req) => {
                    requires_dist.push(req);
                },
                None => {
                    return Err(WheelCoreMetaDataError::InvalidRequirement(i));
                },
            }
            i += 1;
        }
        let at = find_fields(&fields, "Requires-Python");
        let requires_python = if at.len() == 0 {
            None
        } else {
            match Specifiers::parse(fields[at[0]].value.as_str()) {
                Some(s) => Some(s),
                None => {
                    return Err(WheelCoreMetaDataError::InvalidRequiresPython);
                },
            }
        };
        let at = find_fields(&fields, "Provides-Extra");
        let ghost provided = values_of(all, "Provides-Extra"@);
        let mut extras: Vec<String> = Vec::new();
        let mut i: usize = 0;
        while i < at.len()
            invariant
                i <= at.len(),
                all == field_values(fields@),
                provided == values_of(all, "Provides-Extra"@),
                at@.len() == provided.len(),
                forall|k: int|
                    0 <= k < at@.len() ==> (#[trigger] at@[k]) < fields@.len()
                        && fields@[at@[k] as int].value@ == provided[k],
                extras@.len() == i,
                forall|k: int| 0 <= k < i ==> (#[trigger] extras@[k])@ == normalized(provided[k]),
            decreases at.len() - i,
        {
            extras.push(normalize(fields[at[i]].value.as_str()));
            i += 1;
        }
        let m = WheelCoreMetadata {
            name,
            version,
            metadata_version,
            requires_dist,
            requires_python,
            extras,
            fields,
        };
        proof {
            assert(m@.requires_dist =~= requirements_of(texts));
            assert(m@.extras =~= all_normalized(provided));
        }
        Ok(m)
    }
}

} // verus!
