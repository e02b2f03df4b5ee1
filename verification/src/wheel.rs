//! Where the metadata of an artifact is read from.

use vstd::prelude::*;
use vstd::string::StringExecFns;
use crate::artifact_name::{ArtifactName, ArtifactNameData, WheelData, WheelFilename};
use crate::project_info::ArtifactInfo;

verus! {

/// Where the metadata of an artifact is read from.
#[derive(Debug, PartialEq, Eq)]
pub enum MetadataSource {
    /// The file beside a wheel that holds its metadata alone, at this
    /// address. The wheel itself need not be fetched.
    SideChannel(String),
    /// The file at this path in the archive of a wheel.
    WheelArchive(String),
    /// The file `PKG-INFO` in the archive of a source distribution, where
    /// its metadata version says that it can be relied on.
    SDistArchive,
}

/// The mathematical value of a [`MetadataSource`].
pub enum MetadataSourceData {
    SideChannel(Seq<char>),
    WheelArchive(Seq<char>),
    SDistArchive,
}

impl MetadataSource {
    pub open spec fn view(&self) -> MetadataSourceData {
        match self {
            MetadataSource::SideChannel(url) => MetadataSourceData::SideChannel(url@),
            MetadataSource::WheelArchive(path) => MetadataSourceData::WheelArchive(path@),
            MetadataSource::SDistArchive => MetadataSourceData::SDistArchive,
        }
    }
}

pub open spec fn metadata_suffix() -> Seq<char> {
    seq!['.', 'm', 'e', 't', 'a', 'd', 'a', 't', 'a']
}

pub open spec fn dist_info_suffix() -> Seq<char> {
    seq![
        '.',
        'd',
        'i',
        's',
        't',
        '-',
        'i',
        'n',
        'f',
        'o',
        '/',
        'M',
        'E',
        'T',
        'A',
        'D',
        'A',
        'T',
        'A',
    ]
}

/// The address of the metadata beside the artifact at the address `url`.
pub open spec fn metadata_url(url: Seq<char>) -> Seq<char> {
    url + metadata_suffix()
}

/// The path of the metadata in the archive of a wheel: the directory named
/// by the package, a `-`, the version and `.dist-info`, and in it the file
/// `METADATA`.
pub open spec fn dist_info_metadata_path(w: WheelData) -> Seq<char> {
    w.distribution + seq!['-'] + w.version_text + dist_info_suffix()
}

/// Where the metadata of an artifact is read from: beside a wheel where the
/// index says that it is there, else in the wheel; for a source
/// distribution in its archive.
pub open spec fn metadata_source_of(artifact: ArtifactInfo) -> MetadataSourceData {
    match artifact.filename@ {
        ArtifactNameData::Wheel(w) => if artifact.dist_info_metadata.available {
            MetadataSourceData::SideChannel(metadata_url(artifact.url@))
        } else {
            MetadataSourceData::WheelArchive(dist_info_metadata_path(w))
        },
        ArtifactNameData::SDist(_) => MetadataSourceData::SDistArchive,
    }
}

/// The path of the metadata in the archive of the wheel.
pub fn metadata_path(wheel: &WheelFilename) -> (r: String)
    ensures
        r@ == dist_info_metadata_path(wheel@),
{
    proof {
        reveal_strlit("-");
        reveal_strlit(".dist-info/METADATA");
    }
    assert("-"@ =~= seq!['-']);
    assert(".dist-info/METADATA"@ =~= dist_info_suffix());
    let mut out = wheel.distribution.clone();
    out.append("-");
    out.append(wheel.version.as_str());
    out.append(".dist-info/METADATA");
    out
}

/// Where the metadata of the artifact is read from.
pub fn metadata_source(artifact: &ArtifactInfo) -> (r: MetadataSource)
    ensures
        r@ == metadata_source_of(*artifact),
{
    match &artifact.filename {
        ArtifactName::Wheel(wheel) => {
            if artifact.dist_info_metadata.available {
                proof {
                    reveal_strlit(".metadata");
                }
                assert(".metadata"@ =~= metadata_suffix());
                let mut url = artifact.url.clone();
                url.append(".metadata");
                MetadataSource::SideChannel(url)
            } else {
                MetadataSource::WheelArchive(metadata_path(wheel))
            }
        },
        ArtifactName::SDist(_) => MetadataSource::SDistArchive,
    }
}

} // verus!
