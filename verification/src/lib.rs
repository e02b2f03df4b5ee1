//! Resolution of Python package requirements against a package index: the
//! data model, the readers of package metadata, and the discovery of the
//! requirement graph that is handed to a version solver.
//!
//! Names, versions, specifiers and requirements are in [`package_name`],
//! [`version`], [`specifiers`] and [`requirement`]; the names of artifacts
//! and what an index says of them in [`artifact_name`] and [`project_info`].
//! Metadata is decoded in [`core_metadata`] from the header block that
//! [`rfc822ish`] reads, and read from source distributions in [`sdist`];
//! [`wheel`] says where the metadata of an artifact is found. [`resolve`]
//! chooses the versions that may be candidates, [`discovery`] records them
//! with what they require in the [`pool`] of a [`provider`], which is what a
//! solver is given; [`report`] writes what the solver chose.
//!
//! Nothing here reads a file or a network: archives come as bytes, and what
//! an index holds is handed in by the caller.

pub mod text;
pub mod system_python;
pub mod package_name;
pub mod version;
pub mod specifiers;
pub mod requirement;
pub mod pool;
pub mod artifact_name;
pub mod project_info;
pub mod resolve;
pub mod provider;
pub mod discovery;
pub mod rfc822ish;
pub mod core_metadata;
pub mod archive_path;
pub mod sdist;
pub mod wheel;
pub mod index_url;
pub mod report;
