//! Verified core of the TakoPack packaging tool: the cargo-free crate model
//! and its feature graph, crate sources, local project paths, and the PyPI
//! release selection and digest check.
use vstd::prelude::*;

pub mod cli;
pub mod crates;
pub mod digest;
pub mod error;
pub mod local;
pub mod model;
pub mod paths;
pub mod pypi;
pub mod source;
pub mod text;
pub mod version;

pub use cli::{select_source, CliError};
pub use crates::{project, CrateModel, CrateParts, LoadFailure, LoadOptions};
pub use digest::VerifyError;
pub use error::Error;
pub use local::{Local, LocalError, PathProbe};
pub use model::{
    transitive_crate_deps, CrateMetadata, DepKind, DepModel, FeatureGraph, FeatureNode,
    LockPackage, TargetKind, TargetModel,
};
pub use pypi::{pick_release_file, FileDigest, PypiFetcher, PypiReleaseFile};
pub use source::{
    CrateSource, LocalPathSource, ManifestSource, PreparedSource, RegistrySource, Source,
};

verus! {

} // verus!
