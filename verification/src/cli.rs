//! Decisions of the command-line front end.
use vstd::prelude::*;

use crate::paths::has_extension;
use crate::source::{has_toml_extension, LocalPathSource, ManifestSource, RegistrySource, Source};
use crate::text::owned;

verus! {

/// Failure of a CLI command.
#[derive(Debug)]
pub enum CliError {
    Package,
    Inspect,
}

/// The source that `inspect` loads `target` from: a crates.io crate when
/// `registry` is set; otherwise a manifest when `target` is a file with the
/// `toml` extension, else a local crate directory.
pub fn select_source(
    target: &str,
    registry: bool,
    version: Option<String>,
    target_is_file: bool,
) -> (r: Source)
    ensures
        registry ==> (r matches Source::Registry(s) && s.name@ == target@ && s.version == version),
        !registry && target_is_file && has_extension(target@, "toml"@) ==> (r matches Source::Manifest(
            s,
        ) && s.path@ == target@),
        !registry && !(target_is_file && has_extension(target@, "toml"@)) ==> (
        r matches Source::LocalPath(s) && s.path@ == target@ && s.name is None && s.version is None),
{
    if registry {
        Source::Registry(RegistrySource { name: owned(target), version })
    } else {
        let is_manifest = target_is_file && has_toml_extension(target);
        if is_manifest {
            Source::Manifest(ManifestSource { path: owned(target) })
        } else {
            Source::LocalPath(LocalPathSource { path: owned(target), name: None, version: None })
        }
    }
}

} // verus!
