//! The loaded form of a crate: [`CrateModel`], and the options that shape
//! loading ([`LoadOptions`]).
use vstd::prelude::*;

use std::collections::HashMap;

use crate::model::{
    node_without, without_names, transitive_crate_deps, transitive_deps_of, CrateMetadata, DepKind, DepModel,
    FeatureGraph, FeatureNodeView, TargetKind, TargetModel,
};
use crate::error::Error;
use crate::source::opt_string_view;
use crate::text::{concat, str_eq, strictly_sorted};
use crate::version::{compat_key, version_text, VersionNumbers, VersionNumbersView};

verus! {

/// Options that shape how a crate is loaded.
#[derive(Debug, Clone)]
pub struct LoadOptions {
    /// Include dev-dependencies in the dependency list / feature graph.
    pub include_dev_dependencies: bool,
    /// Compute the SHA-256 of the crate file (requires a real `.crate`).
    pub compute_sha256: bool,
    /// Source archive excludes (glob patterns relative to the package root).
    pub excludes: Option<Vec<String>>,
    /// Source archive whitelist (glob patterns).
    pub includes: Option<Vec<String>>,
    /// Optional resolved dependency versions from a `Cargo.lock`.
    pub lockfile_deps: Option<HashMap<String, semver::Version>>,
}

impl Default for LoadOptions {
    /// No dev-dependencies, a computed SHA-256, no archive filters and no
    /// lock file.
    fn default() -> (r: Self)
        ensures
            !r.include_dev_dependencies,
            r.compute_sha256,
            r.excludes is None,
            r.includes is None,
            r.lockfile_deps is None,
    {
        LoadOptions {
            include_dev_dependencies: false,
            compute_sha256: true,
            excludes: None,
            includes: None,
            lockfile_deps: None,
        }
    }
}

/// An immutable, cargo-free view of a loaded crate.
#[derive(Debug)]
pub struct CrateModel {
    pub name: String,
    /// The crate's version, as its numbers.
    pub version: VersionNumbers,
    /// TakoPack compat key (e.g. `0.26` or `1`).
    pub semver_compat: String,
    /// Full semver string.
    pub full_version: String,
    pub metadata: CrateMetadata,
    pub targets: Vec<TargetModel>,
    pub is_lib: bool,
    pub binary_targets: Vec<String>,
    pub rust_version: Option<String>,
    pub checksum: Option<String>,
    pub sha256: Option<String>,
    pub dependencies: Vec<DepModel>,
    /// Feature graph keyed by feature name (including `""` base node).
    pub features: FeatureGraph,
    pub lockfile_deps: Option<HashMap<String, semver::Version>>,
    /// Holds the materialized temp crate alive for manifest sources.
    _workspace: Option<tempfile::TempDir>,
}

/// What a [`CrateModel`] holds, strings taken as character sequences.
pub struct CrateModelView {
    pub name: Seq<char>,
    pub version: VersionNumbersView,
    pub semver_compat: Seq<char>,
    pub full_version: Seq<char>,
    pub metadata: CrateMetadata,
    pub targets: Seq<TargetModel>,
    pub is_lib: bool,
    pub binary_targets: Seq<Seq<char>>,
    pub rust_version: Option<Seq<char>>,
    pub checksum: Option<Seq<char>>,
    pub sha256: Option<Seq<char>>,
    pub dependencies: Seq<DepModel>,
    pub features: Map<Seq<char>, FeatureNodeView>,
    pub lockfile_deps: Option<HashMap<String, semver::Version>>,
    pub workspace: Option<tempfile::TempDir>,
}

impl View for CrateModel {
    type V = CrateModelView;

    closed spec fn view(&self) -> CrateModelView {
        CrateModelView {
            name: self.name@,
            version: self.version@,
            semver_compat: self.semver_compat@,
            full_version: self.full_version@,
            metadata: self.metadata,
            targets: self.targets@,
            is_lib: self.is_lib,
            binary_targets: self.binary_targets.deep_view(),
            rust_version: opt_string_view(self.rust_version),
            checksum: opt_string_view(self.checksum),
            sha256: opt_string_view(self.sha256),
            dependencies: self.dependencies@,
            features: self.features@,
            lockfile_deps: self.lockfile_deps,
            workspace: self._workspace,
        }
    }
}

/// What the loader reads off a crate, before the load options apply.
pub struct CrateParts {
    pub name: String,
    /// The crate's version, as its numbers.
    pub version: VersionNumbers,
    pub metadata: CrateMetadata,
    pub targets: Vec<TargetModel>,
    pub binary_targets: Vec<String>,
    pub rust_version: Option<String>,
    pub checksum: Option<String>,
    /// Every declared dependency, dev-dependencies included.
    pub dependencies: Vec<DepModel>,
    /// The feature graph over every declared dependency.
    pub features: FeatureGraph,
}

/// Some target of `targets` is a library.
pub open spec fn has_lib_target(targets: Seq<TargetModel>) -> bool {
    exists|i: int| 0 <= i < targets.len() && targets[i].kind == TargetKind::Lib
}

/// `deps` without its dev-dependencies, in their order.
pub open spec fn without_dev(deps: Seq<DepModel>) -> Seq<DepModel>
    decreases deps.len(),
{
    if deps.len() == 0 {
        Seq::empty()
    } else {
        let r = without_dev(deps.drop_last());
        if deps.last().kind is Dev {
            r
        } else {
            r.push(deps.last())
        }
    }
}

/// The dependency list under the option to include dev-dependencies.
pub open spec fn kept_dependencies(deps: Seq<DepModel>, include_dev: bool) -> Seq<DepModel> {
    if include_dev {
        deps
    } else {
        without_dev(deps)
    }
}

/// `name` is a crate that `deps` declares only as a dev-dependency.
pub open spec fn dev_only(deps: Seq<DepModel>, name: Seq<char>) -> bool {
    &&& exists|i: int| 0 <= i < deps.len() && deps[i].kind is Dev && #[trigger] deps[i].package_name@ == name
    &&& !exists|i: int|
        0 <= i < deps.len() && !(deps[i].kind is Dev) && #[trigger] deps[i].package_name@ == name
}

/// The crates that `deps` declares only as dev-dependencies.
pub open spec fn dev_only_crates(deps: Seq<DepModel>) -> Set<Seq<char>> {
    Set::new(|name: Seq<char>| dev_only(deps, name))
}

/// The feature graph under the option to include dev-dependencies: without
/// it, no feature activates a crate that is only a dev-dependency.
pub open spec fn kept_features(
    g: Map<Seq<char>, FeatureNodeView>,
    deps: Seq<DepModel>,
    include_dev: bool,
) -> Map<Seq<char>, FeatureNodeView> {
    if include_dev {
        g
    } else {
        g.map_values(|n: FeatureNodeView| node_without(n, dev_only_crates(deps)))
    }
}

proof fn lemma_without_names_subset(names: Seq<Seq<char>>, drop: Set<Seq<char>>, c: Seq<char>)
    ensures
        without_names(names, drop).contains(c) ==> names.contains(c) && !drop.contains(c),
    decreases names.len(),
{
    if names.len() > 0 {
        let r = without_names(names.drop_last(), drop);
        lemma_without_names_subset(names.drop_last(), drop, c);
        if without_names(names, drop).contains(c) {
            let k = choose|k: int| 0 <= k < without_names(names, drop).len() && without_names(names, drop)[k] == c;
            if k < r.len() {
                assert(r[k] == c);
                let j = choose|j: int| 0 <= j < names.drop_last().len() && names.drop_last()[j] == c;
                assert(names[j] == c);
            } else {
                assert(names[names.len() - 1] == c);
            }
        }
    }
}

proof fn lemma_without_dev_kinds(deps: Seq<DepModel>)
    ensures
        forall|i: int| 0 <= i < without_dev(deps).len() ==> !(#[trigger] without_dev(deps)[i].kind is Dev),
    decreases deps.len(),
{
    if deps.len() > 0 {
        lemma_without_dev_kinds(deps.drop_last());
    }
}

/// Without the option to include dev-dependencies, the dependency list
/// holds no dev-dependency and no feature activates a crate that is declared
/// only as a dev-dependency.
pub proof fn lemma_dev_dependencies_excluded(
    g: Map<Seq<char>, FeatureNodeView>,
    deps: Seq<DepModel>,
    feature: Seq<char>,
    name: Seq<char>,
)
    requires
        dev_only(deps, name),
    ensures
        forall|i: int|
            0 <= i < kept_dependencies(deps, false).len() ==> !(#[trigger] kept_dependencies(deps, false)[i].kind is Dev),
        kept_features(g, deps, false).contains_key(feature) ==> !kept_features(
            g,
            deps,
            false,
        )[feature].crate_deps.contains(name),
{
    lemma_without_dev_kinds(deps);
    if g.contains_key(feature) {
        lemma_without_names_subset(g[feature].crate_deps, dev_only_crates(deps), name);
    }
}

/// With the option to include dev-dependencies, the dependency list and the
/// feature graph are the loader's own, dev-dependencies included.
pub proof fn lemma_dev_dependencies_included(g: Map<Seq<char>, FeatureNodeView>, deps: Seq<DepModel>)
    ensures
        kept_dependencies(deps, true) == deps,
        kept_features(g, deps, true) == g,
{
}

/// The model projected from `parts`.
pub open spec fn projected(
    parts: CrateParts,
    crate_sha256: Option<String>,
    opts: LoadOptions,
    workspace: Option<tempfile::TempDir>,
) -> CrateModelView {
    CrateModelView {
        name: parts.name@,
        version: parts.version@,
        semver_compat: compat_key(parts.version@),
        full_version: version_text(parts.version@),
        metadata: parts.metadata,
        targets: parts.targets@,
        is_lib: has_lib_target(parts.targets@),
        binary_targets: parts.binary_targets.deep_view(),
        rust_version: opt_string_view(parts.rust_version),
        checksum: opt_string_view(parts.checksum),
        sha256: if opts.compute_sha256 {
            opt_string_view(crate_sha256)
        } else {
            None
        },
        dependencies: kept_dependencies(parts.dependencies@, opts.include_dev_dependencies),
        features: kept_features(parts.features@, parts.dependencies@, opts.include_dev_dependencies),
        lockfile_deps: opts.lockfile_deps,
        workspace: workspace,
    }
}

/// Whether `deps` declares `name` other than as a dev-dependency.
fn declared_for_build_or_run(deps: &Vec<DepModel>, name: &str) -> (r: bool)
    ensures
        r == exists|i: int|
            0 <= i < deps.len() && !(deps@[i].kind is Dev) && #[trigger] deps@[i].package_name@ == name@,
{
    let mut i: usize = 0;
    while i < deps.len()
        invariant
            i <= deps.len(),
            forall|j: int|
                0 <= j < i ==> !(!(deps@[j].kind is Dev) && #[trigger] deps@[j].package_name@ == name@),
        decreases deps.len() - i,
    {
        let is_dev = match deps[i].kind {
            DepKind::Dev => true,
            _ => false,
        };
        if !is_dev && str_eq(deps[i].package_name.as_str(), name) {
            return true;
        }
        i = i + 1;
    }
    false
}

spec fn declared_exists(deps: Seq<DepModel>, name: Seq<char>) -> bool {
    exists|i: int| 0 <= i < deps.len() && !(deps[i].kind is Dev) && #[trigger] deps[i].package_name@ == name
}

/// The crates that `deps` declares only as dev-dependencies.
fn dev_only_names(deps: &Vec<DepModel>) -> (r: Vec<String>)
    ensures
        r.deep_view().to_set() == dev_only_crates(deps@),
{
    let mut r: Vec<String> = Vec::new();
    let mut i: usize = 0;
    while i < deps.len()
        invariant
            i <= deps.len(),
            forall|c: Seq<char>|
                #[trigger] r.deep_view().contains(c) <==> (dev_only(deps@, c) && exists|j: int|
                    0 <= j < i && deps@[j].kind is Dev && #[trigger] deps@[j].package_name@ == c),
        decreases deps.len() - i,
    {
        let is_dev = match deps[i].kind {
            DepKind::Dev => true,
            _ => false,
        };
        if is_dev && !declared_for_build_or_run(deps, deps[i].package_name.as_str()) {
            let ghost c0 = deps@[i as int].package_name@;
            assert(dev_only(deps@, c0));
            let ghost rv = r.deep_view();
            r.push(deps[i].package_name.clone());
            assert(r.deep_view() =~= rv.push(c0));
            assert forall|c: Seq<char>|
                #[trigger] r.deep_view().contains(c) <==> (dev_only(deps@, c) && exists|j: int|
                    0 <= j < i + 1 && deps@[j].kind is Dev && #[trigger] deps@[j].package_name@ == c) by {
                let old_ex = exists|j: int|
                    0 <= j < i && deps@[j].kind is Dev && #[trigger] deps@[j].package_name@ == c;
                let new_ex = exists|j: int|
                    0 <= j < i + 1 && deps@[j].kind is Dev && #[trigger] deps@[j].package_name@ == c;
                assert(rv.contains(c) <==> (dev_only(deps@, c) && old_ex));
                assert(r.deep_view().contains(c) <==> (rv.contains(c) || c == c0)) by {
                    if r.deep_view().contains(c) && c != c0 {
                        let k = choose|k: int| 0 <= k < r.len() && r.deep_view()[k] == c;
                        assert(rv[k] == c);
                    }
                    if rv.contains(c) {
                        let k = choose|k: int| 0 <= k < rv.len() && rv[k] == c;
                        assert(r.deep_view()[k] == c);
                    }
                    if c == c0 {
                        assert(r.deep_view()[rv.len() as int] == c0);
                    }
                }
                if c == c0 {
                    assert(0 <= i < i + 1 && deps@[i as int].kind is Dev && deps@[i as int].package_name@ == c);
                    assert(new_ex);
                }
                if old_ex {
                    let j = choose|j: int|
                        0 <= j < i && deps@[j].kind is Dev && #[trigger] deps@[j].package_name@ == c;
                    assert(0 <= j < i + 1 && deps@[j].kind is Dev && deps@[j].package_name@ == c);
                    assert(new_ex);
                }
                if new_ex && c != c0 {
                    let j = choose|j: int|
                        0 <= j < i + 1 && deps@[j].kind is Dev && #[trigger] deps@[j].package_name@ == c;
                    assert(j != i);
                    assert(old_ex);
                }
            }
        } else {
            assert forall|c: Seq<char>|
                #[trigger] r.deep_view().contains(c) <==> (dev_only(deps@, c) && exists|j: int|
                    0 <= j < i + 1 && deps@[j].kind is Dev && #[trigger] deps@[j].package_name@ == c) by {
                let old_ex = exists|j: int|
                    0 <= j < i && deps@[j].kind is Dev && #[trigger] deps@[j].package_name@ == c;
                let new_ex = exists|j: int|
                    0 <= j < i + 1 && deps@[j].kind is Dev && #[trigger] deps@[j].package_name@ == c;
                assert(r.deep_view().contains(c) <==> (dev_only(deps@, c) && old_ex));
                if old_ex {
                    let j = choose|j: int|
                        0 <= j < i && deps@[j].kind is Dev && #[trigger] deps@[j].package_name@ == c;
                    assert(0 <= j < i + 1 && deps@[j].kind is Dev && deps@[j].package_name@ == c);
                    assert(new_ex);
                }
                if dev_only(deps@, c) && new_ex {
                    let j = choose|j: int|
                        0 <= j < i + 1 && deps@[j].kind is Dev && #[trigger] deps@[j].package_name@ == c;
                    if j == i {
                        assert(!(deps@[j].kind is Dev) || declared_exists(deps@, c));
                        assert(false);
                    }
                    assert(old_ex);
                }
            }
        }
        i = i + 1;
    }
    assert(r.deep_view().to_set() =~= dev_only_crates(deps@)) by {
        assert forall|c: Seq<char>| dev_only(deps@, c) implies r.deep_view().contains(c) by {
            let j = choose|j: int| 0 <= j < deps.len() && deps@[j].kind is Dev && #[trigger] deps@[j].package_name@ == c;
        }
    }
    r
}

/// `deps` without its dev-dependencies.
fn drop_dev_dependencies(deps: Vec<DepModel>) -> (r: Vec<DepModel>)
    ensures
        r@ == without_dev(deps@),
{
    let ghost all = deps@;
    let mut rest = deps;
    let mut out: Vec<DepModel> = Vec::new();
    while rest.len() > 0
        invariant
            out@ == without_dev(all.take(all.len() - rest.len())),
            rest@ == all.skip(all.len() - rest.len()),
            rest.len() <= all.len(),
        decreases rest.len(),
    {
        let ghost k = all.len() - rest.len();
        let d = rest.remove(0);
        assert(d == all[k]);
        assert(all.take(k + 1).drop_last() =~= all.take(k));
        assert(rest@ =~= all.skip(k + 1));
        match d.kind {
            DepKind::Dev => {},
            _ => {
                out.push(d);
            },
        }
    }
    assert(all.take(all.len() as int) =~= all);
    out
}

/// Project what the loader read off a crate into its model, given the crate
/// file's SHA-256 where it was computed, the load options, and the workspace
/// a manifest source was materialized in.
///
/// The full version text and the compat key come from the version; the
/// crate is a library when one of its targets is; the SHA-256 is kept only
/// when the options ask for it; without dev-dependencies, they leave the
/// dependency list and every crate declared only as a dev-dependency leaves
/// the feature graph.
pub fn project(
    parts: CrateParts,
    crate_sha256: Option<String>,
    opts: LoadOptions,
    workspace: Option<tempfile::TempDir>,
) -> (m: CrateModel)
    ensures
        m@ == projected(parts, crate_sha256, opts, workspace),
{
    let ghost p = parts;
    let mut is_lib = false;
    let mut i: usize = 0;
    while i < parts.targets.len()
        invariant
            i <= parts.targets.len(),
            is_lib == exists|j: int| 0 <= j < i && parts.targets@[j].kind == TargetKind::Lib,
        decreases parts.targets.len() - i,
    {
        match parts.targets[i].kind {
            TargetKind::Lib => {
                is_lib = true;
            },
            _ => {},
        }
        i = i + 1;
    }
    let sha256 = if opts.compute_sha256 {
        crate_sha256
    } else {
        None
    };
    let full_version = parts.version.full_text();
    let semver_compat = parts.version.compat_version();
    let (dependencies, features) = if opts.include_dev_dependencies {
        (parts.dependencies, parts.features)
    } else {
        let drop = dev_only_names(&parts.dependencies);
        let features = parts.features.without_crates(&drop);
        (drop_dev_dependencies(parts.dependencies), features)
    };
    let m = CrateModel {
        name: parts.name,
        version: parts.version,
        semver_compat,
        full_version,
        metadata: parts.metadata,
        targets: parts.targets,
        is_lib,
        binary_targets: parts.binary_targets,
        rust_version: parts.rust_version,
        checksum: parts.checksum,
        sha256,
        dependencies,
        features,
        lockfile_deps: opts.lockfile_deps,
        _workspace: workspace,
    };
    assert(m@.features =~= projected(p, crate_sha256, opts, workspace).features);
    m
}

impl CrateModel {
    /// All external crate dependencies transitively reachable from `feature`,
    /// deduplicated and sorted.
    pub fn transitive_deps(&self, feature: &str) -> (r: Vec<String>)
        ensures
            strictly_sorted(r.deep_view()),
            r.deep_view().to_set() == transitive_deps_of(self@.features, feature@),
    {
        transitive_crate_deps(&self.features, feature)
    }
}

/// A failure of the cargo backend while loading a prepared source, with the
/// backend's own description of it.
#[derive(Debug)]
pub enum LoadFailure {
    /// The registry crate's name and version did not form a dependency.
    ParseDependency { name: String, error: String },
    /// The registry crate could not be loaded.
    LoadRegistry { name: String, error: String },
    /// The local crate directory could not be loaded.
    LoadLocal { name: String, path: String, error: String },
    /// The materialized manifest could not be loaded.
    LoadManifest { manifest: String, error: String },
    /// The feature graph could not be computed.
    FeatureGraph { error: String },
}

/// The message that reports `f`.
pub open spec fn failure_message(f: LoadFailure) -> Seq<char> {
    match f {
        LoadFailure::ParseDependency { name, error } =>
            "failed to parse dependency for "@ + name@ + ": "@ + error@,
        LoadFailure::LoadRegistry { name, error } => "failed to load crate "@ + name@ + ": "@ + error@,
        LoadFailure::LoadLocal { name, path, error } =>
            "failed to load local crate path "@ + name@ + " from "@ + path@ + ": "@ + error@,
        LoadFailure::LoadManifest { manifest, error } =>
            "failed to load manifest from "@ + manifest@ + ": "@ + error@,
        LoadFailure::FeatureGraph { error } => "failed to compute feature graph: "@ + error@,
    }
}

impl LoadFailure {
    /// The backend error that reports this failure.
    pub fn into_error(self) -> (e: Error)
        ensures
            e matches Error::Backend(m) && m@ == failure_message(self),
    {
        let ghost f = self;
        let m = match self {
            LoadFailure::ParseDependency { name, error } => {
                let a = concat("failed to parse dependency for ", name.as_str());
                let b = concat(a.as_str(), ": ");
                concat(b.as_str(), error.as_str())
            },
            LoadFailure::LoadRegistry { name, error } => {
                let a = concat("failed to load crate ", name.as_str());
                let b = concat(a.as_str(), ": ");
                concat(b.as_str(), error.as_str())
            },
            LoadFailure::LoadLocal { name, path, error } => {
                let a = concat("failed to load local crate path ", name.as_str());
                let b = concat(a.as_str(), " from ");
                let c = concat(b.as_str(), path.as_str());
                let d = concat(c.as_str(), ": ");
                concat(d.as_str(), error.as_str())
            },
            LoadFailure::LoadManifest { manifest, error } => {
                let a = concat("failed to load manifest from ", manifest.as_str());
                let b = concat(a.as_str(), ": ");
                concat(b.as_str(), error.as_str())
            },
            LoadFailure::FeatureGraph { error } => concat("failed to compute feature graph: ", error.as_str()),
        };
        Error::Backend(m)
    }
}

/// The projected model is a library exactly when some target of the crate,
/// in any position, is a library target.
pub proof fn lemma_library_iff_some_lib_target(
    parts: CrateParts,
    crate_sha256: Option<String>,
    opts: LoadOptions,
    workspace: Option<tempfile::TempDir>,
)
    ensures
        projected(parts, crate_sha256, opts, workspace).is_lib <==> exists|i: int|
            0 <= i < parts.targets@.len() && (#[trigger] parts.targets@[i]).kind == TargetKind::Lib,
        forall|i: int|
            0 <= i < parts.targets@.len() && (#[trigger] parts.targets@[i]).kind == TargetKind::Lib
                ==> projected(parts, crate_sha256, opts, workspace).is_lib,
{
}

proof fn lemma_without_dev_is_filter(deps: Seq<DepModel>)
    ensures
        without_dev(deps) == deps.filter(|d: DepModel| !(d.kind is Dev)),
    decreases deps.len(),
{
    reveal(Seq::filter);
    if deps.len() > 0 {
        lemma_without_dev_is_filter(deps.drop_last());
    }
}

/// Without the option to include dev-dependencies, the model lists exactly
/// the dependencies that are not dev-dependencies, optional or not, in their
/// order; with it, every dependency.
pub proof fn lemma_kept_dependencies_are_non_dev(
    parts: CrateParts,
    crate_sha256: Option<String>,
    opts: LoadOptions,
    workspace: Option<tempfile::TempDir>,
)
    ensures
        !opts.include_dev_dependencies ==> projected(parts, crate_sha256, opts, workspace).dependencies
            == parts.dependencies@.filter(|d: DepModel| !(d.kind is Dev)),
        opts.include_dev_dependencies ==> projected(parts, crate_sha256, opts, workspace).dependencies
            == parts.dependencies@,
        forall|d: DepModel|
            parts.dependencies@.contains(d) && !(d.kind is Dev) ==> #[trigger] projected(
                parts,
                crate_sha256,
                opts,
                workspace,
            ).dependencies.contains(d),
{
    lemma_without_dev_is_filter(parts.dependencies@);
    let deps = parts.dependencies@;
    let pred = |d: DepModel| !(d.kind is Dev);
    assert forall|d: DepModel|
        deps.contains(d) && !(d.kind is Dev) implies #[trigger] projected(
            parts,
            crate_sha256,
            opts,
            workspace,
        ).dependencies.contains(d) by {
        if !opts.include_dev_dependencies {
            deps.filter_lemma(pred);
            let i = choose|i: int| 0 <= i < deps.len() && deps[i] == d;
            assert(pred(deps[i]));
        }
    }
}

} // verus!
