use takopack::source::Source;
use takopack::text::trim_str;
use takopack::model::DepKind;
use takopack::version::VersionNumbers;
use takopack::{Error, LoadFailure};
use takopack::{
    project, select_source, CrateMetadata, CrateParts, DepModel, FeatureGraph, FeatureNode,
    LoadOptions,
    TargetKind, TargetModel,
};

#[test]
fn load_options_default() {
    let o = LoadOptions::default();
    assert!(!o.include_dev_dependencies);
    assert!(o.compute_sha256);
    assert!(o.excludes.is_none());
    assert!(o.includes.is_none());
    assert!(o.lockfile_deps.is_none());
}

#[test]
fn inspect_source_selection() {
    match select_source("serde", true, Some("1".to_string()), false) {
        Source::Registry(s) => {
            assert_eq!(s.name, "serde");
            assert_eq!(s.version.as_deref(), Some("1"));
        }
        _ => panic!("expected a registry source"),
    }
    match select_source("x/Cargo.toml", false, None, true) {
        Source::Manifest(s) => assert_eq!(s.path, "x/Cargo.toml"),
        _ => panic!("expected a manifest source"),
    }
    match select_source("x/Cargo.toml", false, None, false) {
        Source::LocalPath(s) => {
            assert_eq!(s.path, "x/Cargo.toml");
            assert!(s.name.is_none());
        }
        _ => panic!("expected a local source"),
    }
    assert!(matches!(select_source("x", false, None, true), Source::LocalPath(_)));
}

#[test]
fn trim_removes_unicode_whitespace() {
    assert_eq!(trim_str("\u{3000} a b \t\n"), "a b");
    assert_eq!(trim_str("   "), "");
    assert_eq!(trim_str(""), "");
}

fn parts(targets: Vec<TargetModel>) -> CrateParts {
    let mut features = FeatureGraph::new();
    features.insert(
        "default".to_string(),
        FeatureNode {
            feature_deps: vec![],
            crate_deps: vec!["serde".to_string()],
        },
    );
    CrateParts {
        name: "demo".to_string(),
        version: numbers(0, 3, 1, "", ""),
        metadata: CrateMetadata::default(),
        targets,
        binary_targets: vec![],
        rust_version: None,
        checksum: Some("abc".to_string()),
        dependencies: vec![],
        features,
    }
}

fn target(name: &str, kind: TargetKind) -> TargetModel {
    TargetModel {
        name: name.to_string(),
        kind,
        src_path: None,
    }
}

#[test]
fn model_projection_detects_library_and_keeps_sha256() {
    let m = project(
        parts(vec![target("tool", TargetKind::Bin), target("demo", TargetKind::Lib)]),
        Some("feed".to_string()),
        LoadOptions::default(),
        None,
    );
    assert!(m.is_lib);
    assert_eq!(m.sha256.as_deref(), Some("feed"));
    assert_eq!(m.checksum.as_deref(), Some("abc"));
    assert_eq!(m.version, numbers(0, 3, 1, "", ""));
    assert_eq!(m.transitive_deps("default"), vec!["serde".to_string()]);
    assert_eq!(m.full_version, "0.3.1");
    assert_eq!(m.semver_compat, "0.3");
}

#[test]
fn model_projection_without_library_or_sha256() {
    let mut opts = LoadOptions::default();
    opts.compute_sha256 = false;
    let m = project(
        parts(vec![target("tool", TargetKind::Bin)]),
        Some("feed".to_string()),
        opts,
        None,
    );
    assert!(!m.is_lib);
    assert!(m.sha256.is_none());
    assert!(m.lockfile_deps.is_none());
}

fn dep(name: &str, kind: DepKind) -> DepModel {
    DepModel {
        toml_name: name.to_string(),
        package_name: name.to_string(),
        version_req: "1".to_string(),
        kind,
        optional: false,
        default_features: true,
        features: vec![],
        platform: None,
        runtime_candidate: kind != DepKind::Dev,
    }
}

fn parts_with_dev_dependencies() -> CrateParts {
    let mut p = parts(vec![target("demo", TargetKind::Lib)]);
    p.dependencies = vec![
        dep("serde", DepKind::Normal),
        dep("criterion", DepKind::Dev),
        dep("cc", DepKind::Build),
        dep("serde", DepKind::Dev),
    ];
    p.features.insert(
        "".to_string(),
        FeatureNode {
            feature_deps: vec![],
            crate_deps: vec!["serde".to_string(), "criterion".to_string(), "cc".to_string()],
        },
    );
    p
}

#[test]
fn dev_dependencies_leave_without_the_option() {
    let m = project(parts_with_dev_dependencies(), None, LoadOptions::default(), None);
    let names: Vec<(&str, DepKind)> = m
        .dependencies
        .iter()
        .map(|d| (d.package_name.as_str(), d.kind))
        .collect();
    assert_eq!(names, vec![("serde", DepKind::Normal), ("cc", DepKind::Build)]);
    let base = m.features.get("").unwrap();
    assert_eq!(base.crate_deps, vec!["serde".to_string(), "cc".to_string()]);
    assert_eq!(m.features.get("default").unwrap().crate_deps, vec!["serde".to_string()]);
    assert_eq!(m.transitive_deps(""), vec!["cc".to_string(), "serde".to_string()]);
}

#[test]
fn dev_dependencies_stay_with_the_option() {
    let mut opts = LoadOptions::default();
    opts.include_dev_dependencies = true;
    let m = project(parts_with_dev_dependencies(), None, opts, None);
    assert_eq!(m.dependencies.len(), 4);
    assert_eq!(m.dependencies[1].kind, DepKind::Dev);
    assert_eq!(
        m.features.get("").unwrap().crate_deps,
        vec!["serde".to_string(), "criterion".to_string(), "cc".to_string()]
    );
}

fn numbers(major: u64, minor: u64, patch: u64, pre: &str, build: &str) -> VersionNumbers {
    VersionNumbers {
        major,
        minor,
        patch,
        pre: pre.to_string(),
        build: build.to_string(),
    }
}

#[test]
fn compat_version_follows_the_documented_rule() {
    assert_eq!(numbers(1, 0, 210, "", "").compat_version(), "1");
    assert_eq!(numbers(12, 4, 0, "", "").compat_version(), "12");
    assert_eq!(numbers(0, 26, 3, "", "").compat_version(), "0.26");
    assert_eq!(numbers(0, 0, 7, "", "").compat_version(), "0.0.7");
    assert_eq!(numbers(0, 26, 0, "beta.1", "").compat_version(), "0.26.0-beta.1");
    assert_eq!(numbers(1, 2, 3, "", "build.5").compat_version(), "1");
}

#[test]
fn full_text_matches_semver_display() {
    for (n, text) in [
        (numbers(1, 0, 210, "", ""), "1.0.210"),
        (numbers(0, 26, 0, "beta.1", ""), "0.26.0-beta.1"),
        (numbers(10, 20, 30, "rc.1", "sha.5114f85"), "10.20.30-rc.1+sha.5114f85"),
        (numbers(0, 0, 0, "", "x"), "0.0.0+x"),
    ] {
        assert_eq!(n.full_text(), text);
        assert_eq!(semver::Version::parse(text).unwrap().to_string(), text);
    }
}

#[test]
fn model_versions_come_from_the_version() {
    let mut p = parts(vec![]);
    p.version = numbers(0, 26, 0, "beta.1", "");
    let m = project(p, None, LoadOptions::default(), None);
    assert_eq!(m.full_version, "0.26.0-beta.1");
    assert_eq!(m.semver_compat, "0.26.0-beta.1");
    let mut p = parts(vec![]);
    p.version = numbers(2, 1, 9, "", "");
    let m = project(p, None, LoadOptions::default(), None);
    assert_eq!(m.full_version, "2.1.9");
    assert_eq!(m.semver_compat, "2");
}

#[test]
fn backend_failures_are_reported_as_backend_errors() {
    let cases = vec![
        (
            LoadFailure::ParseDependency { name: "foo".to_string(), error: "bad".to_string() },
            "failed to parse dependency for foo: bad",
        ),
        (
            LoadFailure::LoadRegistry { name: "foo".to_string(), error: "offline".to_string() },
            "failed to load crate foo: offline",
        ),
        (
            LoadFailure::LoadLocal {
                name: "foo".to_string(),
                path: "/w/foo".to_string(),
                error: "no lib".to_string(),
            },
            "failed to load local crate path foo from /w/foo: no lib",
        ),
        (
            LoadFailure::LoadManifest { manifest: "/t/Cargo.toml".to_string(), error: "x".to_string() },
            "failed to load manifest from /t/Cargo.toml: x",
        ),
        (
            LoadFailure::FeatureGraph { error: "cycle".to_string() },
            "failed to compute feature graph: cycle",
        ),
    ];
    for (failure, text) in cases {
        match failure.into_error() {
            Error::Backend(m) => assert_eq!(m, text),
            other => panic!("unexpected {:?}", other),
        }
    }
}

#[test]
fn compat_key_begins_the_full_version() {
    for n in [
        numbers(1, 0, 210, "", ""),
        numbers(0, 26, 3, "", "b"),
        numbers(0, 0, 7, "", ""),
        numbers(0, 26, 0, "beta.1", ""),
    ] {
        assert!(n.full_text().starts_with(&n.compat_version()));
    }
}
