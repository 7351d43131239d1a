use takopack::{CrateSource, RegistrySource, Source};

#[test]
fn registry_describe_includes_version() {
    let src = RegistrySource {
        name: "foo".into(),
        version: Some("1.2".into()),
    };
    assert_eq!(src.describe(), "foo 1.2");
}

#[test]
fn source_newtype_forwards_describe() {
    let src = Source::Registry(RegistrySource {
        name: "foo".into(),
        version: None,
    });
    assert_eq!(src.describe(), "foo (latest)");
}

use takopack::source::{
    read_package_name, LocalPrepare, LocalStep, PrepareReply, PrepareRequest, PreparedSource,
};
use takopack::{Error, LocalPathSource, ManifestSource};

#[test]
fn local_and_manifest_describe_their_path() {
    let local: Source = LocalPathSource {
        path: "/src/foo".to_string(),
        name: None,
        version: None,
    }
    .into();
    assert_eq!(local.describe(), "/src/foo");
    let manifest: Source = ManifestSource {
        path: "/src/foo/Cargo.toml".to_string(),
    }
    .into();
    assert!(matches!(manifest, Source::Manifest(_)));
    assert_eq!(manifest.describe(), "/src/foo/Cargo.toml");
}

#[test]
fn registry_prepare_keeps_name_and_version() {
    let src = RegistrySource {
        name: "serde".to_string(),
        version: Some("1".to_string()),
    };
    match src.prepare() {
        Ok(PreparedSource::Registry { name, version }) => {
            assert_eq!(name, "serde");
            assert_eq!(version.as_deref(), Some("1"));
        }
        _ => panic!("expected a registry source"),
    }
}

#[test]
fn package_name_is_read_from_manifest() {
    let name = read_package_name("/x/Cargo.toml", "[package]\nname = \"foo\"\nversion = \"0.1.0\"\n");
    assert_eq!(name.ok().as_deref(), Some("foo"));
}

#[test]
fn manifest_without_name_is_reported() {
    match read_package_name("/x/Cargo.toml", "[workspace]\nmembers = []\n") {
        Err(Error::Message(m)) => assert_eq!(m, "no [package].name found in /x/Cargo.toml"),
        other => panic!("unexpected: {:?}", other),
    }
}

#[test]
fn unparsable_manifest_is_reported() {
    match read_package_name("/x/Cargo.toml", "[package\nname = ") {
        Err(Error::Message(m)) => assert!(m.starts_with("failed to parse /x/Cargo.toml: ")),
        other => panic!("unexpected: {:?}", other),
    }
}

fn finish(step: LocalStep) -> Result<PreparedSource, Error> {
    match step {
        LocalStep::Finished(r) => r,
        LocalStep::Ask(_, request) => panic!("unexpected request {:?}", request),
    }
}

#[test]
fn local_prepare_reads_name_from_manifest() {
    let src = LocalPathSource {
        path: "foo".to_string(),
        name: None,
        version: Some("0.3".to_string()),
    };
    let step = src.prepare_begin();
    let (state, request) = match step {
        LocalStep::Ask(s, r) => (s, r),
        LocalStep::Finished(_) => panic!("expected a request"),
    };
    assert!(matches!(&request, PrepareRequest::Canonicalize(p) if p == "foo"));
    let step = src.prepare_next(state, PrepareReply::Canonicalized(Ok("/work/foo".to_string())));
    let (state, request) = match step {
        LocalStep::Ask(s, r) => (s, r),
        LocalStep::Finished(_) => panic!("expected a request"),
    };
    assert!(matches!(&request, PrepareRequest::CheckExists(p) if p == "/work/foo/Cargo.toml"));
    let step = src.prepare_next(state, PrepareReply::Exists(true));
    let (state, request) = match step {
        LocalStep::Ask(s, r) => (s, r),
        LocalStep::Finished(_) => panic!("expected a request"),
    };
    assert!(matches!(&request, PrepareRequest::ReadToString(p) if p == "/work/foo/Cargo.toml"));
    assert!(matches!(&state, LocalPrepare::AwaitContents { .. }));
    let done = finish(src.prepare_next(
        state,
        PrepareReply::Contents(Ok("[package]\nname = \"foo-rs\"\n".to_string())),
    ));
    match done {
        Ok(PreparedSource::LocalPath {
            name,
            version,
            path,
        }) => {
            assert_eq!(name, "foo-rs");
            assert_eq!(version.as_deref(), Some("0.3"));
            assert_eq!(path, "/work/foo");
        }
        _ => panic!("expected a local source"),
    }
}

#[test]
fn local_prepare_with_given_name_does_not_read() {
    let src = LocalPathSource {
        path: "bar".to_string(),
        name: Some("bar".to_string()),
        version: None,
    };
    let step = src.prepare_next(
        LocalPrepare::AwaitManifest {
            dir: "/work/bar/".to_string(),
            manifest: "/work/bar/Cargo.toml".to_string(),
        },
        PrepareReply::Exists(true),
    );
    match finish(step) {
        Ok(PreparedSource::LocalPath { name, version, path }) => {
            assert_eq!(name, "bar");
            assert!(version.is_none());
            assert_eq!(path, "/work/bar/");
        }
        _ => panic!("expected a local source"),
    }
}

#[test]
fn local_prepare_errors_carry_messages() {
    let src = LocalPathSource {
        path: "gone".to_string(),
        name: None,
        version: None,
    };
    let step = src.prepare_next(
        LocalPrepare::AwaitCanonical,
        PrepareReply::Canonicalized(Err("No such file or directory".to_string())),
    );
    match finish(step) {
        Err(Error::Message(m)) => {
            assert_eq!(m, "failed to resolve path gone: No such file or directory")
        }
        _ => panic!("expected an error"),
    }
    let step = src.prepare_next(
        LocalPrepare::AwaitManifest {
            dir: "/work/gone".to_string(),
            manifest: "/work/gone/Cargo.toml".to_string(),
        },
        PrepareReply::Exists(false),
    );
    match finish(step) {
        Err(Error::Message(m)) => assert_eq!(m, "Cargo.toml not found in: /work/gone"),
        _ => panic!("expected an error"),
    }
    let step = src.prepare_next(
        LocalPrepare::AwaitContents {
            dir: "/work/gone".to_string(),
            manifest: "/work/gone/Cargo.toml".to_string(),
        },
        PrepareReply::Contents(Err("permission denied".to_string())),
    );
    match finish(step) {
        Err(Error::Message(m)) => {
            assert_eq!(m, "failed to read /work/gone/Cargo.toml: permission denied")
        }
        _ => panic!("expected an error"),
    }
}

use takopack::source::{ManifestPrepare, ManifestReply, ManifestRequest, ManifestStep};

fn manifest_ask(step: ManifestStep) -> (ManifestPrepare, ManifestRequest) {
    match step {
        ManifestStep::Ask(s, r) => (s, r),
        ManifestStep::Finished(_) => panic!("expected a request"),
    }
}

fn manifest_done(step: ManifestStep) -> Result<PreparedSource, Error> {
    match step {
        ManifestStep::Finished(r) => r,
        ManifestStep::Ask(_, request) => panic!("unexpected request {:?}", request),
    }
}

#[test]
fn manifest_prepare_materializes_into_workspace() {
    let src = ManifestSource {
        path: "x/Cargo.toml".to_string(),
    };
    let (state, request) = manifest_ask(src.prepare_begin());
    assert!(matches!(&request, ManifestRequest::Canonicalize(p) if p == "x/Cargo.toml"));
    let (state, request) = manifest_ask(src.prepare_next(
        state,
        ManifestReply::Canonicalized(Ok("/w/x/Cargo.toml".to_string())),
    ));
    assert!(matches!(&request, ManifestRequest::IsFile(p) if p == "/w/x/Cargo.toml"));
    let (state, request) = manifest_ask(src.prepare_next(state, ManifestReply::IsFile(true)));
    assert!(matches!(request, ManifestRequest::CreateWorkspace));
    let dir = tempfile::tempdir().unwrap();
    let dir_path = dir.path().display().to_string();
    let (state, request) = manifest_ask(src.prepare_next(
        state,
        ManifestReply::WorkspaceCreated(Ok((dir, dir_path.clone()))),
    ));
    match &request {
        ManifestRequest::Materialize { manifest, workspace } => {
            assert_eq!(manifest, "/w/x/Cargo.toml");
            assert_eq!(workspace, &dir_path);
        }
        other => panic!("unexpected request {:?}", other),
    }
    let materialized = format!("{}/Cargo.toml", dir_path);
    match manifest_done(src.prepare_next(state, ManifestReply::Materialized(Ok(materialized.clone())))) {
        Ok(PreparedSource::Manifest { manifest, workspace }) => {
            assert_eq!(manifest, materialized);
            assert_eq!(workspace.path().display().to_string(), dir_path);
        }
        _ => panic!("expected a manifest source"),
    }
}

#[test]
fn manifest_prepare_refuses_other_files() {
    let src = ManifestSource {
        path: "notes.txt".to_string(),
    };
    match manifest_done(src.prepare_next(
        ManifestPrepare::AwaitCanonical,
        ManifestReply::Canonicalized(Ok("/w/notes.txt".to_string())),
    )) {
        Err(Error::Message(m)) => assert_eq!(m, "manifest source must be a Cargo.toml file: /w/notes.txt"),
        _ => panic!("expected an error"),
    }
    match manifest_done(src.prepare_next(
        ManifestPrepare::AwaitIsFile {
            manifest: "/w/dir.toml".to_string(),
        },
        ManifestReply::IsFile(false),
    )) {
        Err(Error::Message(m)) => assert_eq!(m, "manifest source must be a Cargo.toml file: /w/dir.toml"),
        _ => panic!("expected an error"),
    }
}

#[test]
fn manifest_prepare_errors_carry_messages() {
    let src = ManifestSource {
        path: "gone.toml".to_string(),
    };
    match manifest_done(src.prepare_next(
        ManifestPrepare::AwaitCanonical,
        ManifestReply::Canonicalized(Err("No such file or directory".to_string())),
    )) {
        Err(Error::Message(m)) => assert_eq!(m, "failed to resolve path gone.toml: No such file or directory"),
        _ => panic!("expected an error"),
    }
    match manifest_done(src.prepare_next(
        ManifestPrepare::AwaitWorkspace {
            manifest: "/w/Cargo.toml".to_string(),
        },
        ManifestReply::WorkspaceCreated(Err("disk full".to_string())),
    )) {
        Err(Error::Message(m)) => assert_eq!(m, "failed to create temporary crate directory: disk full"),
        _ => panic!("expected an error"),
    }
    match manifest_done(src.prepare_next(
        ManifestPrepare::AwaitMaterialized {
            manifest: "/w/Cargo.toml".to_string(),
            workspace: tempfile::tempdir().unwrap(),
        },
        ManifestReply::Materialized(Err("bad path".to_string())),
    )) {
        Err(Error::Backend(m)) => assert_eq!(m, "failed to materialize manifest from /w/Cargo.toml: bad path"),
        _ => panic!("expected a backend error"),
    }
}
