use takopack::local::{Local, LocalError, PathProbe};
use takopack::paths::{join_path, last_component_is, path_has_extension};

fn probe(is_file: bool, is_dir: bool, manifest_is_file: bool) -> PathProbe {
    PathProbe {
        is_file,
        is_dir,
        manifest_is_file,
    }
}

#[test]
fn manifest_file_is_taken_as_is() {
    let l = Local::new("proj/Cargo.toml".to_string(), probe(true, false, false)).ok().unwrap();
    assert_eq!(l.path(), "proj/Cargo.toml");
}

#[test]
fn directory_with_manifest_is_joined() {
    let l = Local::new("proj".to_string(), probe(false, true, true)).ok().unwrap();
    assert_eq!(l.path(), "proj/Cargo.toml");
    let l = Local::new("proj/".to_string(), probe(false, true, true)).ok().unwrap();
    assert_eq!(l.path(), "proj/Cargo.toml");
}

#[test]
fn other_paths_are_refused() {
    assert!(matches!(
        Local::new("proj".to_string(), probe(false, true, false)),
        Err(LocalError::Path)
    ));
    assert!(matches!(
        Local::new("proj/other.toml".to_string(), probe(true, false, false)),
        Err(LocalError::Path)
    ));
    assert!(matches!(
        Local::new("missing".to_string(), probe(false, false, false)),
        Err(LocalError::Path)
    ));
}

#[test]
fn manifest_candidate_joins_file_name() {
    assert_eq!(Local::manifest_candidate(""), "Cargo.toml");
    assert_eq!(Local::manifest_candidate("/"), "/Cargo.toml");
    assert_eq!(Local::manifest_candidate("a/b"), "a/b/Cargo.toml");
}

#[test]
fn last_component_follows_path_components() {
    assert!(last_component_is("a/Cargo.toml", "Cargo.toml"));
    assert!(last_component_is("a/Cargo.toml/", "Cargo.toml"));
    assert!(last_component_is("a/Cargo.toml/.", "Cargo.toml"));
    assert!(last_component_is("./Cargo.toml", "Cargo.toml"));
    assert!(!last_component_is("a/xCargo.toml", "Cargo.toml"));
    assert!(!last_component_is("Cargo.toml/a", "Cargo.toml"));
}

#[test]
fn extension_follows_std_path() {
    assert!(path_has_extension("a/Cargo.toml", "toml"));
    assert!(path_has_extension("..toml", "toml"));
    assert!(!path_has_extension(".toml", "toml"));
    assert!(!path_has_extension("toml", "toml"));
    assert!(!path_has_extension("a.toml/b", "toml"));
    assert!(path_has_extension("a/b.toml/", "toml"));
    assert_eq!(join_path("x", "y"), "x/y");
}
