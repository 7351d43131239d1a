use std::cmp::Ordering;

use takopack::pypi::find_release;
use takopack::digest::{check_sha256, require_published_digest, verify_sha256, VerifyError};
use takopack::pypi::{
    detect_extract_root, pick_release_file, pypi_json_url, FileDigest, PypiFetcher, PypiReleaseFile,
};

fn file(name: &str, kind: &str, yanked: bool, time: &str) -> PypiReleaseFile {
    PypiReleaseFile {
        filename: name.to_string(),
        packagetype: kind.to_string(),
        yanked,
        upload_time_iso_8601: time.to_string(),
        url: format!("https://files.example/{}", name),
        digests: FileDigest {
            sha256: String::new(),
        },
    }
}

#[test]
fn fetcher_defaults_and_options() {
    let mut f = PypiFetcher::new("requests", None);
    assert_eq!(f.name(), "requests");
    assert_eq!(f.temp_root(), ".");
    assert_eq!(f.chosen_version("2.32.3"), "2.32.3");
    f.temp_dir("/tmp/build");
    assert_eq!(f.temp_root(), "/tmp/build");
    let g = PypiFetcher::new("requests", Some("2.31.0"));
    assert_eq!(g.chosen_version("2.32.3"), "2.31.0");
}

#[test]
fn release_files_order_by_format_then_time() {
    let tgz = file("a-1.tgz", "sdist", false, "2024-05-01T00:00:00Z");
    let targz = file("a-1.tar.gz", "sdist", false, "2023-01-01T00:00:00Z");
    let zip = file("a-1.zip", "sdist", false, "2025-01-01T00:00:00Z");
    assert_eq!(targz.cmp(&tgz), Ordering::Greater);
    assert_eq!(tgz.cmp(&zip), Ordering::Greater);
    assert_eq!(zip.cmp(&targz), Ordering::Less);
    let later = file("a-2.tar.gz", "sdist", false, "2024-01-01T00:00:00Z");
    assert_eq!(targz.cmp(&later), Ordering::Less);
    assert_eq!(later.partial_cmp(&later), Some(Ordering::Equal));
}

#[test]
fn pick_prefers_tar_gz_and_latest_upload() {
    let files = vec![
        file("a-1.zip", "sdist", false, "2025-01-01T00:00:00Z"),
        file("a-1.tar.gz", "sdist", false, "2023-01-01T00:00:00Z"),
        file("a-1-py3-none-any.whl", "bdist_wheel", false, "2026-01-01T00:00:00Z"),
        file("a-1.post1.tar.gz", "sdist", false, "2023-06-01T00:00:00Z"),
        file("a-1.post2.tar.gz", "sdist", true, "2024-01-01T00:00:00Z"),
        file("a-1.tgz", "sdist", false, "2026-01-01T00:00:00Z"),
    ];
    let picked = pick_release_file(files).unwrap();
    assert_eq!(picked.filename, "a-1.post1.tar.gz");
}

#[test]
fn pick_without_sdist_is_none() {
    let files = vec![
        file("a-1-py3-none-any.whl", "bdist_wheel", false, "2026-01-01T00:00:00Z"),
        file("a-1.tar.gz", "sdist", true, "2023-01-01T00:00:00Z"),
    ];
    assert!(pick_release_file(files).is_none());
    assert!(pick_release_file(Vec::new()).is_none());
}

const ABC_SHA256: &str = "ba7816bf8f01cfea414140de5dae2223b00361a396177a9cb410ff61f20015ad";

#[test]
fn digest_of_data_is_checked() {
    assert!(verify_sha256(b"abc", ABC_SHA256).is_ok());
    assert!(verify_sha256(b"abc", &format!("  {}\n", ABC_SHA256.to_uppercase())).is_ok());
    match verify_sha256(b"abd", ABC_SHA256) {
        Err(VerifyError::Sha256MisMatch(m)) => {
            assert!(m.starts_with(&format!("sha256 mismatch: expected {}, got ", ABC_SHA256)));
            assert!(!m.ends_with(ABC_SHA256));
        }
        other => panic!("unexpected: {:?}", other),
    }
}

#[test]
fn digest_check_messages() {
    assert!(matches!(check_sha256(" \t", "00"), Err(VerifyError::EmptySha256)));
    match check_sha256(" AB ", "cd") {
        Err(VerifyError::Sha256MisMatch(m)) => assert_eq!(m, "sha256 mismatch: expected AB, got cd"),
        other => panic!("unexpected: {:?}", other),
    }
    assert!(check_sha256("AbC", "abc").is_ok());
    assert!(check_sha256("abc", "abcd").is_err());
}

#[test]
fn extract_root_is_the_single_directory() {
    assert_eq!(
        detect_extract_root(vec!["/t/extract/a-1".to_string()], "/t/extract".to_string()),
        "/t/extract/a-1"
    );
    assert_eq!(
        detect_extract_root(
            vec!["/t/extract/a".to_string(), "/t/extract/b".to_string()],
            "/t/extract".to_string()
        ),
        "/t/extract"
    );
    assert_eq!(detect_extract_root(vec![], "/t/extract".to_string()), "/t/extract");
}

#[test]
fn json_address_names_the_package() {
    assert_eq!(pypi_json_url("requests"), "https://pypi.org/pypi/requests/json");
}

#[test]
fn empty_published_digest_is_refused_first() {
    assert!(matches!(require_published_digest(" \n\t"), Err(VerifyError::EmptySha256)));
    assert!(matches!(require_published_digest(""), Err(VerifyError::EmptySha256)));
    assert!(require_published_digest(" ab ").is_ok());
}

#[test]
fn release_lookup_finds_the_listed_version() {
    let versions = vec!["1.0".to_string(), "2.0".to_string(), "2.0rc1".to_string()];
    assert_eq!(find_release(&versions, "2.0"), Some(1));
    assert_eq!(find_release(&versions, "2.0rc1"), Some(2));
    assert_eq!(find_release(&versions, "3.0"), None);
    assert_eq!(find_release(&vec![], "1.0"), None);
}
