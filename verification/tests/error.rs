use takopack::Error;

#[test]
fn display_roundtrips_message() {
    let err = Error::message("boom");
    assert_eq!(err.to_string(), "boom");
}

#[test]
fn from_string_creates_message_variant() {
    let err: Error = "boom".into();
    assert!(matches!(err, Error::Message(_)));
}

#[test]
fn backend_error_displays_its_message() {
    let err = Error::backend("cargo failed");
    assert!(matches!(&err, Error::Backend(m) if m == "cargo failed"));
    assert_eq!(err.to_string(), "cargo failed");
    assert!(err.source().is_none());
}

#[test]
fn from_owned_string_is_a_message() {
    let err: Error = String::from("no manifest").into();
    assert!(matches!(&err, Error::Message(m) if m == "no manifest"));
    assert_eq!(err.to_string(), "no manifest");
}

#[test]
fn io_error_is_its_own_source() {
    let io = std::io::Error::new(std::io::ErrorKind::NotFound, "missing file");
    let err: Error = io.into();
    assert!(matches!(err, Error::Io(_)));
    assert_eq!(err.source().map(|e| e.kind()), Some(std::io::ErrorKind::NotFound));
    assert_eq!(err.to_string(), "missing file");
}
