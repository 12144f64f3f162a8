//! Conditional retrieval, path computation, the response classifiers, and
//! the header helpers.

use axum_cargo_registry::crate_utils::crate_name_to_index;
use axum_cargo_registry::digest::sha256_hex;
use axum_cargo_registry::header_util::{get_if_none_match, get_modified_since, should_send_full,
    to_modified};
use axum_cargo_registry::registory_storage::local::{local_read_response, LocalReadOutcome,
    LocalStorage};
use axum_cargo_registry::registory_storage::memory::MemoryStorage;
use axum_cargo_registry::registory_storage::s3::{presign_response, PresignOutcome,
    StorageConfig};
use axum_cargo_registry::registory_storage::{FileResponse, RegistryError, RegistryStorage};
use axum_cargo_registry::api::publish::Package;
use axum_cargo_registry::api::ErrorResponse;
use axum_cargo_registry::{App, Config};

fn bytes(s: &str) -> Vec<u8> {
    s.as_bytes().to_vec()
}

const EPOCH_RFC2822: &str = "Thu, 01 Jan 1970 00:00:00 +0000";

#[test]
fn sharding_rule() {
    assert_eq!(crate_name_to_index(&bytes("a")), bytes("1/a"));
    assert_eq!(crate_name_to_index(&bytes("ab")), bytes("2/ab"));
    assert_eq!(crate_name_to_index(&bytes("abc")), bytes("3/a/abc"));
    assert_eq!(crate_name_to_index(&bytes("demo")), bytes("de/mo/demo"));
    assert_eq!(crate_name_to_index(&bytes("serde-json")), bytes("se/rd/serde-json"));
}

#[test]
fn checksum_of_abc() {
    assert_eq!(
        sha256_hex(&b"abc".to_vec()),
        bytes("ba7816bf8f01cfea414140de5dae2223b00361a396177a9cb410ff61f20015ad")
    );
}

#[test]
fn checksum_of_empty_input() {
    assert_eq!(
        sha256_hex(&Vec::new()),
        bytes("e3b0c44298fc1c149afbf4c8996fb92427ae41e4649b934ca495991b7852b855")
    );
}

#[test]
fn conditional_retrieval_on_stored_blob() {
    let mut storage = MemoryStorage::new();
    storage.put_crate(&bytes("demo"), &bytes("1.0.0"), b"abc").expect("stored");
    // The in-memory clock starts at zero, so the blob's mtime is zero.

    // No condition: full content with Last-Modified.
    match storage.get_crate_file(None, &bytes("demo"), &bytes("1.0.0")) {
        FileResponse::Content { body, last_modified } => {
            assert_eq!(body, b"abc".to_vec());
            assert_eq!(last_modified.as_deref(), Some(EPOCH_RFC2822));
        }
        _ => panic!("expected content"),
    }

    // Condition at the modification time: not modified.
    match storage.get_crate_file(Some(0), &bytes("demo"), &bytes("1.0.0")) {
        FileResponse::NotModified => {}
        _ => panic!("expected not modified"),
    }

    // Condition after the modification time: not modified.
    match storage.get_crate_file(Some(100), &bytes("demo"), &bytes("1.0.0")) {
        FileResponse::NotModified => {}
        _ => panic!("expected not modified"),
    }

    // Condition strictly before the modification time: full content.
    match storage.get_crate_file(Some(-5), &bytes("demo"), &bytes("1.0.0")) {
        FileResponse::Content { body, .. } => assert_eq!(body, b"abc".to_vec()),
        _ => panic!("expected content"),
    }

    // Unknown blob: not found.
    match storage.get_crate_file(None, &bytes("demo"), &bytes("2.0.0")) {
        FileResponse::NotFound => {}
        _ => panic!("expected not found"),
    }
}

#[test]
fn index_file_is_served_and_cacheable() {
    let mut app = App::new(Config::new(bytes("http://localhost:3000")), MemoryStorage::new());
    let p = Package {
        name: bytes("demo"),
        vers: bytes("1.0.0"),
        deps: Vec::new(),
        features: Vec::new(),
        authors: Vec::new(),
        description: None,
        documentation: None,
        homepage: None,
        readme: None,
        readme_file: None,
        keywords: Vec::new(),
        categories: Vec::new(),
        license: None,
        license_file: None,
        repository: None,
        badges: Vec::new(),
        links: None,
        rust_version: None,
    };
    app.publish(p, b"abc".to_vec()).expect("published");
    let path = crate_name_to_index(&bytes("demo"));
    match app.registory_storage().get_index_file(None, &path) {
        FileResponse::Content { body, last_modified } => {
            let text = String::from_utf8(body).unwrap();
            assert!(text.ends_with('\n'));
            assert!(text.contains("\"vers\":\"1.0.0\""));
            assert!(last_modified.is_some());
        }
        _ => panic!("expected index content"),
    }
    match app.registory_storage().get_index_file(Some(1000), &path) {
        FileResponse::NotModified => {}
        _ => panic!("expected not modified"),
    }
    match app.registory_storage().get_index_file(None, &bytes("no/such/path")) {
        FileResponse::NotFound => {}
        _ => panic!("expected not found"),
    }
}

#[test]
fn conditional_decision_rule() {
    assert!(should_send_full(5, None));
    assert!(should_send_full(5, Some(4)));
    assert!(!should_send_full(5, Some(5)));
    assert!(!should_send_full(5, Some(6)));
}

#[test]
fn modified_since_parses_http_dates() {
    assert_eq!(get_modified_since(Some(EPOCH_RFC2822)), Some(0));
    assert_eq!(get_modified_since(Some("Thu, 01 Jan 1970 00:00:01 +0000")), Some(1));
    assert_eq!(get_modified_since(Some("not a date")), None);
    assert_eq!(get_modified_since(None), None);
}

#[test]
fn last_modified_formats_instants() {
    assert_eq!(to_modified(0).as_deref(), Some(EPOCH_RFC2822));
    // A formatted instant parses back to itself.
    let formatted = to_modified(1234567890).expect("representable instant");
    assert_eq!(get_modified_since(Some(&formatted)), Some(1234567890));
}

#[test]
fn if_none_match_is_passed_through() {
    assert_eq!(get_if_none_match(Some("\"etag-value\"")), Some("\"etag-value\"".to_string()));
    assert_eq!(get_if_none_match(None), None);
}

#[test]
fn local_read_classification() {
    match local_read_response(LocalReadOutcome::Read { data: b"abc".to_vec(), mtime: 7 }, None) {
        FileResponse::Content { body, .. } => assert_eq!(body, b"abc".to_vec()),
        _ => panic!("expected content"),
    }
    match local_read_response(
        LocalReadOutcome::Read { data: b"abc".to_vec(), mtime: 7 },
        Some(7),
    ) {
        FileResponse::NotModified => {}
        _ => panic!("expected not modified"),
    }
    match local_read_response(LocalReadOutcome::NotFound, None) {
        FileResponse::NotFound => {}
        _ => panic!("expected not found"),
    }
    match local_read_response(LocalReadOutcome::PermissionDenied, None) {
        FileResponse::NotFound => {}
        _ => panic!("expected not found"),
    }
    match local_read_response(
        LocalReadOutcome::OtherIo { detail: "disk on fire".to_string() },
        None,
    ) {
        FileResponse::Error { status, detail } => {
            assert_eq!(status, 500);
            assert_eq!(detail, "disk on fire");
        }
        _ => panic!("expected server error"),
    }
}

#[test]
fn local_paths() {
    let storage = LocalStorage::new(bytes("index"), bytes("crates"));
    assert_eq!(storage.index_file_path(&bytes("de/mo/demo")), bytes("index/de/mo/demo"));
    assert_eq!(
        storage.crate_file_path(&bytes("demo"), &bytes("1.0.0")),
        bytes("crates/demo/1.0.0.crate")
    );
}

#[test]
fn storage_config_normalizes_prefixes() {
    let config = StorageConfig::new(
        "index-bucket".to_string(),
        bytes("registry"),
        "crate-bucket".to_string(),
        bytes("blobs/"),
        900,
    );
    assert_eq!(config.index_prefix, bytes("registry/"));
    assert_eq!(config.crate_prefix, bytes("blobs/"));
    assert_eq!(config.presigned_expire, 900);

    let empty = StorageConfig::new(
        "i".to_string(),
        Vec::new(),
        "c".to_string(),
        Vec::new(),
        1,
    );
    assert_eq!(empty.index_prefix, Vec::<u8>::new());
    assert_eq!(empty.crate_prefix, Vec::<u8>::new());
}

#[test]
fn object_keys() {
    let config = StorageConfig::new(
        "i".to_string(),
        bytes("reg"),
        "c".to_string(),
        bytes("blobs"),
        60,
    );
    assert_eq!(config.index_object_key(&bytes("de/mo/demo")), bytes("reg/de/mo/demo"));
    assert_eq!(config.crate_object_key(&bytes("demo"), &bytes("1.0.0")), bytes("blobs/demo/1.0.0"));
}

#[test]
fn presign_classification() {
    match presign_response(PresignOutcome::Signed {
        uri: "https://signed.example/obj".to_string(),
        headers: vec![("x-amz-a".to_string(), "b".to_string())],
    }) {
        FileResponse::Redirect { uri, headers } => {
            assert_eq!(uri, "https://signed.example/obj");
            assert_eq!(headers.len(), 1);
        }
        _ => panic!("expected redirect"),
    }
    match presign_response(PresignOutcome::NoSuchKey) {
        FileResponse::NotFound => {}
        _ => panic!("expected not found"),
    }
    match presign_response(PresignOutcome::ResponseError {
        status: 503,
        body: "slow down".to_string(),
    }) {
        FileResponse::Error { status, detail } => {
            assert_eq!(status, 503);
            assert_eq!(detail, "slow down");
        }
        _ => panic!("expected forwarded status"),
    }
    match presign_response(PresignOutcome::Other { detail: "bad credentials".to_string() }) {
        FileResponse::Error { status, .. } => assert_eq!(status, 400),
        _ => panic!("expected bad request"),
    }
}

#[test]
fn error_status_codes() {
    assert_eq!(RegistryError::NotFound.status_code(), 404);
    assert_eq!(RegistryError::Duplicate.status_code(), 409);
    assert_eq!(RegistryError::MalformedData.status_code(), 400);
    assert_eq!(RegistryError::Other("x".to_string()).status_code(), 500);
}

#[test]
fn error_response_shape() {
    let r = ErrorResponse::from_error((500, RegistryError::Other("cause".to_string())));
    assert_eq!(r.status_code, 500);
    assert_eq!(r.errors.len(), 1);
    assert_eq!(r.errors[0].detail, "cause");
}

#[test]
fn registry_config_document() {
    let app = App::new(Config::new(bytes("http://localhost:3000")), MemoryStorage::new());
    assert_eq!(
        app.dl_name(),
        bytes("http://localhost:3000/crates/{crate}/{version}/download")
    );
    let config = app.index_config();
    assert!(config.has_api());
    let json = config.to_json();
    let value: serde_json::Value = serde_json::from_slice(&json).expect("valid JSON");
    assert_eq!(
        value.get("dl").unwrap().as_str().unwrap(),
        "http://localhost:3000/crates/{crate}/{version}/download"
    );
    assert_eq!(value.get("api").unwrap().as_str().unwrap(), "http://localhost:3000");
}
