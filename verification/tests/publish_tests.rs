//! The publish pipeline: framing, the feature split, duplicate rejection,
//! blob immutability, and the end-to-end scenario over the in-memory
//! backend.

use axum_cargo_registry::api::publish::{parse_publish_data, Package};
use axum_cargo_registry::index::FeatureEntry;
use axum_cargo_registry::registory_storage::memory::MemoryStorage;
use axum_cargo_registry::registory_storage::{FileResponse, RegistryError, RegistryStorage};
use axum_cargo_registry::{App, Config};

fn bytes(s: &str) -> Vec<u8> {
    s.as_bytes().to_vec()
}

fn package(name: &str, vers: &str, features: Vec<FeatureEntry>) -> Package {
    Package {
        name: bytes(name),
        vers: bytes(vers),
        deps: Vec::new(),
        features,
        authors: Vec::new(),
        description: Some(bytes("a demonstration package")),
        documentation: None,
        homepage: None,
        readme: None,
        readme_file: None,
        keywords: Vec::new(),
        categories: Vec::new(),
        license: Some(bytes("MIT")),
        license_file: None,
        repository: None,
        badges: Vec::new(),
        links: None,
        rust_version: None,
    }
}

fn new_app() -> App<MemoryStorage> {
    App::new(Config::new(bytes("http://localhost:3000")), MemoryStorage::new())
}

const ABC_SHA256: &str = "ba7816bf8f01cfea414140de5dae2223b00361a396177a9cb410ff61f20015ad";

#[test]
fn feature_split_keeps_plain_features() {
    let features = vec![FeatureEntry { name: bytes("std"), values: vec![bytes("serde/std")] }];
    let (plain, moved) = Package::features_selector(features);
    assert_eq!(plain.len(), 1);
    assert_eq!(plain[0].name, bytes("std"));
    assert!(moved.is_none());
}

#[test]
fn feature_split_moves_weak_dependency_values() {
    let features = vec![
        FeatureEntry { name: bytes("std"), values: vec![bytes("serde/std")] },
        FeatureEntry { name: bytes("weak"), values: vec![bytes("dep:serde")] },
    ];
    let (plain, moved) = Package::features_selector(features);
    assert!(plain.is_empty());
    let moved = moved.expect("whole table moves");
    assert_eq!(moved.len(), 2);
    assert_eq!(moved[0].name, bytes("std"));
    assert_eq!(moved[1].values[0], bytes("dep:serde"));
}

#[test]
fn feature_split_moves_conditional_values() {
    let features = vec![FeatureEntry { name: bytes("extra"), values: vec![bytes("pkg?/feat")] }];
    let (plain, moved) = Package::features_selector(features);
    assert!(plain.is_empty());
    assert!(moved.is_some());
}

#[test]
fn feature_split_is_coarse_about_the_dep_prefix() {
    // The rule is a literal prefix test, so a value merely beginning with
    // the letters `dep` also moves the table.
    let features = vec![FeatureEntry { name: bytes("x"), values: vec![bytes("depot")] }];
    let (plain, moved) = Package::features_selector(features);
    assert!(plain.is_empty());
    assert!(moved.is_some());
}

#[test]
fn into_index_records_the_version() {
    let p = package("demo", "1.0.0", Vec::new());
    let entry = p.into_index(bytes(ABC_SHA256));
    assert_eq!(entry.name, bytes("demo"));
    assert_eq!(entry.vers, bytes("1.0.0"));
    assert_eq!(entry.cksum, bytes(ABC_SHA256));
    assert_eq!(entry.v, 2);
    assert!(!entry.yanked);
    assert!(entry.features2.is_none());
}

fn frame(meta: &[u8], blob: &[u8]) -> Vec<u8> {
    let mut data = Vec::new();
    data.extend_from_slice(&(meta.len() as u32).to_le_bytes());
    data.extend_from_slice(meta);
    data.extend_from_slice(&(blob.len() as u32).to_le_bytes());
    data.extend_from_slice(blob);
    data
}

#[test]
fn framing_splits_metadata_and_crate_bytes() {
    let data = frame(b"{\"name\":\"demo\"}", b"abc");
    let (meta, blob) = parse_publish_data(&data).expect("well-formed frame");
    assert_eq!(meta, b"{\"name\":\"demo\"}".to_vec());
    assert_eq!(blob, b"abc".to_vec());
}

#[test]
fn framing_ignores_trailing_bytes() {
    let mut data = frame(b"meta", b"blob");
    data.extend_from_slice(b"trailing junk");
    let (meta, blob) = parse_publish_data(&data).expect("trailing bytes are ignored");
    assert_eq!(meta, b"meta".to_vec());
    assert_eq!(blob, b"blob".to_vec());
}

#[test]
fn framing_rejects_truncated_prefix() {
    assert!(matches!(
        parse_publish_data(&b"\x05\x00".to_vec()),
        Err(RegistryError::MalformedData)
    ));
    assert!(matches!(parse_publish_data(&Vec::new()), Err(RegistryError::MalformedData)));
}

#[test]
fn framing_rejects_overlong_metadata_length() {
    // Declared metadata length exceeds the buffer.
    let data = vec![255u8, 255, 255, 255, b'x'];
    assert!(matches!(parse_publish_data(&data), Err(RegistryError::MalformedData)));
}

#[test]
fn framing_rejects_missing_crate_prefix() {
    let mut data = Vec::new();
    data.extend_from_slice(&4u32.to_le_bytes());
    data.extend_from_slice(b"meta");
    data.extend_from_slice(&[0u8, 0]);
    assert!(matches!(parse_publish_data(&data), Err(RegistryError::MalformedData)));
}

#[test]
fn framing_rejects_overlong_crate_length() {
    let mut data = Vec::new();
    data.extend_from_slice(&4u32.to_le_bytes());
    data.extend_from_slice(b"meta");
    data.extend_from_slice(&100u32.to_le_bytes());
    data.extend_from_slice(b"short");
    assert!(matches!(parse_publish_data(&data), Err(RegistryError::MalformedData)));
}

#[test]
fn publish_end_to_end() {
    let mut app = new_app();
    let outcome = app.publish(package("demo", "1.0.0", Vec::new()), b"abc".to_vec());
    let response = outcome.expect("first publish succeeds");
    assert!(response.warnings.other.is_empty());

    let entries = app
        .registory_storage()
        .get_index_data(&bytes("demo"))
        .expect("index is readable")
        .expect("index file exists");
    assert_eq!(entries.len(), 1);
    assert_eq!(entries[0].cksum, bytes(ABC_SHA256));
    assert_eq!(entries[0].v, 2);
    assert_eq!(entries[0].vers, bytes("1.0.0"));

    match app.registory_storage().get_crate_file(None, &bytes("demo"), &bytes("1.0.0")) {
        FileResponse::Content { body, last_modified } => {
            assert_eq!(body, b"abc".to_vec());
            assert!(last_modified.is_some());
        }
        _ => panic!("published crate must be downloadable"),
    }
}

#[test]
fn publish_rejects_duplicate_version() {
    let mut app = new_app();
    app.publish(package("demo", "1.0.0", Vec::new()), b"abc".to_vec())
        .expect("first publish succeeds");
    let again = app.publish(package("demo", "1.0.0", Vec::new()), b"abc".to_vec());
    let err = again.err().expect("second publish of the same version is rejected");
    assert_eq!(err.status_code, 409);
    assert_eq!(err.errors[0].detail, "Duplicate");

    // Never two stored entries for the same version.
    let entries = app
        .registory_storage()
        .get_index_data(&bytes("demo"))
        .unwrap()
        .unwrap();
    assert_eq!(entries.len(), 1);
}

#[test]
fn publish_rejects_duplicate_version_with_different_bytes() {
    let mut app = new_app();
    app.publish(package("demo", "1.0.0", Vec::new()), b"abc".to_vec())
        .expect("first publish succeeds");
    let again = app.publish(package("demo", "1.0.0", Vec::new()), b"other bytes".to_vec());
    assert_eq!(again.err().expect("duplicate is rejected").status_code, 409);
}

#[test]
fn publish_rejects_empty_package_name() {
    let mut app = new_app();
    let outcome = app.publish(package("", "1.0.0", Vec::new()), b"abc".to_vec());
    assert_eq!(outcome.err().expect("empty name is malformed").status_code, 400);
}

#[test]
fn publish_keeps_other_packages_apart() {
    let mut app = new_app();
    app.publish(package("one", "1.0.0", Vec::new()), b"first".to_vec()).expect("one");
    app.publish(package("two", "1.0.0", Vec::new()), b"second".to_vec()).expect("two");
    let one = app.registory_storage().get_index_data(&bytes("one")).unwrap().unwrap();
    let two = app.registory_storage().get_index_data(&bytes("two")).unwrap().unwrap();
    assert_eq!(one.len(), 1);
    assert_eq!(two.len(), 1);
    assert_eq!(one[0].name, bytes("one"));
    assert_eq!(two[0].name, bytes("two"));
}

#[test]
fn blob_immutability() {
    let mut storage = MemoryStorage::new();
    storage
        .put_crate(&bytes("demo"), &bytes("1.0.0"), b"original")
        .expect("first write succeeds");
    let second = storage.put_crate(&bytes("demo"), &bytes("1.0.0"), b"overwrite attempt");
    assert!(matches!(second, Err(RegistryError::Duplicate)));

    // The original bytes are unchanged after the failed attempt.
    match storage.get_crate_file(None, &bytes("demo"), &bytes("1.0.0")) {
        FileResponse::Content { body, .. } => assert_eq!(body, b"original".to_vec()),
        _ => panic!("blob must still be served"),
    }
}
