//! The index-line codec: encoding, parsing, and their round trip.

use axum_cargo_registry::codec::{encode_index_line, parse_index_line};
use axum_cargo_registry::index::{Dependency, FeatureEntry, IndexData};
use axum_cargo_registry::index_file::parse_index_lines;

fn bytes(s: &str) -> Vec<u8> {
    s.as_bytes().to_vec()
}

fn simple_entry() -> IndexData {
    IndexData {
        name: bytes("demo"),
        vers: bytes("1.0.0"),
        deps: Vec::new(),
        cksum: bytes("ba7816bf8f01cfea414140de5dae2223b00361a396177a9cb410ff61f20015ad"),
        features: Vec::new(),
        yanked: false,
        links: None,
        v: 2,
        features2: None,
        rust_version: None,
    }
}

fn full_entry() -> IndexData {
    IndexData {
        name: bytes("full"),
        vers: bytes("0.2.1-alpha.3+build7"),
        deps: vec![
            Dependency {
                name: bytes("serde"),
                req: bytes("^1.0"),
                features: vec![bytes("derive"), bytes("std")],
                optional: true,
                default_features: false,
                target: Some(bytes("cfg(windows)")),
                kind: bytes("normal"),
                registry: Some(bytes("https://example.test/index")),
                package: Some(bytes("serde-real")),
            },
            Dependency {
                name: bytes("libc"),
                req: bytes(">=0.2, <0.3"),
                features: Vec::new(),
                optional: false,
                default_features: true,
                target: None,
                kind: bytes("dev"),
                registry: None,
                package: None,
            },
        ],
        cksum: bytes("00ff00ff00ff00ff00ff00ff00ff00ff00ff00ff00ff00ff00ff00ff00ff00ff"),
        features: vec![FeatureEntry {
            name: bytes("std"),
            values: vec![bytes("serde/std"), bytes("libc")],
        }],
        yanked: false,
        links: Some(bytes("git2")),
        v: 2,
        features2: Some(vec![FeatureEntry {
            name: bytes("weak"),
            values: vec![bytes("dep:serde")],
        }]),
        rust_version: Some(bytes("1.70")),
    }
}

#[test]
fn round_trip_simple_entry() {
    let entry = simple_entry();
    let line = encode_index_line(&entry);
    let back = parse_index_line(&line).expect("canonical line must parse");
    assert_eq!(back, entry);
}

#[test]
fn round_trip_full_entry() {
    let entry = full_entry();
    let line = encode_index_line(&entry);
    let back = parse_index_line(&line).expect("canonical line must parse");
    assert_eq!(back, entry);
}

#[test]
fn round_trip_with_escapes() {
    let mut entry = simple_entry();
    entry.links = Some(b"a\"b\\c\x01d".to_vec());
    let line = encode_index_line(&entry);
    let back = parse_index_line(&line).expect("escaped line must parse");
    assert_eq!(back, entry);
}

#[test]
fn round_trip_large_schema_version() {
    let mut entry = simple_entry();
    entry.v = 4294967295;
    let line = encode_index_line(&entry);
    let back = parse_index_line(&line).expect("line with large v must parse");
    assert_eq!(back.v, 4294967295);
}

#[test]
fn encoded_line_is_the_documented_shape() {
    let line = encode_index_line(&simple_entry());
    let text = String::from_utf8(line).expect("line is UTF-8");
    assert_eq!(
        text,
        "{\"name\":\"demo\",\"vers\":\"1.0.0\",\"deps\":[],\
         \"cksum\":\"ba7816bf8f01cfea414140de5dae2223b00361a396177a9cb410ff61f20015ad\",\
         \"features\":{},\"yanked\":false,\"links\":null,\"v\":2,\"features2\":null,\
         \"rust_version\":null}"
    );
}

#[test]
fn encoded_line_is_valid_json() {
    let line = encode_index_line(&full_entry());
    let value: serde_json::Value =
        serde_json::from_slice(&line).expect("encoded line is valid JSON");
    assert_eq!(value.get("name").unwrap().as_str().unwrap(), "full");
    assert_eq!(value.get("v").unwrap().as_u64().unwrap(), 2);
    assert_eq!(value.get("deps").unwrap().as_array().unwrap().len(), 2);
    assert!(value.get("features2").unwrap().is_object());
}

#[test]
fn garbage_does_not_parse() {
    assert!(parse_index_line(&b"not json at all".to_vec()).is_none());
    assert!(parse_index_line(&b"{\"name\":\"x\"}".to_vec()).is_none());
    assert!(parse_index_line(&Vec::new()).is_none());
}

#[test]
fn trailing_bytes_do_not_parse() {
    let mut line = encode_index_line(&simple_entry());
    line.push(b' ');
    assert!(parse_index_line(&line).is_none());
}

#[test]
fn index_file_of_two_lines_parses() {
    let first = simple_entry();
    let second = full_entry();
    let mut file = encode_index_line(&first);
    file.push(b'\n');
    file.extend_from_slice(&encode_index_line(&second));
    file.push(b'\n');
    let entries = parse_index_lines(&file).expect("rendered file must parse");
    assert_eq!(entries.len(), 2);
    assert_eq!(entries[0], first);
    assert_eq!(entries[1], second);
}

#[test]
fn empty_index_file_is_no_entries() {
    let entries = parse_index_lines(&Vec::new()).expect("empty file parses");
    assert!(entries.is_empty());
}

#[test]
fn corrupt_index_file_is_malformed() {
    let mut file = encode_index_line(&simple_entry());
    file.push(b'\n');
    file.extend_from_slice(b"garbage line\n");
    assert!(parse_index_lines(&file).is_err());
}
