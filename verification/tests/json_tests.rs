use better_ls::entry::{EntryType, FileEntry};
use better_ls::json::to_json;
use better_ls::parse::from_json;

fn entry(permissions: &str, name: &str, e_type: EntryType, len_bytes: u64, modified: &str) -> FileEntry {
    FileEntry {
        permissions: permissions.to_string(),
        name: name.to_string(),
        e_type,
        len_bytes,
        modified: modified.to_string(),
    }
}

#[test]
fn empty_listing_serializes_to_empty_array() {
    assert_eq!(to_json(&Vec::new()), "[]");
}

#[test]
fn one_record_serializes_exactly() {
    let entries = vec![entry("rw-r--r--", "a.txt", EntryType::File, 123, "Thu Jan  1 1970")];
    assert_eq!(
        to_json(&entries),
        "[{\"permissions\":\"rw-r--r--\",\"name\":\"a.txt\",\"e_type\":\"File\",\"len_bytes\":123,\"modified\":\"Thu Jan  1 1970\"}]"
    );
}

#[test]
fn two_records_keep_listing_order() {
    let entries = vec![
        entry("rwxr-xr-x", "sub", EntryType::Dir, 4096, ""),
        entry("rw-------", "key", EntryType::File, 0, ""),
    ];
    let doc = to_json(&entries);
    assert_eq!(
        doc,
        "[{\"permissions\":\"rwxr-xr-x\",\"name\":\"sub\",\"e_type\":\"Dir\",\"len_bytes\":4096,\"modified\":\"\"},{\"permissions\":\"rw-------\",\"name\":\"key\",\"e_type\":\"File\",\"len_bytes\":0,\"modified\":\"\"}]"
    );
}

#[test]
fn special_characters_are_escaped() {
    let entries = vec![entry("rw-r--r--", "a\"b\\c\nd\u{1}e", EntryType::File, 1, "")];
    let doc = to_json(&entries);
    assert!(doc.contains("a\\\"b\\\\c\\nd\\u0001e"));
}

#[test]
fn document_round_trips_to_equal_records() {
    let entries = vec![
        entry("rw-r--r--", "plain.txt", EntryType::File, 42, "Thu Jan  1 1970"),
        entry("rwxr-xr-x", "odd \"name\"\\with\tstuff", EntryType::Dir, 0, ""),
        entry("---------", "ctrl\u{2}char", EntryType::File, u64::MAX, "Tue Nov 14 2023"),
    ];
    let parsed = from_json(&to_json(&entries)).expect("the emitted document parses");
    assert_eq!(parsed.len(), entries.len());
    for (a, b) in parsed.iter().zip(entries.iter()) {
        assert!(a == b);
    }
}

#[test]
fn emitted_document_is_valid_json_for_other_parsers() {
    let entries = vec![entry("rw-r--r--", "quote\"back\\slash", EntryType::File, 7, "Thu Jan  1 1970")];
    let value: serde_json::Value = serde_json::from_str(&to_json(&entries)).expect("valid JSON");
    let objects = value.as_array().expect("an array");
    assert_eq!(objects.len(), 1);
    assert_eq!(objects[0]["permissions"].as_str(), Some("rw-r--r--"));
    assert_eq!(objects[0]["name"].as_str(), Some("quote\"back\\slash"));
    assert_eq!(objects[0]["e_type"].as_str(), Some("File"));
    assert_eq!(objects[0]["len_bytes"].as_u64(), Some(7));
    assert_eq!(objects[0]["modified"].as_str(), Some("Thu Jan  1 1970"));
}

#[test]
fn malformed_documents_parse_to_nothing() {
    assert!(from_json("").is_none());
    assert!(from_json("garbage").is_none());
    assert!(from_json("[").is_none());
    assert!(from_json("[{]").is_none());
    assert!(from_json("[]trailing").is_none());
    assert!(from_json("[{\"permissions\":\"x\"}]").is_none());
}

#[test]
fn oversized_numbers_parse_to_nothing() {
    let doc = "[{\"permissions\":\"rw-r--r--\",\"name\":\"a\",\"e_type\":\"File\",\"len_bytes\":99999999999999999999,\"modified\":\"\"}]";
    assert!(from_json(doc).is_none());
}

#[test]
fn largest_size_round_trips() {
    let entries = vec![entry("rw-r--r--", "big", EntryType::File, 18446744073709551615, "")];
    let doc = to_json(&entries);
    assert!(doc.contains("\"len_bytes\":18446744073709551615,"));
    let parsed = from_json(&doc).expect("parses");
    assert_eq!(parsed[0].len_bytes, u64::MAX);
}
