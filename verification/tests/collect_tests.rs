use better_ls::collect::{collect, RawEntry, RawMeta};
use better_ls::entry::EntryType;

fn meta(mode: u32, is_dir: bool, len_bytes: u64, modified_secs: Option<i64>) -> RawMeta {
    RawMeta { mode, is_dir, len_bytes, modified_secs }
}

fn raw(name: &str, m: RawMeta) -> RawEntry {
    RawEntry { name: Some(name.to_string()), meta: Some(m) }
}

#[test]
fn collects_one_record_per_readable_entry() {
    let raws = vec![
        raw("a.txt", meta(0o644, false, 10, None)),
        raw("sub", meta(0o755, true, 4096, None)),
        raw("b.bin", meta(0o600, false, 7, None)),
    ];
    let entries = collect(raws);
    assert_eq!(entries.len(), 3);
    assert_eq!(entries[0].name, "a.txt");
    assert_eq!(entries[1].name, "sub");
    assert_eq!(entries[2].name, "b.bin");
    assert_eq!(entries[0].permissions, "rw-r--r--");
    assert_eq!(entries[1].permissions, "rwxr-xr-x");
    assert_eq!(entries[0].len_bytes, 10);
    assert_eq!(entries[1].len_bytes, 4096);
}

#[test]
fn directories_classify_as_dir_and_files_as_file() {
    let raws = vec![
        raw("d", meta(0o755, true, 0, None)),
        raw("f", meta(0o644, false, 1, None)),
    ];
    let entries = collect(raws);
    assert_eq!(entries[0].e_type, EntryType::Dir);
    assert_eq!(entries[1].e_type, EntryType::File);
    assert_eq!(entries[0].e_type.label(), "Dir");
    assert_eq!(entries[1].e_type.label(), "File");
}

#[test]
fn failed_metadata_is_skipped_without_aborting() {
    let raws = vec![
        raw("first", meta(0o644, false, 1, None)),
        RawEntry { name: Some("broken".to_string()), meta: None },
        raw("last", meta(0o644, false, 3, None)),
    ];
    let entries = collect(raws);
    assert_eq!(entries.len(), 2);
    assert_eq!(entries[0].name, "first");
    assert_eq!(entries[1].name, "last");
}

#[test]
fn undecodable_name_falls_back_to_sentinel() {
    let raws = vec![RawEntry { name: None, meta: Some(meta(0o644, false, 0, None)) }];
    let entries = collect(raws);
    assert_eq!(entries[0].name, "Unknwo Name");
}

#[test]
fn missing_timestamp_leaves_modified_empty() {
    let entries = collect(vec![raw("f", meta(0o644, false, 0, None))]);
    assert_eq!(entries[0].modified, "");
}

#[test]
fn epoch_timestamp_renders_utc_date() {
    let entries = collect(vec![raw("f", meta(0o644, false, 0, Some(0)))]);
    assert_eq!(entries[0].modified, "Thu Jan  1 1970");
}

#[test]
fn recent_timestamp_renders_utc_date() {
    let entries = collect(vec![raw("f", meta(0o644, false, 0, Some(1_700_000_000)))]);
    assert_eq!(entries[0].modified, "Tue Nov 14 2023");
}

#[test]
fn empty_listing_collects_nothing() {
    let entries = collect(Vec::new());
    assert!(entries.is_empty());
}
