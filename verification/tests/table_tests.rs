use better_ls::entry::{EntryType, FileEntry};
use better_ls::table::{render_table, table_rows};

fn entry(permissions: &str, name: &str, e_type: EntryType, len_bytes: u64, modified: &str) -> FileEntry {
    FileEntry {
        permissions: permissions.to_string(),
        name: name.to_string(),
        e_type,
        len_bytes,
        modified: modified.to_string(),
    }
}

#[test]
fn header_row_has_the_fixed_columns() {
    let rows = table_rows(&Vec::new());
    assert_eq!(rows.len(), 1);
    assert_eq!(rows[0], vec!["Perms", "Name", "Type", "Size", "modified"]);
}

#[test]
fn one_row_per_entry_in_listing_order() {
    let entries = vec![
        entry("rw-r--r--", "a.txt", EntryType::File, 123, "Thu Jan  1 1970"),
        entry("rwxr-xr-x", "sub", EntryType::Dir, 4096, ""),
    ];
    let rows = table_rows(&entries);
    assert_eq!(rows.len(), 3);
    assert_eq!(rows[1], vec!["rw-r--r--", "a.txt", "File", "123", "Thu Jan  1 1970"]);
    assert_eq!(rows[2], vec!["rwxr-xr-x", "sub", "Dir", "4096", ""]);
}

#[test]
fn rendered_table_shows_header_and_cells() {
    let entries = vec![entry("rw-r--r--", "notes.md", EntryType::File, 9, "Thu Jan  1 1970")];
    let text = render_table(&entries);
    assert!(text.contains("Perms"));
    assert!(text.contains("modified"));
    assert!(text.contains("notes.md"));
    assert!(text.contains("rw-r--r--"));
    assert!(text.contains('\n'));
}

#[test]
fn empty_listing_still_renders_the_header() {
    let text = render_table(&Vec::new());
    assert!(text.contains("Perms"));
    assert!(text.contains("Name"));
    assert!(text.contains("Type"));
    assert!(text.contains("Size"));
    assert!(text.contains("modified"));
}
