//! The normalized record shape for one directory entry.

use vstd::prelude::*;
use vstd::string::StringExecFns;

verus! {

/// The kind of a directory entry. A closed set: anything that is not a
/// directory is a `File`, including special files.
#[derive(Clone, Copy, Debug, PartialEq, Eq, Structural)]
pub enum EntryType {
    File,
    Dir,
}

/// Classification of raw metadata: `Dir` exactly when the metadata says the
/// entry is a directory, `File` otherwise.
pub open spec fn classify_spec(is_dir: bool) -> EntryType {
    if is_dir {
        EntryType::Dir
    } else {
        EntryType::File
    }
}

/// Maps the "is this a directory" answer of a metadata read to the entry
/// kind: `Dir` when true, `File` in every other case.
pub fn classify(is_dir: bool) -> (r: EntryType)
    ensures
        r == classify_spec(is_dir),
{
    if is_dir {
        EntryType::Dir
    } else {
        EntryType::File
    }
}

/// Classification is exhaustive and faithful: a directory is always `Dir`,
/// anything else is always `File`, and nothing classifies as neither.
pub proof fn lemma_classify_exhaustive(is_dir: bool)
    ensures
        classify_spec(is_dir) == EntryType::Dir <==> is_dir,
        classify_spec(is_dir) == EntryType::File <==> !is_dir,
        classify_spec(is_dir) == EntryType::Dir || classify_spec(is_dir) == EntryType::File,
{
}

impl EntryType {
    /// The tag under which the kind is shown and serialized.
    pub open spec fn label_spec(self) -> Seq<char> {
        match self {
            EntryType::File => "File"@,
            EntryType::Dir => "Dir"@,
        }
    }

    /// The display text of the kind: exactly `File` or `Dir`.
    pub fn label(&self) -> (r: String)
        ensures
            r@ == self.label_spec(),
    {
        match self {
            EntryType::File => String::from_str("File"),
            EntryType::Dir => String::from_str("Dir"),
        }
    }
}

/// The mathematical value of a `FileEntry`: the same fields over `Seq<char>`.
pub ghost struct FileEntryView {
    pub permissions: Seq<char>,
    pub name: Seq<char>,
    pub e_type: EntryType,
    pub len_bytes: u64,
    pub modified: Seq<char>,
}

/// One character of a symbolic permission rendering.
pub open spec fn is_perm_symbol(c: char) -> bool {
    c == 'r' || c == 'w' || c == 'x' || c == '-'
}

impl FileEntryView {
    /// Well-formedness of a record: the permission string is exactly nine
    /// symbolic characters, and the name is never empty.
    pub open spec fn wf(self) -> bool {
        &&& self.permissions.len() == 9
        &&& (forall|i: int| 0 <= i < 9 ==> is_perm_symbol(#[trigger] self.permissions[i]))
        &&& self.name.len() > 0
    }
}

/// One normalized directory entry: symbolic permissions, name, kind, size in
/// bytes, and the rendered modification date (empty when unavailable).
/// Immutable once constructed.
pub struct FileEntry {
    pub permissions: String,
    pub name: String,
    pub e_type: EntryType,
    pub len_bytes: u64,
    pub modified: String,
}

impl View for FileEntry {
    type V = FileEntryView;

    open spec fn view(&self) -> FileEntryView {
        FileEntryView {
            permissions: self.permissions@,
            name: self.name@,
            e_type: self.e_type,
            len_bytes: self.len_bytes,
            modified: self.modified@,
        }
    }
}

impl PartialEq for FileEntry {
    fn eq(&self, other: &FileEntry) -> (r: bool) {
        self.permissions == other.permissions && self.name == other.name && self.e_type
            == other.e_type && self.len_bytes == other.len_bytes && self.modified
            == other.modified
    }
}

impl vstd::std_specs::cmp::PartialEqSpecImpl for FileEntry {
    open spec fn obeys_eq_spec() -> bool {
        true
    }

    open spec fn eq_spec(&self, other: &FileEntry) -> bool {
        self@ == other@
    }
}

/// The views of a sequence of records, element by element.
pub open spec fn entry_views(s: Seq<FileEntry>) -> Seq<FileEntryView> {
    s.map_values(|e: FileEntry| e@)
}

} // verus!
