//! Normalization of raw per-entry metadata into `FileEntry` records.
//!
//! The filesystem reads themselves happen outside the library; what arrives
//! here is, for each child of the listed directory, the decoded name (absent
//! when the raw name is not valid text) and the plain values of its metadata
//! (absent when the metadata fetch failed).

use vstd::prelude::*;
use crate::entry::{classify_spec, classify, FileEntry, FileEntryView, entry_views};
use crate::perms::{format_mode_spec, format_mode, lemma_format_mode_total};

verus! {

/// The plain values a metadata read yields for one entry: the permission
/// mode bits, whether the entry is a directory, its byte length, and its
/// modification time as seconds since the Unix epoch (absent when the
/// filesystem reports none).
#[derive(Clone, Copy)]
pub struct RawMeta {
    pub mode: u32,
    pub is_dir: bool,
    pub len_bytes: u64,
    pub modified_secs: Option<i64>,
}

/// One raw directory child: its decoded name, when the raw name is valid
/// text, and its metadata, when the fetch succeeded.
pub struct RawEntry {
    pub name: Option<String>,
    pub meta: Option<RawMeta>,
}

/// The mathematical value of a `RawEntry`.
pub ghost struct RawEntryView {
    pub name: Option<Seq<char>>,
    pub meta: Option<RawMeta>,
}

impl View for RawEntry {
    type V = RawEntryView;

    open spec fn view(&self) -> RawEntryView {
        RawEntryView {
            name: match self.name {
                Some(n) => Some(n@),
                None => None,
            },
            meta: self.meta,
        }
    }
}

/// The views of a sequence of raw entries, element by element.
pub open spec fn raw_views(s: Seq<RawEntry>) -> Seq<RawEntryView> {
    s.map_values(|r: RawEntry| r@)
}

/// The calendar date rendering (`<weekday> <month> <day> <year>`, UTC) of a
/// Unix timestamp. Fixed by the timestamp alone.
pub uninterp spec fn date_text(secs: int) -> Seq<char>;

/// Relies on chrono: `DateTime::<Utc>::from_timestamp_secs` builds the UTC
/// date and time of a Unix timestamp, and `format("%a %b %e %Y")` renders
/// its calendar date; both depend on the timestamp alone. The empty string
/// stands for a timestamp outside chrono's representable range.
#[verifier::external_body]
fn format_utc_date(secs: i64) -> (r: String)
    ensures
        r@ == date_text(secs as int),
{
    match chrono::DateTime::<chrono::Utc>::from_timestamp_secs(secs) {
        Some(d) => d.format("%a %b %e %Y").to_string(),
        None => String::new(),
    }
}

/// The modified field of a record: the rendered date of the timestamp, or
/// the empty string when the timestamp is unavailable.
pub open spec fn modified_text(m: Option<i64>) -> Seq<char> {
    match m {
        Some(s) => date_text(s as int),
        None => Seq::empty(),
    }
}

/// The sentinel shown when an entry's raw name cannot be decoded as text.
pub open spec fn name_fallback() -> Seq<char> {
    "Unknwo Name"@
}

/// The name field of a record: the decoded name, or the sentinel.
pub open spec fn name_text(name: Option<Seq<char>>) -> Seq<char> {
    match name {
        Some(n) => n,
        None => name_fallback(),
    }
}

/// The record built from one raw entry whose metadata fetch succeeded.
pub open spec fn entry_of(name: Option<Seq<char>>, meta: RawMeta) -> FileEntryView {
    FileEntryView {
        permissions: format_mode_spec(meta.mode),
        name: name_text(name),
        e_type: classify_spec(meta.is_dir),
        len_bytes: meta.len_bytes,
        modified: modified_text(meta.modified_secs),
    }
}

/// Builds the normalized record for one entry with usable metadata:
/// permissions rendered symbolically, the name or its sentinel, the kind,
/// the size copied as-is, and the modification date or the empty string.
/// The record is well-formed whenever the decoded name is not empty.
pub fn build_entry(name: Option<String>, meta: RawMeta) -> (r: FileEntry)
    ensures
        r@ == entry_of(
            match name {
                Some(n) => Some(n@),
                None => None,
            },
            meta,
        ),
        (match name {
            Some(n) => n@.len() > 0,
            None => true,
        }) ==> r@.wf(),
{
    let modified = match meta.modified_secs {
        Some(secs) => format_utc_date(secs),
        None => String::new(),
    };
    let name_field = match name {
        Some(n) => n,
        None => String::from_str("Unknwo Name"),
    };
    let r = FileEntry {
        permissions: format_mode(meta.mode),
        name: name_field,
        e_type: classify(meta.is_dir),
        len_bytes: meta.len_bytes,
        modified,
    };
    proof {
        lemma_format_mode_total(meta.mode);
        reveal_strlit("Unknwo Name");
        assert(r@.modified =~= modified_text(meta.modified_secs));
    }
    r
}

/// The records of a raw listing: one per entry whose metadata fetch
/// succeeded, in the order the listing yielded them; entries without
/// metadata are skipped.
pub open spec fn collect_spec(raws: Seq<RawEntryView>) -> Seq<FileEntryView>
    decreases raws.len(),
{
    if raws.len() == 0 {
        Seq::empty()
    } else {
        let rest = collect_spec(raws.drop_first());
        match raws[0].meta {
            Some(m) => seq![entry_of(raws[0].name, m)] + rest,
            None => rest,
        }
    }
}

/// Collection distributes over concatenation of raw listings.
pub proof fn lemma_collect_append(a: Seq<RawEntryView>, b: Seq<RawEntryView>)
    ensures
        collect_spec(a + b) == collect_spec(a) + collect_spec(b),
    decreases a.len(),
{
    if a.len() == 0 {
        assert(a + b =~= b);
        assert(collect_spec(a) + collect_spec(b) =~= collect_spec(b));
    } else {
        lemma_collect_append(a.drop_first(), b);
        assert((a + b).drop_first() =~= a.drop_first() + b);
        assert((a + b)[0] == a[0]);
        match a[0].meta {
            Some(m) => {
                assert(collect_spec(a + b) =~= collect_spec(a) + collect_spec(b));
            },
            None => {},
        }
    }
}

/// Turns a raw listing into its normalized records: one `FileEntry` per
/// entry with usable metadata, in listing order; entries whose metadata
/// fetch failed are dropped and do not disturb the entries after them.
pub fn collect(raws: Vec<RawEntry>) -> (r: Vec<FileEntry>)
    ensures
        entry_views(r@) == collect_spec(raw_views(raws@)),
{
    let mut out: Vec<FileEntry> = Vec::new();
    let mut i: usize = 0;
    while i < raws.len()
        invariant
            i <= raws.len(),
            entry_views(out@) == collect_spec(raw_views(raws@).take(i as int)),
        decreases raws.len() - i,
    {
        let raw = &raws[i];
        match raw.meta {
            Some(meta) => {
                let name = match &raw.name {
                    Some(n) => Some(n.clone()),
                    None => None,
                };
                let entry = build_entry(name, meta);
                out.push(entry);
            },
            None => {},
        }
        proof {
            let rv = raw_views(raws@);
            let single = seq![rv[i as int]];
            assert(rv.take(i + 1) =~= rv.take(i as int) + single);
            lemma_collect_append(rv.take(i as int), single);
            assert(single.drop_first() =~= Seq::<RawEntryView>::empty());
            assert(collect_spec(Seq::<RawEntryView>::empty()) == Seq::<FileEntryView>::empty());
            assert(collect_spec(single) =~= match rv[i as int].meta {
                Some(m) => seq![entry_of(rv[i as int].name, m)],
                None => Seq::<FileEntryView>::empty(),
            });
            assert(entry_views(out@) =~= collect_spec(rv.take(i + 1)));
        }
        i = i + 1;
    }
    proof {
        assert(raw_views(raws@).take(raws@.len() as int) =~= raw_views(raws@));
    }
    out
}

/// When every metadata fetch succeeds, collection is exact: one record per
/// raw entry, in the same order, with no duplication and no omission.
pub proof fn lemma_collect_complete(raws: Seq<RawEntryView>)
    requires
        forall|i: int| 0 <= i < raws.len() ==> (#[trigger] raws[i].meta) is Some,
    ensures
        collect_spec(raws).len() == raws.len(),
        forall|i: int|
            0 <= i < raws.len() ==> #[trigger] collect_spec(raws)[i] == entry_of(
                raws[i].name,
                raws[i].meta->Some_0,
            ),
    decreases raws.len(),
{
    if raws.len() > 0 {
        lemma_collect_complete(raws.drop_first());
        assert forall|i: int| 0 <= i < raws.len() implies #[trigger] collect_spec(raws)[i]
            == entry_of(raws[i].name, raws[i].meta->Some_0) by {
            if i > 0 {
                assert(collect_spec(raws)[i] == collect_spec(raws.drop_first())[i - 1]);
                assert(raws.drop_first()[i - 1] == raws[i]);
            }
        }
    }
}

/// Every record a raw entry yields is well-formed, as long as its decoded
/// name, when there is one, is not empty (a directory read never yields an
/// empty name; an undecodable one gets the sentinel).
pub proof fn lemma_entry_of_wf(name: Option<Seq<char>>, meta: RawMeta)
    requires
        name matches Some(n) ==> n.len() > 0,
    ensures
        entry_of(name, meta).wf(),
{
    lemma_format_mode_total(meta.mode);
    reveal_strlit("Unknwo Name");
    let e = entry_of(name, meta);
    assert forall|i: int| 0 <= i < 9 implies crate::entry::is_perm_symbol(
        #[trigger] e.permissions[i],
    ) by {
        if i % 3 == 0 {
        } else if i % 3 == 1 {
        } else {
        }
    }
}

/// Every collected record is well-formed when the raw names are.
pub proof fn lemma_collect_wf(raws: Seq<RawEntryView>)
    requires
        forall|i: int|
            0 <= i < raws.len() ==> ((#[trigger] raws[i].name) matches Some(n) ==> n.len() > 0),
    ensures
        forall|i: int|
            0 <= i < collect_spec(raws).len() ==> (#[trigger] collect_spec(raws)[i]).wf(),
    decreases raws.len(),
{
    if raws.len() > 0 {
        assert(forall|i: int|
            0 <= i < raws.drop_first().len() ==> ((#[trigger] raws.drop_first()[i].name) matches
            Some(n) ==> n.len() > 0)) by {
            assert(forall|i: int|
                0 <= i < raws.drop_first().len() ==> raws.drop_first()[i] == raws[i + 1]);
        }
        lemma_collect_wf(raws.drop_first());
        match raws[0].meta {
            Some(m) => {
                lemma_entry_of_wf(raws[0].name, m);
                assert(collect_spec(raws)[0] == entry_of(raws[0].name, m));
                assert(forall|i: int|
                    0 < i < collect_spec(raws).len() ==> #[trigger] collect_spec(raws)[i]
                        == collect_spec(raws.drop_first())[i - 1]);
            },
            None => {
                assert(collect_spec(raws) == collect_spec(raws.drop_first()));
            },
        }
    }
}

/// An entry whose metadata fetch failed leaves no trace: the records are
/// exactly those of the listing with that entry removed, so the entries
/// after it are still collected.
pub proof fn lemma_collect_skips_failed(raws: Seq<RawEntryView>, i: int)
    requires
        0 <= i < raws.len(),
        raws[i].meta is None,
    ensures
        collect_spec(raws) == collect_spec(raws.remove(i)),
    decreases i,
{
    if i == 0 {
        assert(raws.remove(0) =~= raws.drop_first());
    } else {
        lemma_collect_skips_failed(raws.drop_first(), i - 1);
        assert(raws.remove(i).drop_first() =~= raws.drop_first().remove(i - 1));
        assert(raws.remove(i)[0] == raws[0]);
        match raws[0].meta {
            Some(m) => {
                assert(collect_spec(raws) =~= collect_spec(raws.remove(i)));
            },
            None => {},
        }
    }
}

} // verus!
