//! The tabular rendering: a header row and one row of cells per record.
//!
//! The cells and their order are the contract; the border and color theme
//! are presentation, left to the table crate.

use vstd::prelude::*;
use vstd::string::StringExecFns;
use crate::digits::{u64_dec, u64_to_dec};
use crate::entry::{FileEntry, FileEntryView, entry_views};
use crate::text::string_from_chars;

verus! {

/// The header cells, in their fixed order.
pub open spec fn header_row() -> Seq<Seq<char>> {
    seq!["Perms"@, "Name"@, "Type"@, "Size"@, "modified"@]
}

/// The cells of one record's row: permissions, name, kind, size, date.
pub open spec fn entry_cells(e: FileEntryView) -> Seq<Seq<char>> {
    seq![e.permissions, e.name, e.e_type.label_spec(), u64_dec(e.len_bytes as nat), e.modified]
}

/// The rows handed to the table: the header first, then one row per record,
/// in listing order.
pub open spec fn table_rows_spec(es: Seq<FileEntryView>) -> Seq<Seq<Seq<char>>> {
    seq![header_row()] + es.map_values(|e: FileEntryView| entry_cells(e))
}

/// The table always has exactly one header row plus one row per record, the
/// header first, and each record's row at its listing position.
pub proof fn lemma_table_shape(es: Seq<FileEntryView>)
    ensures
        table_rows_spec(es).len() == es.len() + 1,
        table_rows_spec(es)[0] == header_row(),
        forall|i: int|
            0 <= i < es.len() ==> #[trigger] table_rows_spec(es)[i + 1] == entry_cells(es[i]),
{
}

/// The cells of one record's row.
fn entry_row(e: &FileEntry) -> (r: Vec<String>)
    ensures
        r.deep_view() == entry_cells(e@),
{
    let mut row: Vec<String> = Vec::new();
    row.push(e.permissions.clone());
    row.push(e.name.clone());
    row.push(e.e_type.label());
    let ds = u64_to_dec(e.len_bytes);
    row.push(string_from_chars(&ds));
    row.push(e.modified.clone());
    proof {
        assert(row.deep_view() =~= entry_cells(e@));
    }
    row
}

/// Lays a listing out as table rows: the header `Perms, Name, Type, Size,
/// modified`, then the cells of each record, in listing order.
pub fn table_rows(entries: &Vec<FileEntry>) -> (r: Vec<Vec<String>>)
    ensures
        r.deep_view() == table_rows_spec(entry_views(entries@)),
{
    let ghost ev = entry_views(entries@);
    let mut rows: Vec<Vec<String>> = Vec::new();
    let mut header: Vec<String> = Vec::new();
    header.push(String::from_str("Perms"));
    header.push(String::from_str("Name"));
    header.push(String::from_str("Type"));
    header.push(String::from_str("Size"));
    header.push(String::from_str("modified"));
    proof {
        assert(header.deep_view() =~= header_row());
    }
    rows.push(header);
    let mut i: usize = 0;
    while i < entries.len()
        invariant
            i <= entries.len(),
            ev == entry_views(entries@),
            rows.deep_view() == table_rows_spec(ev.take(i as int)),
        decreases entries.len() - i,
    {
        let row = entry_row(&entries[i]);
        let ghost prev = rows.deep_view();
        rows.push(row);
        proof {
            assert(ev.take(i + 1) =~= ev.take(i as int).push(ev[i as int]));
            assert(ev[i as int] == entries@[i as int]@);
            assert(rows.deep_view() =~= prev.push(row.deep_view()));
            assert(table_rows_spec(ev.take(i + 1)) =~= prev.push(entry_cells(ev[i as int])));
        }
        i = i + 1;
    }
    proof {
        assert(ev.take(ev.len() as int) =~= ev);
        assert(rows.deep_view() =~= table_rows_spec(ev));
    }
    rows
}

/// The text of the bordered table built from the given rows. Fixed by the
/// rows alone.
pub uninterp spec fn table_text(rows: Seq<Seq<Seq<char>>>) -> Seq<char>;

/// Relies on tabled: `Builder::from` takes the rows in order, `Table::from`
/// builds the table with the first row as header, and the rounded style
/// only draws borders; the rendered text depends on the rows alone.
#[verifier::external_body]
fn render_rows(rows: Vec<Vec<String>>) -> (r: String)
    ensures
        r@ == table_text(rows.deep_view()),
{
    let mut t = tabled::Table::from(tabled::builder::Builder::from(rows));
    t.with(tabled::settings::Style::rounded());
    t.to_string()
}

/// Renders a listing as a bordered table: one header row, then one row per
/// record, in listing order, columns `Perms, Name, Type, Size, modified`.
pub fn render_table(entries: &Vec<FileEntry>) -> (r: String)
    ensures
        r@ == table_text(table_rows_spec(entry_views(entries@))),
{
    let rows = table_rows(entries);
    render_rows(rows)
}

} // verus!
