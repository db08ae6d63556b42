//! A parser for the structured document, and the proof that parsing gives
//! back exactly the records a document was emitted from.
//!
//! The parser walks the character sequence left to right with an index. Each
//! piece returns the parsed value and the index just after it, or nothing
//! when the text is not a document.

use vstd::prelude::*;
use vstd::arithmetic::div_mod::lemma_fundamental_div_mod;
use crate::digits::{
    u64_dec, dec_val, digit_val, is_digit_char, lemma_u64_dec_digits, lemma_dec_val_round,
    lemma_dec_val_nonneg, lemma_dec_val_extend,
};
use crate::entry::{EntryType, FileEntry, FileEntryView, entry_views};
use crate::text::{chars_of, string_from_chars};
use crate::json::{
    esc_char, esc_str, hex_digit, hex_val, entry_json, rest_json, inner_json, doc_json, lit_perms,
    lit_name, lit_etype, lit_len, lit_mod, lit_close,
};

verus! {

/// Whether `s` stands letter for letter inside `d` at position `i`.
pub open spec fn sub_at(d: Seq<char>, i: int, s: Seq<char>) -> bool {
    &&& 0 <= i
    &&& i + s.len() <= d.len()
    &&& d.subrange(i, i + s.len()) == s
}

/// Consumes the exact fragment `lit`, or fails.
pub open spec fn p_lit(d: Seq<char>, i: int, lit: Seq<char>) -> Option<int> {
    if sub_at(d, i, lit) {
        Some(i + lit.len())
    } else {
        None
    }
}

/// The character a two-character escape stands for, if the character after
/// the backslash introduces one.
pub open spec fn short_unesc(c: char) -> Option<char> {
    if c == '"' {
        Some('"')
    } else if c == '\\' {
        Some('\\')
    } else if c == 'b' {
        Some('\u{8}')
    } else if c == 't' {
        Some('\t')
    } else if c == 'n' {
        Some('\n')
    } else if c == 'f' {
        Some('\u{c}')
    } else if c == 'r' {
        Some('\r')
    } else {
        None
    }
}

/// Consumes the rest of a quoted string value, escapes decoded, up to and
/// including its closing quote; returns the decoded value and the index
/// after the quote.
pub open spec fn p_strbody(d: Seq<char>, i: int) -> Option<(Seq<char>, int)>
    decreases d.len() - i,
{
    if i < 0 || i >= d.len() {
        None
    } else if d[i] == '"' {
        Some((Seq::empty(), i + 1))
    } else if d[i] == '\\' {
        if i + 2 <= d.len() && short_unesc(d[i + 1]) is Some {
            match p_strbody(d, i + 2) {
                Some(r) => Some((seq![short_unesc(d[i + 1])->Some_0] + r.0, r.1)),
                None => None,
            }
        } else if i + 6 <= d.len() && d[i + 1] == 'u' && d[i + 2] == '0' && d[i + 3] == '0'
            && hex_val(d[i + 4]) >= 0 && hex_val(d[i + 5]) >= 0 {
            match p_strbody(d, i + 6) {
                Some(r) => Some(
                    (
                        seq![((hex_val(d[i + 4]) * 16 + hex_val(d[i + 5])) as u32) as char] + r.0,
                        r.1,
                    ),
                ),
                None => None,
            }
        } else {
            None
        }
    } else {
        match p_strbody(d, i + 1) {
            Some(r) => Some((seq![d[i]] + r.0, r.1)),
            None => None,
        }
    }
}

/// Consumes the longest run of decimal digits from `i` on; returns the run
/// (possibly empty) and the index after it.
pub open spec fn p_digits(d: Seq<char>, i: int) -> (Seq<char>, int)
    decreases d.len() - i,
{
    if 0 <= i && i < d.len() && is_digit_char(d[i]) {
        let r = p_digits(d, i + 1);
        (seq![d[i]] + r.0, r.1)
    } else {
        (Seq::empty(), i)
    }
}

/// Consumes a decimal number that fits an unsigned 64-bit value, or fails.
pub open spec fn p_u64(d: Seq<char>, i: int) -> Option<(u64, int)> {
    let r = p_digits(d, i);
    if r.0.len() == 0 {
        None
    } else if dec_val(r.0) > u64::MAX {
        None
    } else {
        Some((dec_val(r.0) as u64, r.1))
    }
}

/// Consumes a kind tag, `File` or `Dir`, or fails.
pub open spec fn p_label(d: Seq<char>, i: int) -> Option<(EntryType, int)> {
    if p_lit(d, i, "File"@) is Some {
        Some((EntryType::File, i + "File"@.len()))
    } else if p_lit(d, i, "Dir"@) is Some {
        Some((EntryType::Dir, i + "Dir"@.len()))
    } else {
        None
    }
}

/// Consumes one record object, field by field in the document's fixed
/// order, or fails.
pub open spec fn p_entry(d: Seq<char>, i: int) -> Option<(FileEntryView, int)> {
    match p_lit(d, i, lit_perms()) {
        None => None,
        Some(j1) => match p_strbody(d, j1) {
            None => None,
            Some((permissions, j2)) => match p_lit(d, j2, lit_name()) {
                None => None,
                Some(j3) => match p_strbody(d, j3) {
                    None => None,
                    Some((name, j4)) => match p_lit(d, j4, lit_etype()) {
                        None => None,
                        Some(j5) => match p_label(d, j5) {
                            None => None,
                            Some((e_type, j6)) => match p_lit(d, j6, lit_len()) {
                                None => None,
                                Some(j7) => match p_u64(d, j7) {
                                    None => None,
                                    Some((len_bytes, j8)) => match p_lit(d, j8, lit_mod()) {
                                        None => None,
                                        Some(j9) => match p_strbody(d, j9) {
                                            None => None,
                                            Some((modified, j10)) => match p_lit(
                                                d,
                                                j10,
                                                lit_close(),
                                            ) {
                                                None => None,
                                                Some(j11) => Some(
                                                    (
                                                        FileEntryView {
                                                            permissions,
                                                            name,
                                                            e_type,
                                                            len_bytes,
                                                            modified,
                                                        },
                                                        j11,
                                                    ),
                                                ),
                                            },
                                        },
                                    },
                                },
                            },
                        },
                    },
                },
            },
        },
    }
}

/// Consumes the records after the first one, each preceded by a comma, up
/// to and including the closing bracket.
pub open spec fn p_rest(d: Seq<char>, i: int) -> Option<(Seq<FileEntryView>, int)>
    decreases d.len() - i,
{
    if i < 0 || i >= d.len() {
        None
    } else if d[i] == ']' {
        Some((Seq::empty(), i + 1))
    } else if d[i] == ',' {
        match p_entry(d, i + 1) {
            None => None,
            Some((e, j)) => if j <= i + 1 || j > d.len() {
                None
            } else {
                match p_rest(d, j) {
                    None => None,
                    Some((es, k)) => Some((seq![e] + es, k)),
                }
            },
        }
    } else {
        None
    }
}

/// Consumes a whole document from position `i`: a bracketed,
/// comma-separated list of record objects. Returns the records and the
/// index after the closing bracket.
pub open spec fn p_doc(d: Seq<char>, i: int) -> Option<(Seq<FileEntryView>, int)> {
    if 0 <= i && i < d.len() && d[i] == '[' {
        if i + 1 < d.len() && d[i + 1] == ']' {
            Some((Seq::empty(), i + 2))
        } else {
            match p_entry(d, i + 1) {
                None => None,
                Some((e, j)) => match p_rest(d, j) {
                    None => None,
                    Some((es, k)) => Some((seq![e] + es, k)),
                },
            }
        }
    } else {
        None
    }
}

/// The records of a text that is exactly one document, with nothing after
/// it; nothing otherwise.
pub open spec fn parse_doc(d: Seq<char>) -> Option<Seq<FileEntryView>> {
    match p_doc(d, 0) {
        Some((es, k)) => if k == d.len() {
            Some(es)
        } else {
            None
        },
        None => None,
    }
}

/// A fragment standing at `i` splits: its left part stands at `i` and its
/// right part just after.
pub proof fn lemma_sub_at_split(d: Seq<char>, i: int, a: Seq<char>, b: Seq<char>)
    requires
        sub_at(d, i, a + b),
    ensures
        sub_at(d, i, a),
        sub_at(d, i + a.len(), b),
{
    let ab = a + b;
    assert forall|k: int| 0 <= k < a.len() implies d.subrange(i, i + a.len() as int)[k] == a[k] by {
        assert(d.subrange(i, i + ab.len())[k] == ab[k]);
    }
    assert(d.subrange(i, i + a.len()) =~= a);
    assert forall|k: int| 0 <= k < b.len() implies d.subrange(
        i + a.len(),
        i + a.len() + b.len(),
    )[k] == b[k] by {
        assert(d.subrange(i, i + ab.len())[a.len() + k] == ab[a.len() + k]);
    }
    assert(d.subrange(i + a.len(), i + a.len() + b.len()) =~= b);
}

/// A fragment standing at `i` fixes each character under it.
pub proof fn lemma_sub_at_index(d: Seq<char>, i: int, s: Seq<char>, k: int)
    requires
        sub_at(d, i, s),
        0 <= k < s.len(),
    ensures
        d[i + k] == s[k],
{
    assert(d.subrange(i, i + s.len())[k] == d[i + k]);
}

/// A hexadecimal digit character reads back as its value.
proof fn lemma_hex_round(v: int)
    requires
        0 <= v < 16,
    ensures
        hex_val(hex_digit(v)) == v,
{
}

/// Parsing a string body over the escaped form of `x`, followed by its
/// closing quote, decodes exactly `x` and stops after the quote.
pub proof fn lemma_p_strbody(d: Seq<char>, i: int, x: Seq<char>)
    requires
        sub_at(d, i, esc_str(x)),
        i + esc_str(x).len() < d.len(),
        d[i + esc_str(x).len()] == '"',
    ensures
        p_strbody(d, i) == Some((x, i + esc_str(x).len() + 1)),
    decreases x.len(),
{
    if x.len() == 0 {
        assert(d[i] == '"');
    } else {
        let c = x[0];
        let e0 = esc_char(c);
        let rest = esc_str(x.drop_first());
        assert(esc_str(x) == e0 + rest);
        lemma_sub_at_split(d, i, e0, rest);
        assert(i + esc_str(x).len() == i + e0.len() + rest.len());
        lemma_p_strbody(d, i + e0.len(), x.drop_first());
        assert(seq![c] + x.drop_first() =~= x);
        if c == '"' {
            lemma_sub_at_index(d, i, e0, 0);
            lemma_sub_at_index(d, i, e0, 1);
            assert(d[i] == '\\' && d[i + 1] == '"');
        } else if c == '\\' {
            lemma_sub_at_index(d, i, e0, 0);
            lemma_sub_at_index(d, i, e0, 1);
            assert(d[i] == '\\' && d[i + 1] == '\\');
        } else if c == '\u{8}' {
            lemma_sub_at_index(d, i, e0, 0);
            lemma_sub_at_index(d, i, e0, 1);
            assert(d[i] == '\\' && d[i + 1] == 'b');
        } else if c == '\t' {
            lemma_sub_at_index(d, i, e0, 0);
            lemma_sub_at_index(d, i, e0, 1);
            assert(d[i] == '\\' && d[i + 1] == 't');
        } else if c == '\n' {
            lemma_sub_at_index(d, i, e0, 0);
            lemma_sub_at_index(d, i, e0, 1);
            assert(d[i] == '\\' && d[i + 1] == 'n');
        } else if c == '\u{c}' {
            lemma_sub_at_index(d, i, e0, 0);
            lemma_sub_at_index(d, i, e0, 1);
            assert(d[i] == '\\' && d[i + 1] == 'f');
        } else if c == '\r' {
            lemma_sub_at_index(d, i, e0, 0);
            lemma_sub_at_index(d, i, e0, 1);
            assert(d[i] == '\\' && d[i + 1] == 'r');
        } else if (c as u32) < 0x20 {
            lemma_sub_at_index(d, i, e0, 0);
            lemma_sub_at_index(d, i, e0, 1);
            lemma_sub_at_index(d, i, e0, 2);
            lemma_sub_at_index(d, i, e0, 3);
            lemma_sub_at_index(d, i, e0, 4);
            lemma_sub_at_index(d, i, e0, 5);
            let code = (c as u32) as int;
            lemma_hex_round(code / 16);
            lemma_hex_round(code % 16);
            lemma_fundamental_div_mod(code, 16);
            assert(hex_val(d[i + 4]) * 16 + hex_val(d[i + 5]) == code);
            assert(short_unesc('u') is None);
            vstd::utf8::char_u32_cast(c, code as u32);
            assert(((code as u32) as char) == c);
        } else {
            lemma_sub_at_index(d, i, e0, 0);
            assert(d[i] == c);
        }
    }
}

/// Parsing digits over the decimal rendering of a number, followed by a
/// non-digit, reads exactly that rendering.
proof fn lemma_p_digits(d: Seq<char>, i: int, ds: Seq<char>)
    requires
        sub_at(d, i, ds),
        forall|k: int| 0 <= k < ds.len() ==> is_digit_char(#[trigger] ds[k]),
        i + ds.len() < d.len(),
        !is_digit_char(d[i + ds.len()]),
    ensures
        p_digits(d, i) == (ds, i + ds.len()),
    decreases ds.len(),
{
    if ds.len() == 0 {
    } else {
        assert(ds == seq![ds[0]] + ds.drop_first());
        lemma_sub_at_split(d, i, seq![ds[0]], ds.drop_first());
        lemma_sub_at_index(d, i, ds, 0);
        lemma_p_digits(d, i + 1, ds.drop_first());
        assert(seq![d[i]] + ds.drop_first() =~= ds);
    }
}

/// Parsing a number over the decimal rendering of `n`, followed by a
/// non-digit, yields exactly `n`.
pub proof fn lemma_p_u64(d: Seq<char>, i: int, n: u64)
    requires
        sub_at(d, i, u64_dec(n as nat)),
        i + u64_dec(n as nat).len() < d.len(),
        !is_digit_char(d[i + u64_dec(n as nat).len()]),
    ensures
        p_u64(d, i) == Some((n, i + u64_dec(n as nat).len())),
{
    lemma_u64_dec_digits(n as nat);
    lemma_p_digits(d, i, u64_dec(n as nat));
    lemma_dec_val_round(n as nat);
}

/// Parsing a kind tag over a rendered tag yields exactly that kind.
pub proof fn lemma_p_label(d: Seq<char>, i: int, t: EntryType)
    requires
        sub_at(d, i, t.label_spec()),
    ensures
        p_label(d, i) == Some((t, i + t.label_spec().len())),
{
    reveal_strlit("File");
    reveal_strlit("Dir");
    match t {
        EntryType::File => {
            assert(sub_at(d, i, "File"@));
        },
        EntryType::Dir => {
            assert(sub_at(d, i, "Dir"@));
            if sub_at(d, i, "File"@) {
                lemma_sub_at_index(d, i, "File"@, 0);
                lemma_sub_at_index(d, i, "Dir"@, 0);
                assert(false);
            }
        },
    }
}

/// Parsing a record object over the document text of `e` yields exactly
/// `e` and stops just after the object.
pub proof fn lemma_p_entry(d: Seq<char>, i: int, e: FileEntryView)
    requires
        sub_at(d, i, entry_json(e)),
    ensures
        p_entry(d, i) == Some((e, i + entry_json(e).len())),
{
    let q = seq!['"'];
    let s1 = lit_perms();
    let s2 = esc_str(e.permissions);
    let s4 = lit_name();
    let s5 = esc_str(e.name);
    let s7 = lit_etype();
    let s8 = e.e_type.label_spec();
    let s9 = lit_len();
    let s10 = u64_dec(e.len_bytes as nat);
    let s11 = lit_mod();
    let s12 = esc_str(e.modified);
    let s14 = lit_close();
    // peel the parts off the definitional (left-associated) concatenation,
    // rightmost first
    let p1 = s1;
    let p2 = p1 + s2;
    let p3 = p2 + q;
    let p4 = p3 + s4;
    let p5 = p4 + s5;
    let p6 = p5 + q;
    let p7 = p6 + s7;
    let p8 = p7 + s8;
    let p9 = p8 + s9;
    let p10 = p9 + s10;
    let p11 = p10 + s11;
    let p12 = p11 + s12;
    let p13 = p12 + q;
    lemma_sub_at_split(d, i, p13, s14);
    lemma_sub_at_split(d, i, p12, q);
    lemma_sub_at_split(d, i, p11, s12);
    lemma_sub_at_split(d, i, p10, s11);
    lemma_sub_at_split(d, i, p9, s10);
    lemma_sub_at_split(d, i, p8, s9);
    lemma_sub_at_split(d, i, p7, s8);
    lemma_sub_at_split(d, i, p6, s7);
    lemma_sub_at_split(d, i, p5, q);
    lemma_sub_at_split(d, i, p4, s5);
    lemma_sub_at_split(d, i, p3, s4);
    lemma_sub_at_split(d, i, p2, q);
    lemma_sub_at_split(d, i, p1, s2);
    let o1 = i + s1.len() as int;
    let o2 = o1 + s2.len() as int;
    let o3 = o2 + 1;
    let o4 = o3 + s4.len() as int;
    let o5 = o4 + s5.len() as int;
    let o6 = o5 + 1;
    let o7 = o6 + s7.len() as int;
    let o8 = o7 + s8.len() as int;
    let o9 = o8 + s9.len() as int;
    let o10 = o9 + s10.len() as int;
    let o11 = o10 + s11.len() as int;
    let o12 = o11 + s12.len() as int;
    let o13 = o12 + 1;
    // the permissions value ends at the quote that follows it
    lemma_sub_at_index(d, o2, q, 0);
    lemma_p_strbody(d, o1, e.permissions);
    // the name value likewise
    lemma_sub_at_index(d, o5, q, 0);
    lemma_p_strbody(d, o4, e.name);
    // the kind tag
    lemma_p_label(d, o7, e.e_type);
    // the byte length ends at the comma that opens the modified field
    reveal_strlit(",\"modified\":\"");
    lemma_sub_at_index(d, o10, s11, 0);
    assert(d[o10] == ',');
    lemma_p_u64(d, o9, e.len_bytes);
    // the modified value ends at the quote before the closing brace
    lemma_sub_at_index(d, o12, q, 0);
    lemma_p_strbody(d, o11, e.modified);
    assert(p_entry(d, i) == Some((e, o13 + s14.len())));
}

/// Parsing the tail of a document over rendered records followed by the
/// closing bracket yields exactly those records.
pub proof fn lemma_p_rest(d: Seq<char>, i: int, es: Seq<FileEntryView>)
    requires
        sub_at(d, i, rest_json(es)),
        i + rest_json(es).len() < d.len(),
        d[i + rest_json(es).len()] == ']',
    ensures
        p_rest(d, i) == Some((es, i + rest_json(es).len() + 1)),
    decreases es.len(),
{
    if es.len() == 0 {
        assert(d[i] == ']');
    } else {
        let ej = entry_json(es[0]);
        let rest = rest_json(es.drop_first());
        lemma_sub_at_split(d, i, seq![','] + ej, rest);
        lemma_sub_at_split(d, i, seq![','], ej);
        lemma_sub_at_index(d, i, seq![','], 0);
        assert(d[i] == ',');
        lemma_p_entry(d, i + 1, es[0]);
        let j = i + 1 + ej.len();
        lemma_p_rest(d, j, es.drop_first());
        assert(seq![es[0]] + es.drop_first() =~= es);
    }
}

/// Every text stands inside itself at its start.
proof fn lemma_sub_at_self(d: Seq<char>)
    ensures
        sub_at(d, 0, d),
{
    assert(d.subrange(0, d.len() as int) =~= d);
}

/// The first character of a record object is its opening brace.
#[verifier::spinoff_prover]
proof fn lemma_entry_json_opens(e: FileEntryView)
    ensures
        entry_json(e).len() > 0,
        entry_json(e)[0] == '{',
{
    reveal_strlit("{\"permissions\":\"");
    assert(entry_json(e)[0] == lit_perms()[0]);
}

/// Round trip for a document with at least one record.
#[verifier::spinoff_prover]
#[verifier::rlimit(100)]
proof fn lemma_doc_round_trip_nonempty(es: Seq<FileEntryView>)
    requires
        es.len() > 0,
    ensures
        p_doc(doc_json(es), 0) == Some((es, doc_json(es).len() as int)),
{
    let d = doc_json(es);
    lemma_sub_at_self(d);
    let ej = entry_json(es[0]);
    let rest = rest_json(es.drop_first());
    let inner = inner_json(es);
    assert(inner == ej + rest);
    lemma_sub_at_split(d, 0, seq!['['] + inner, seq![']']);
    lemma_sub_at_split(d, 0, seq!['['], inner);
    lemma_sub_at_split(d, 1, ej, rest);
    let j: int = 1 + ej.len() as int;
    lemma_sub_at_index(d, 0, seq!['['], 0);
    assert(d[0] == '[');
    lemma_entry_json_opens(es[0]);
    lemma_sub_at_index(d, 1, ej, 0);
    assert(d[1] == '{');
    lemma_p_entry(d, 1, es[0]);
    lemma_sub_at_index(d, j + rest.len(), seq![']'], 0);
    lemma_p_rest(d, j, es.drop_first());
    assert(seq![es[0]] + es.drop_first() =~= es);
}

/// Round trip: the document emitted for any sequence of records parses back
/// to exactly those records, consuming the whole document.
pub proof fn lemma_doc_round_trip(es: Seq<FileEntryView>)
    ensures
        p_doc(doc_json(es), 0) == Some((es, doc_json(es).len() as int)),
        parse_doc(doc_json(es)) == Some(es),
{
    let d = doc_json(es);
    if es.len() == 0 {
        assert(d =~= seq!['[', ']']);
    } else {
        lemma_doc_round_trip_nonempty(es);
    }
}

/// Consumes the fragment `lit` at `i`, if it stands there.
fn e_lit(d: &Vec<char>, i: usize, lit: &str) -> (r: Option<usize>)
    requires
        i <= d@.len(),
    ensures
        r is Some <==> p_lit(d@, i as int, lit@) is Some,
        r matches Some(j) ==> p_lit(d@, i as int, lit@) == Some(j as int) && i <= j <= d@.len(),
{
    let cs = chars_of(lit);
    if d.len() - i < cs.len() {
        return None;
    }
    let mut k: usize = 0;
    while k < cs.len()
        invariant
            k <= cs.len(),
            cs@ == lit@,
            i + cs@.len() <= d@.len(),
            forall|m: int| 0 <= m < k ==> d@[i + m] == cs@[m],
        decreases cs.len() - k,
    {
        assert(i + k < d.len());
        if d[i + k] != cs[k] {
            proof {
                if sub_at(d@, i as int, lit@) {
                    lemma_sub_at_index(d@, i as int, lit@, k as int);
                }
            }
            return None;
        }
        k = k + 1;
    }
    proof {
        assert(d@.subrange(i as int, i + lit@.len()) =~= lit@);
    }
    Some(i + cs.len())
}

/// The character a short escape stands for, if any.
fn short_of(c: char) -> (r: Option<char>)
    ensures
        r == short_unesc(c),
{
    if c == '"' {
        Some('"')
    } else if c == '\\' {
        Some('\\')
    } else if c == 'b' {
        Some('\u{8}')
    } else if c == 't' {
        Some('\t')
    } else if c == 'n' {
        Some('\n')
    } else if c == 'f' {
        Some('\u{c}')
    } else if c == 'r' {
        Some('\r')
    } else {
        None
    }
}

/// The value of a hexadecimal digit character, or -1 when it is none.
fn hexv(c: char) -> (v: i32)
    ensures
        v as int == hex_val(c),
{
    if c == '0' {
        0
    } else if c == '1' {
        1
    } else if c == '2' {
        2
    } else if c == '3' {
        3
    } else if c == '4' {
        4
    } else if c == '5' {
        5
    } else if c == '6' {
        6
    } else if c == '7' {
        7
    } else if c == '8' {
        8
    } else if c == '9' {
        9
    } else if c == 'a' || c == 'A' {
        10
    } else if c == 'b' || c == 'B' {
        11
    } else if c == 'c' || c == 'C' {
        12
    } else if c == 'd' || c == 'D' {
        13
    } else if c == 'e' || c == 'E' {
        14
    } else if c == 'f' || c == 'F' {
        15
    } else {
        -1
    }
}

/// Whether a character is a decimal digit.
fn digitp(c: char) -> (r: bool)
    ensures
        r == is_digit_char(c),
{
    c == '0' || c == '1' || c == '2' || c == '3' || c == '4' || c == '5' || c == '6' || c == '7'
        || c == '8' || c == '9'
}

/// The value of a decimal digit character.
fn dval_of(c: char) -> (v: u64)
    requires
        is_digit_char(c),
    ensures
        v as int == digit_val(c),
{
    if c == '0' {
        0
    } else if c == '1' {
        1
    } else if c == '2' {
        2
    } else if c == '3' {
        3
    } else if c == '4' {
        4
    } else if c == '5' {
        5
    } else if c == '6' {
        6
    } else if c == '7' {
        7
    } else if c == '8' {
        8
    } else {
        9
    }
}

/// Consumes the rest of a quoted string value, up to and including its
/// closing quote.
fn e_strbody(d: &Vec<char>, i: usize) -> (r: Option<(String, usize)>)
    requires
        i <= d@.len(),
    ensures
        r is Some <==> p_strbody(d@, i as int) is Some,
        r matches Some(p) ==> p_strbody(d@, i as int) == Some((p.0@, p.1 as int)) && i < p.1
            <= d@.len(),
{
    let mut acc: Vec<char> = Vec::new();
    let mut cur: usize = i;
    loop
        invariant
            i <= cur <= d@.len(),
            (p_strbody(d@, cur as int) matches Some(r0) ==> p_strbody(d@, i as int) == Some(
                (acc@ + r0.0, r0.1),
            )),
            (p_strbody(d@, cur as int) is None ==> p_strbody(d@, i as int) is None),
        decreases d@.len() - cur,
    {
        if cur >= d.len() {
            return None;
        }
        let c = d[cur];
        if c == '"' {
            proof {
                assert(acc@ + Seq::<char>::empty() =~= acc@);
            }
            let s = string_from_chars(&acc);
            return Some((s, cur + 1));
        } else if c == '\\' {
            let ghost prev = cur as int;
            let ghost prev_acc = acc@;
            if d.len() - cur >= 2 && short_of(d[cur + 1]).is_some() {
                let dc = match short_of(d[cur + 1]) {
                    Some(x) => x,
                    None => c,
                };
                acc.push(dc);
                cur = cur + 2;
                proof {
                    if p_strbody(d@, cur as int) is Some {
                        let r0 = p_strbody(d@, cur as int)->Some_0;
                        assert(p_strbody(d@, prev) == Some((seq![dc] + r0.0, r0.1)));
                        assert(prev_acc + (seq![dc] + r0.0) =~= acc@ + r0.0);
                    }
                }
            } else if d.len() - cur >= 6 && d[cur + 1] == 'u' && d[cur + 2] == '0' && d[cur + 3]
                == '0' && hexv(d[cur + 4]) >= 0 && hexv(d[cur + 5]) >= 0 {
                let h1 = hexv(d[cur + 4]);
                let h2 = hexv(d[cur + 5]);
                let code: u32 = (h1 as u32) * 16 + (h2 as u32);
                let dc: char = (code as u8) as char;
                proof {
                    vstd::utf8::char_u32_cast(dc, code);
                    assert(dc == ((hex_val(d@[prev + 4]) * 16 + hex_val(d@[prev + 5])) as u32)
                        as char);
                }
                acc.push(dc);
                cur = cur + 6;
                proof {
                    if p_strbody(d@, cur as int) is Some {
                        let r0 = p_strbody(d@, cur as int)->Some_0;
                        assert(p_strbody(d@, prev) == Some((seq![dc] + r0.0, r0.1)));
                        assert(prev_acc + (seq![dc] + r0.0) =~= acc@ + r0.0);
                    }
                }
            } else {
                return None;
            }
        } else {
            let ghost prev = cur as int;
            let ghost prev_acc = acc@;
            acc.push(c);
            cur = cur + 1;
            proof {
                if p_strbody(d@, cur as int) is Some {
                    let r0 = p_strbody(d@, cur as int)->Some_0;
                    assert(p_strbody(d@, prev) == Some((seq![c] + r0.0, r0.1)));
                    assert(prev_acc + (seq![c] + r0.0) =~= acc@ + r0.0);
                }
            }
        }
    }
}

/// Consumes a decimal number that fits an unsigned 64-bit value.
fn e_u64(d: &Vec<char>, i: usize) -> (r: Option<(u64, usize)>)
    requires
        i <= d@.len(),
    ensures
        r is Some <==> p_u64(d@, i as int) is Some,
        r matches Some(p) ==> p_u64(d@, i as int) == Some((p.0, p.1 as int)) && i < p.1
            <= d@.len(),
{
    let mut acc: u64 = 0;
    let mut cur: usize = i;
    loop
        invariant
            i <= cur <= d@.len(),
            acc as int == dec_val(d@.subrange(i as int, cur as int)),
            p_digits(d@, i as int).0 == d@.subrange(i as int, cur as int) + p_digits(
                d@,
                cur as int,
            ).0,
            p_digits(d@, i as int).1 == p_digits(d@, cur as int).1,
        decreases d@.len() - cur,
    {
        let ghost consumed = d@.subrange(i as int, cur as int);
        if cur >= d.len() || !digitp(d[cur]) {
            proof {
                assert(consumed + Seq::<char>::empty() =~= consumed);
            }
            if cur == i {
                proof {
                    assert(d@.subrange(i as int, i as int) =~= Seq::<char>::empty());
                }
                return None;
            }
            return Some((acc, cur));
        }
        let c = d[cur];
        let dv = dval_of(c);
        proof {
            assert(consumed.push(c) =~= d@.subrange(i as int, cur + 1));
            assert(consumed.push(c).drop_last() =~= consumed);
            assert(dec_val(consumed.push(c)) == dec_val(consumed) * 10 + digit_val(c));
            assert(p_digits(d@, cur as int).0 == seq![c] + p_digits(d@, cur + 1).0);
            assert(consumed + (seq![c] + p_digits(d@, cur + 1).0) =~= consumed.push(c) + p_digits(
                d@,
                cur + 1,
            ).0);
        }
        if acc > u64::MAX / 10 || (acc == u64::MAX / 10 && dv > u64::MAX % 10) {
            proof {
                lemma_dec_val_nonneg(consumed);
                assert(dec_val(consumed.push(c)) > u64::MAX);
                lemma_dec_val_extend(consumed.push(c), p_digits(d@, cur + 1).0);
                assert(dec_val(p_digits(d@, i as int).0) > u64::MAX);
            }
            return None;
        }
        acc = acc * 10 + dv;
        cur = cur + 1;
    }
}

/// Consumes a kind tag, `File` or `Dir`.
fn e_label(d: &Vec<char>, i: usize) -> (r: Option<(EntryType, usize)>)
    requires
        i <= d@.len(),
    ensures
        r is Some <==> p_label(d@, i as int) is Some,
        r matches Some(p) ==> p_label(d@, i as int) == Some((p.0, p.1 as int)) && i < p.1
            <= d@.len(),
{
    proof {
        reveal_strlit("File");
        reveal_strlit("Dir");
    }
    match e_lit(d, i, "File") {
        Some(j) => Some((EntryType::File, j)),
        None => match e_lit(d, i, "Dir") {
            Some(j) => Some((EntryType::Dir, j)),
            None => None,
        },
    }
}

/// Consumes one record object.
fn e_entry(d: &Vec<char>, i: usize) -> (r: Option<(FileEntry, usize)>)
    requires
        i <= d@.len(),
    ensures
        r is Some <==> p_entry(d@, i as int) is Some,
        r matches Some(p) ==> p_entry(d@, i as int) == Some((p.0@, p.1 as int)) && i + 1 < p.1
            <= d@.len(),
{
    proof {
        reveal_strlit("{\"permissions\":\"");
    }
    let j1 = match e_lit(d, i, "{\"permissions\":\"") {
        Some(j) => j,
        None => {
            return None;
        },
    };
    let (permissions, j2) = match e_strbody(d, j1) {
        Some(p) => p,
        None => {
            return None;
        },
    };
    let j3 = match e_lit(d, j2, ",\"name\":\"") {
        Some(j) => j,
        None => {
            return None;
        },
    };
    let (name, j4) = match e_strbody(d, j3) {
        Some(p) => p,
        None => {
            return None;
        },
    };
    let j5 = match e_lit(d, j4, ",\"e_type\":\"") {
        Some(j) => j,
        None => {
            return None;
        },
    };
    let (e_type, j6) = match e_label(d, j5) {
        Some(p) => p,
        None => {
            return None;
        },
    };
    let j7 = match e_lit(d, j6, "\",\"len_bytes\":") {
        Some(j) => j,
        None => {
            return None;
        },
    };
    let (len_bytes, j8) = match e_u64(d, j7) {
        Some(p) => p,
        None => {
            return None;
        },
    };
    let j9 = match e_lit(d, j8, ",\"modified\":\"") {
        Some(j) => j,
        None => {
            return None;
        },
    };
    let (modified, j10) = match e_strbody(d, j9) {
        Some(p) => p,
        None => {
            return None;
        },
    };
    let j11 = match e_lit(d, j10, "}") {
        Some(j) => j,
        None => {
            return None;
        },
    };
    Some((FileEntry { permissions, name, e_type, len_bytes, modified }, j11))
}

/// Consumes the records after the first one, up to and including the
/// closing bracket.
fn e_rest(d: &Vec<char>, i: usize) -> (r: Option<(Vec<FileEntry>, usize)>)
    requires
        i <= d@.len(),
    ensures
        r is Some <==> p_rest(d@, i as int) is Some,
        r matches Some(p) ==> p_rest(d@, i as int) == Some((entry_views(p.0@), p.1 as int)) && p.1
            <= d@.len(),
{
    let mut acc: Vec<FileEntry> = Vec::new();
    let mut cur: usize = i;
    loop
        invariant
            i <= cur <= d@.len(),
            (p_rest(d@, cur as int) matches Some(r0) ==> p_rest(d@, i as int) == Some(
                (entry_views(acc@) + r0.0, r0.1),
            )),
            (p_rest(d@, cur as int) is None ==> p_rest(d@, i as int) is None),
        decreases d@.len() - cur,
    {
        if cur >= d.len() {
            return None;
        }
        let c = d[cur];
        if c == ']' {
            proof {
                assert(entry_views(acc@) + Seq::<FileEntryView>::empty() =~= entry_views(acc@));
            }
            return Some((acc, cur + 1));
        } else if c == ',' {
            match e_entry(d, cur + 1) {
                None => {
                    return None;
                },
                Some((fe, j)) => {
                    let ghost prev = cur as int;
                    let ghost prev_acc = acc@;
                    acc.push(fe);
                    cur = j;
                    proof {
                        assert(entry_views(acc@) =~= entry_views(prev_acc) + seq![fe@]);
                        if p_rest(d@, cur as int) is Some {
                            let r0 = p_rest(d@, cur as int)->Some_0;
                            assert(p_rest(d@, prev) == Some((seq![fe@] + r0.0, r0.1)));
                            assert((entry_views(prev_acc) + seq![fe@]) + r0.0 =~= entry_views(
                                prev_acc,
                            ) + (seq![fe@] + r0.0));
                        }
                    }
                },
            }
        } else {
            return None;
        }
    }
}

/// Parses a structured document back into its records: the inverse of
/// serialization. Yields the records exactly when the whole text is one
/// document, and nothing otherwise.
pub fn from_json(s: &str) -> (r: Option<Vec<FileEntry>>)
    ensures
        r matches Some(v) ==> parse_doc(s@) == Some(entry_views(v@)),
        r is None ==> parse_doc(s@) is None,
{
    let d = chars_of(s);
    if d.len() == 0 {
        return None;
    }
    if d[0] != '[' {
        return None;
    }
    if d.len() >= 2 && d[1] == ']' {
        if d.len() == 2 {
            let empty: Vec<FileEntry> = Vec::new();
            proof {
                assert(entry_views(empty@) =~= Seq::<FileEntryView>::empty());
            }
            return Some(empty);
        }
        return None;
    }
    match e_entry(&d, 1) {
        None => None,
        Some((fe, j)) => match e_rest(&d, j) {
            None => None,
            Some((mut v, k)) => {
                if k == d.len() {
                    let ghost tail = v@;
                    v.insert(0, fe);
                    proof {
                        assert(entry_views(v@) =~= seq![fe@] + entry_views(tail));
                    }
                    Some(v)
                } else {
                    None
                }
            },
        },
    }
}

} // verus!
