//! The structured document: a self-describing, machine-readable rendering of
//! a listing, and a parser for it.
//!
//! The document is one line of JSON: an array of objects with exactly the
//! fields `permissions`, `name`, `e_type`, `len_bytes` and `modified`, in
//! that order, where `e_type` is the literal string `File` or `Dir`. String
//! values are escaped JSON-style (`\"`, `\\`, `\b`, `\t`, `\n`, `\f`, `\r`,
//! and `\u00XX` for the remaining control characters). Emission is total:
//! every sequence of records has a document, and parsing it back yields
//! exactly the records it was emitted from.

use vstd::prelude::*;
use crate::digits::{u64_dec, u64_to_dec};
use crate::entry::{FileEntry, FileEntryView, entry_views};
use crate::text::{chars_of, string_from_chars};

verus! {

/// The character for one hexadecimal digit value, lower case.
pub open spec fn hex_digit(d: int) -> char {
    if d == 0 {
        '0'
    } else if d == 1 {
        '1'
    } else if d == 2 {
        '2'
    } else if d == 3 {
        '3'
    } else if d == 4 {
        '4'
    } else if d == 5 {
        '5'
    } else if d == 6 {
        '6'
    } else if d == 7 {
        '7'
    } else if d == 8 {
        '8'
    } else if d == 9 {
        '9'
    } else if d == 10 {
        'a'
    } else if d == 11 {
        'b'
    } else if d == 12 {
        'c'
    } else if d == 13 {
        'd'
    } else if d == 14 {
        'e'
    } else {
        'f'
    }
}

/// The value of a hexadecimal digit character, or -1 when it is none.
pub open spec fn hex_val(c: char) -> int {
    if c == '0' {
        0
    } else if c == '1' {
        1
    } else if c == '2' {
        2
    } else if c == '3' {
        3
    } else if c == '4' {
        4
    } else if c == '5' {
        5
    } else if c == '6' {
        6
    } else if c == '7' {
        7
    } else if c == '8' {
        8
    } else if c == '9' {
        9
    } else if c == 'a' || c == 'A' {
        10
    } else if c == 'b' || c == 'B' {
        11
    } else if c == 'c' || c == 'C' {
        12
    } else if c == 'd' || c == 'D' {
        13
    } else if c == 'e' || c == 'E' {
        14
    } else if c == 'f' || c == 'F' {
        15
    } else {
        -1
    }
}

/// The escape of one character inside a quoted string: the character itself
/// when it needs none, a two-character short escape, or `\u00XX`.
pub open spec fn esc_char(c: char) -> Seq<char> {
    if c == '"' {
        seq!['\\', '"']
    } else if c == '\\' {
        seq!['\\', '\\']
    } else if c == '\u{8}' {
        seq!['\\', 'b']
    } else if c == '\t' {
        seq!['\\', 't']
    } else if c == '\n' {
        seq!['\\', 'n']
    } else if c == '\u{c}' {
        seq!['\\', 'f']
    } else if c == '\r' {
        seq!['\\', 'r']
    } else if (c as u32) < 0x20 {
        seq!['\\', 'u', '0', '0', hex_digit((c as u32) as int / 16), hex_digit((c as u32) as int % 16)]
    } else {
        seq![c]
    }
}

/// The escaped form of a whole string value.
pub open spec fn esc_str(s: Seq<char>) -> Seq<char>
    decreases s.len(),
{
    if s.len() == 0 {
        Seq::empty()
    } else {
        esc_char(s[0]) + esc_str(s.drop_first())
    }
}

/// Escaping distributes over concatenation.
pub proof fn lemma_esc_str_append(a: Seq<char>, b: Seq<char>)
    ensures
        esc_str(a + b) == esc_str(a) + esc_str(b),
    decreases a.len(),
{
    if a.len() == 0 {
        assert(a + b =~= b);
        assert(esc_str(a) + esc_str(b) =~= esc_str(b));
    } else {
        lemma_esc_str_append(a.drop_first(), b);
        assert((a + b).drop_first() =~= a.drop_first() + b);
        assert((a + b)[0] == a[0]);
        assert(esc_str(a + b) =~= esc_str(a) + esc_str(b));
    }
}

/// The fragment that opens a record and announces its permissions field.
pub open spec fn lit_perms() -> Seq<char> {
    "{\"permissions\":\""@
}

/// The fragment between the permissions value and the name value.
pub open spec fn lit_name() -> Seq<char> {
    ",\"name\":\""@
}

/// The fragment between the name value and the kind tag.
pub open spec fn lit_etype() -> Seq<char> {
    ",\"e_type\":\""@
}

/// The fragment between the kind tag and the byte length.
pub open spec fn lit_len() -> Seq<char> {
    "\",\"len_bytes\":"@
}

/// The fragment between the byte length and the modification date.
pub open spec fn lit_mod() -> Seq<char> {
    ",\"modified\":\""@
}

/// The fragment that closes a record.
pub open spec fn lit_close() -> Seq<char> {
    "}"@
}

/// The document text of one record.
pub open spec fn entry_json(e: FileEntryView) -> Seq<char> {
    lit_perms() + esc_str(e.permissions) + seq!['"'] + lit_name() + esc_str(e.name) + seq!['"']
        + lit_etype() + e.e_type.label_spec() + lit_len() + u64_dec(e.len_bytes as nat) + lit_mod()
        + esc_str(e.modified) + seq!['"'] + lit_close()
}

/// The records of a document after its first one: each preceded by a comma.
pub open spec fn rest_json(es: Seq<FileEntryView>) -> Seq<char>
    decreases es.len(),
{
    if es.len() == 0 {
        Seq::empty()
    } else {
        seq![','] + entry_json(es[0]) + rest_json(es.drop_first())
    }
}

/// The comma-separated records of a document.
pub open spec fn inner_json(es: Seq<FileEntryView>) -> Seq<char> {
    if es.len() == 0 {
        Seq::empty()
    } else {
        entry_json(es[0]) + rest_json(es.drop_first())
    }
}

/// The whole document: the records between brackets, as one line.
pub open spec fn doc_json(es: Seq<FileEntryView>) -> Seq<char> {
    seq!['['] + inner_json(es) + seq![']']
}

/// The tail of a document distributes over concatenation.
pub proof fn lemma_rest_json_append(a: Seq<FileEntryView>, b: Seq<FileEntryView>)
    ensures
        rest_json(a + b) == rest_json(a) + rest_json(b),
    decreases a.len(),
{
    if a.len() == 0 {
        assert(a + b =~= b);
        assert(rest_json(a) + rest_json(b) =~= rest_json(b));
    } else {
        lemma_rest_json_append(a.drop_first(), b);
        assert((a + b).drop_first() =~= a.drop_first() + b);
        assert((a + b)[0] == a[0]);
        assert(rest_json(a + b) =~= rest_json(a) + rest_json(b));
    }
}

/// Appending one record to a listing appends its (comma-separated) text.
pub proof fn lemma_inner_json_push(es: Seq<FileEntryView>, e: FileEntryView)
    ensures
        es.len() == 0 ==> inner_json(es.push(e)) == entry_json(e),
        es.len() > 0 ==> inner_json(es.push(e)) == inner_json(es) + seq![','] + entry_json(e),
{
    if es.len() == 0 {
        assert(es.push(e).drop_first() =~= Seq::<FileEntryView>::empty());
        assert(rest_json(Seq::<FileEntryView>::empty()) == Seq::<char>::empty());
        assert(inner_json(es.push(e)) =~= entry_json(e));
    } else {
        let single = seq![e];
        assert(es.push(e).drop_first() =~= es.drop_first() + single);
        lemma_rest_json_append(es.drop_first(), single);
        assert(single.drop_first() =~= Seq::<FileEntryView>::empty());
        assert(rest_json(Seq::<FileEntryView>::empty()) == Seq::<char>::empty());
        assert(rest_json(single) =~= seq![','] + entry_json(e));
        assert(es.push(e)[0] == es[0]);
        assert(inner_json(es.push(e)) =~= inner_json(es) + seq![','] + entry_json(e));
    }
}

/// The character for one hexadecimal digit value, lower case.
fn hex_of(d: u32) -> (c: char)
    requires
        d < 16,
    ensures
        c == hex_digit(d as int),
{
    if d == 0 {
        '0'
    } else if d == 1 {
        '1'
    } else if d == 2 {
        '2'
    } else if d == 3 {
        '3'
    } else if d == 4 {
        '4'
    } else if d == 5 {
        '5'
    } else if d == 6 {
        '6'
    } else if d == 7 {
        '7'
    } else if d == 8 {
        '8'
    } else if d == 9 {
        '9'
    } else if d == 10 {
        'a'
    } else if d == 11 {
        'b'
    } else if d == 12 {
        'c'
    } else if d == 13 {
        'd'
    } else if d == 14 {
        'e'
    } else {
        'f'
    }
}

/// Appends the escape of one character.
fn push_esc_char(out: &mut Vec<char>, c: char)
    ensures
        final(out)@ == old(out)@ + esc_char(c),
{
    if c == '"' {
        out.push('\\');
        out.push('"');
    } else if c == '\\' {
        out.push('\\');
        out.push('\\');
    } else if c == '\u{8}' {
        out.push('\\');
        out.push('b');
    } else if c == '\t' {
        out.push('\\');
        out.push('t');
    } else if c == '\n' {
        out.push('\\');
        out.push('n');
    } else if c == '\u{c}' {
        out.push('\\');
        out.push('f');
    } else if c == '\r' {
        out.push('\\');
        out.push('r');
    } else {
        let code: u32 = c as u32;
        if code < 0x20 {
            out.push('\\');
            out.push('u');
            out.push('0');
            out.push('0');
            out.push(hex_of(code / 16));
            out.push(hex_of(code % 16));
        } else {
            out.push(c);
        }
    }
    proof {
        assert(out@ =~= old(out)@ + esc_char(c));
    }
}

/// Appends the characters of a literal fragment.
fn push_lit(out: &mut Vec<char>, lit: &str)
    ensures
        final(out)@ == old(out)@ + lit@,
{
    let cs = chars_of(lit);
    let mut k: usize = 0;
    while k < cs.len()
        invariant
            k <= cs.len(),
            cs@ == lit@,
            out@ == old(out)@ + cs@.take(k as int),
        decreases cs.len() - k,
    {
        out.push(cs[k]);
        proof {
            assert(old(out)@ + cs@.take(k + 1) =~= (old(out)@ + cs@.take(k as int)).push(
                cs@[k as int],
            ));
        }
        k = k + 1;
    }
    proof {
        assert(cs@.take(cs@.len() as int) =~= cs@);
    }
}

/// Appends the escaped form of a string value.
fn push_escaped(out: &mut Vec<char>, s: &str)
    ensures
        final(out)@ == old(out)@ + esc_str(s@),
{
    let cs = chars_of(s);
    let mut k: usize = 0;
    while k < cs.len()
        invariant
            k <= cs.len(),
            cs@ == s@,
            out@ == old(out)@ + esc_str(cs@.take(k as int)),
        decreases cs.len() - k,
    {
        push_esc_char(out, cs[k]);
        proof {
            let single = seq![cs@[k as int]];
            assert(cs@.take(k + 1) =~= cs@.take(k as int) + single);
            lemma_esc_str_append(cs@.take(k as int), single);
            assert(single.drop_first() =~= Seq::<char>::empty());
            assert(esc_str(Seq::<char>::empty()) == Seq::<char>::empty());
            assert(esc_str(single) =~= esc_char(cs@[k as int]));
            assert(out@ =~= old(out)@ + esc_str(cs@.take(k + 1)));
        }
        k = k + 1;
    }
    proof {
        assert(cs@.take(cs@.len() as int) =~= cs@);
    }
}

/// Appends a sequence of already-rendered characters.
fn push_chars(out: &mut Vec<char>, v: &Vec<char>)
    ensures
        final(out)@ == old(out)@ + v@,
{
    let mut k: usize = 0;
    while k < v.len()
        invariant
            k <= v.len(),
            out@ == old(out)@ + v@.take(k as int),
        decreases v.len() - k,
    {
        out.push(v[k]);
        proof {
            assert(old(out)@ + v@.take(k + 1) =~= (old(out)@ + v@.take(k as int)).push(
                v@[k as int],
            ));
        }
        k = k + 1;
    }
    proof {
        assert(v@.take(v@.len() as int) =~= v@);
    }
}

/// Appends the document text of one record.
fn push_entry(out: &mut Vec<char>, e: &FileEntry)
    ensures
        final(out)@ == old(out)@ + entry_json(e@),
{
    push_lit(out, "{\"permissions\":\"");
    push_escaped(out, e.permissions.as_str());
    push_lit(out, "\"");
    push_lit(out, ",\"name\":\"");
    push_escaped(out, e.name.as_str());
    push_lit(out, "\"");
    push_lit(out, ",\"e_type\":\"");
    let label = e.e_type.label();
    push_lit(out, label.as_str());
    push_lit(out, "\",\"len_bytes\":");
    let ds = u64_to_dec(e.len_bytes);
    push_chars(out, &ds);
    push_lit(out, ",\"modified\":\"");
    push_escaped(out, e.modified.as_str());
    push_lit(out, "\"");
    push_lit(out, "}");
    proof {
        reveal_strlit("\"");
        assert(out@ =~= old(out)@ + entry_json(e@));
    }
}

/// Serializes a listing into its structured document: one line holding one
/// object per record, in listing order, with the fields `permissions`,
/// `name`, `e_type`, `len_bytes` and `modified`. Emission never fails.
pub fn to_json(entries: &Vec<FileEntry>) -> (r: String)
    ensures
        r@ == doc_json(entry_views(entries@)),
{
    let ghost ev = entry_views(entries@);
    let mut out: Vec<char> = Vec::new();
    out.push('[');
    let mut i: usize = 0;
    while i < entries.len()
        invariant
            i <= entries.len(),
            ev == entry_views(entries@),
            out@ == seq!['['] + inner_json(ev.take(i as int)),
        decreases entries.len() - i,
    {
        if i > 0 {
            out.push(',');
        }
        push_entry(&mut out, &entries[i]);
        proof {
            assert(ev.take(i + 1) =~= ev.take(i as int).push(ev[i as int]));
            lemma_inner_json_push(ev.take(i as int), ev[i as int]);
            assert(ev[i as int] == entries@[i as int]@);
            assert(out@ =~= seq!['['] + inner_json(ev.take(i + 1)));
        }
        i = i + 1;
    }
    out.push(']');
    proof {
        assert(ev.take(ev.len() as int) =~= ev);
        assert(out@ =~= doc_json(ev));
    }
    string_from_chars(&out)
}

} // verus!
