//! Symbolic rendering of POSIX permission bits.

use vstd::prelude::*;
use vstd::string::StringExecFns;

verus! {

/// The symbolic character for one permission bit: `sym` when the masked bit
/// of `mode` is set, `-` otherwise.
pub open spec fn perm_char(mode: u32, mask: u32, sym: char) -> char {
    if mode & mask != 0 {
        sym
    } else {
        '-'
    }
}

/// The mask tested at position `i` of the rendering: owner read first,
/// other execute last.
pub open spec fn perm_mask(i: int) -> u32 {
    if i == 0 {
        0o400
    } else if i == 1 {
        0o200
    } else if i == 2 {
        0o100
    } else if i == 3 {
        0o040
    } else if i == 4 {
        0o020
    } else if i == 5 {
        0o010
    } else if i == 6 {
        0o004
    } else if i == 7 {
        0o002
    } else {
        0o001
    }
}

/// The symbol shown at position `i` when its bit is set: `r`, `w` or `x`,
/// repeating for owner, group and other.
pub open spec fn perm_sym(i: int) -> char {
    if i % 3 == 0 {
        'r'
    } else if i % 3 == 1 {
        'w'
    } else {
        'x'
    }
}

/// The 9-character owner/group/other rendering of the low nine bits of
/// `mode`. Higher bits (file type, setuid, sticky) are ignored.
pub open spec fn format_mode_spec(mode: u32) -> Seq<char> {
    seq![
        perm_char(mode, 0o400, 'r'),
        perm_char(mode, 0o200, 'w'),
        perm_char(mode, 0o100, 'x'),
        perm_char(mode, 0o040, 'r'),
        perm_char(mode, 0o020, 'w'),
        perm_char(mode, 0o010, 'x'),
        perm_char(mode, 0o004, 'r'),
        perm_char(mode, 0o002, 'w'),
        perm_char(mode, 0o001, 'x'),
    ]
}

/// Renders the low nine permission bits of `mode` as `rwx` triples, owner
/// first, then group, then other, with `-` for each clear bit. Total: every
/// mode has exactly one 9-character rendering.
pub fn format_mode(mode: u32) -> (r: String)
    ensures
        r@ == format_mode_spec(mode),
{
    let mut s = String::new();
    s.append(if mode & 0o400 != 0 { "r" } else { "-" });
    s.append(if mode & 0o200 != 0 { "w" } else { "-" });
    s.append(if mode & 0o100 != 0 { "x" } else { "-" });
    s.append(if mode & 0o040 != 0 { "r" } else { "-" });
    s.append(if mode & 0o020 != 0 { "w" } else { "-" });
    s.append(if mode & 0o010 != 0 { "x" } else { "-" });
    s.append(if mode & 0o004 != 0 { "r" } else { "-" });
    s.append(if mode & 0o002 != 0 { "w" } else { "-" });
    s.append(if mode & 0o001 != 0 { "x" } else { "-" });
    proof {
        reveal_strlit("r");
        reveal_strlit("w");
        reveal_strlit("x");
        reveal_strlit("-");
        assert(s@ =~= format_mode_spec(mode));
    }
    s
}

/// The rendering is total and position-faithful: it always has exactly nine
/// characters, and the character at each position is `r`, `w` or `x` exactly
/// when the bit tested at that position is set, `-` otherwise.
pub proof fn lemma_format_mode_total(mode: u32)
    ensures
        format_mode_spec(mode).len() == 9,
        forall|i: int|
            0 <= i < 9 ==> format_mode_spec(mode)[i] == perm_char(mode, perm_mask(i), perm_sym(i)),
        forall|i: int|
            0 <= i < 9 ==> (format_mode_spec(mode)[i] == perm_sym(i) || format_mode_spec(mode)[i]
                == '-'),
        forall|i: int|
            0 <= i < 9 ==> (format_mode_spec(mode)[i] == perm_sym(i) <==> mode & perm_mask(i)
                != 0),
{
    assert forall|i: int| 0 <= i < 9 implies format_mode_spec(mode)[i] == perm_char(
        mode,
        perm_mask(i),
        perm_sym(i),
    ) by {
        if i == 0 {
        } else if i == 1 {
        } else if i == 2 {
        } else if i == 3 {
        } else if i == 4 {
        } else if i == 5 {
        } else if i == 6 {
        } else if i == 7 {
        } else {
        }
    }
    assert forall|i: int| 0 <= i < 9 implies (format_mode_spec(mode)[i] == perm_sym(i) <==> mode
        & perm_mask(i) != 0) by {
        assert(perm_sym(i) != '-');
    }
}

} // verus!
