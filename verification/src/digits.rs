//! Decimal rendering of unsigned sizes, and its inverse.

use vstd::prelude::*;
use vstd::arithmetic::div_mod::lemma_fundamental_div_mod;

verus! {

/// The character for one decimal digit value.
pub open spec fn digit_char(d: int) -> char {
    if d == 0 {
        '0'
    } else if d == 1 {
        '1'
    } else if d == 2 {
        '2'
    } else if d == 3 {
        '3'
    } else if d == 4 {
        '4'
    } else if d == 5 {
        '5'
    } else if d == 6 {
        '6'
    } else if d == 7 {
        '7'
    } else if d == 8 {
        '8'
    } else {
        '9'
    }
}

/// Whether a character is a decimal digit.
pub open spec fn is_digit_char(c: char) -> bool {
    c == '0' || c == '1' || c == '2' || c == '3' || c == '4' || c == '5' || c == '6' || c == '7'
        || c == '8' || c == '9'
}

/// The value of a decimal digit character (meaningful only for digits).
pub open spec fn digit_val(c: char) -> int {
    if c == '0' {
        0
    } else if c == '1' {
        1
    } else if c == '2' {
        2
    } else if c == '3' {
        3
    } else if c == '4' {
        4
    } else if c == '5' {
        5
    } else if c == '6' {
        6
    } else if c == '7' {
        7
    } else if c == '8' {
        8
    } else {
        9
    }
}

/// The usual decimal rendering of a number, most significant digit first,
/// without leading zeros (except for the number zero itself).
pub open spec fn u64_dec(n: nat) -> Seq<char>
    decreases n,
{
    if n < 10 {
        seq![digit_char(n as int)]
    } else {
        u64_dec(n / 10) + seq![digit_char((n % 10) as int)]
    }
}

/// The value of a digit string, most significant digit first.
pub open spec fn dec_val(ds: Seq<char>) -> int
    decreases ds.len(),
{
    if ds.len() == 0 {
        0
    } else {
        dec_val(ds.drop_last()) * 10 + digit_val(ds.last())
    }
}

/// A decimal rendering is never empty and consists of digits only.
pub proof fn lemma_u64_dec_digits(n: nat)
    ensures
        u64_dec(n).len() > 0,
        forall|i: int| 0 <= i < u64_dec(n).len() ==> is_digit_char(#[trigger] u64_dec(n)[i]),
    decreases n,
{
    if n >= 10 {
        lemma_u64_dec_digits(n / 10);
    }
}

/// Reading a decimal rendering back gives the number it renders.
pub proof fn lemma_dec_val_round(n: nat)
    ensures
        dec_val(u64_dec(n)) == n,
    decreases n,
{
    if n < 10 {
        let ds = u64_dec(n);
        assert(ds.drop_last() =~= Seq::<char>::empty());
        assert(dec_val(Seq::<char>::empty()) == 0);
        assert(digit_val(digit_char(n as int)) == n);
    } else {
        lemma_dec_val_round(n / 10);
        let ds = u64_dec(n);
        assert(ds.drop_last() =~= u64_dec(n / 10));
        assert(ds.last() == digit_char((n % 10) as int));
        assert(digit_val(digit_char((n % 10) as int)) == n % 10);
        lemma_fundamental_div_mod(n as int, 10);
    }
}

/// A digit string never has a negative value.
pub proof fn lemma_dec_val_nonneg(ds: Seq<char>)
    ensures
        dec_val(ds) >= 0,
    decreases ds.len(),
{
    if ds.len() > 0 {
        lemma_dec_val_nonneg(ds.drop_last());
    }
}

/// Appending digits never lowers the value of a digit string.
pub proof fn lemma_dec_val_extend(a: Seq<char>, b: Seq<char>)
    ensures
        dec_val(a + b) >= dec_val(a),
    decreases b.len(),
{
    if b.len() == 0 {
        assert(a + b =~= a);
    } else {
        lemma_dec_val_extend(a, b.drop_last());
        assert((a + b).drop_last() =~= a + b.drop_last());
        lemma_dec_val_nonneg(a + b.drop_last());
    }
}

/// The digit character of a value below ten.
fn digit_of(d: u64) -> (c: char)
    requires
        d < 10,
    ensures
        c == digit_char(d as int),
{
    if d == 0 {
        '0'
    } else if d == 1 {
        '1'
    } else if d == 2 {
        '2'
    } else if d == 3 {
        '3'
    } else if d == 4 {
        '4'
    } else if d == 5 {
        '5'
    } else if d == 6 {
        '6'
    } else if d == 7 {
        '7'
    } else if d == 8 {
        '8'
    } else {
        '9'
    }
}

/// Renders a number in decimal, most significant digit first.
pub fn u64_to_dec(n: u64) -> (r: Vec<char>)
    ensures
        r@ == u64_dec(n as nat),
    decreases n,
{
    if n < 10 {
        let mut v: Vec<char> = Vec::new();
        v.push(digit_of(n));
        proof {
            assert(v@ =~= u64_dec(n as nat));
        }
        v
    } else {
        let mut v = u64_to_dec(n / 10);
        v.push(digit_of(n % 10));
        proof {
            assert(v@ =~= u64_dec(n as nat));
        }
        v
    }
}

} // verus!
