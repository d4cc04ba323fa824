//! Synthesised names for entries whose name cannot be looked up.

use crate::names::push_char;
use vstd::prelude::*;

verus! {

/// The digit characters, lowest value first.
pub open spec fn digit_char(d: nat) -> char {
    seq!['0', '1', '2', '3', '4', '5', '6', '7', '8', '9', 'a', 'b', 'c', 'd', 'e', 'f'][d as int]
}

/// Decimal digits of `n`, without leading zeros.
pub open spec fn decimal(n: nat) -> Seq<char>
    decreases n,
{
    if n < 10 {
        seq![digit_char(n)]
    } else {
        decimal(n / 10).push(digit_char(n % 10))
    }
}

/// The last `width` lowercase hexadecimal digits of `n`, zero-padded.
pub open spec fn hex_digits(n: nat, width: nat) -> Seq<char>
    decreases width,
{
    if width == 0 {
        Seq::empty()
    } else {
        hex_digits(n / 16, (width - 1) as nat).push(digit_char(n % 16))
    }
}

/// The digit character of value `d`.
fn digit(d: u32) -> (c: char)
    requires
        d < 16,
    ensures
        c == digit_char(d as nat),
{
    if d == 0 {
        '0'
    } else if d == 1 {
        '1'
    } else if d == 2 {
        '2'
    } else if d == 3 {
        '3'
    } else if d == 4 {
        '4'
    } else if d == 5 {
        '5'
    } else if d == 6 {
        '6'
    } else if d == 7 {
        '7'
    } else if d == 8 {
        '8'
    } else if d == 9 {
        '9'
    } else if d == 10 {
        'a'
    } else if d == 11 {
        'b'
    } else if d == 12 {
        'c'
    } else if d == 13 {
        'd'
    } else if d == 14 {
        'e'
    } else if d == 15 {
        'f'
    } else {
        'f'
    }
}

/// Appends the decimal digits of `n` to `s`.
fn push_decimal(s: &mut String, n: u32)
    ensures
        final(s)@ == old(s)@ + decimal(n as nat),
    decreases n,
{
    if n >= 10 {
        push_decimal(s, n / 10);
    }
    push_char(s, digit(n % 10));
    proof {
        if n >= 10 {
            assert(decimal(n as nat) == decimal((n / 10) as nat).push(digit_char((n % 10) as nat)));
        } else {
            assert(decimal(n as nat) == seq![digit_char(n as nat)]);
        }
        assert(final(s)@ =~= old(s)@ + decimal(n as nat));
    }
}

/// Appends the last `width` hexadecimal digits of `n` to `s`.
fn push_hex(s: &mut String, n: u32, width: u32)
    ensures
        final(s)@ == old(s)@ + hex_digits(n as nat, width as nat),
    decreases width,
{
    if width > 0 {
        push_hex(s, n / 16, width - 1);
        push_char(s, digit(n % 16));
        assert(final(s)@ =~= old(s)@ + hex_digits(n as nat, width as nat));
    } else {
        assert(final(s)@ =~= old(s)@ + hex_digits(n as nat, width as nat));
    }
}

/// The name given to an entry whose first word holds an unusable name offset.
pub open spec fn hash_name(word: u32) -> Seq<char> {
    "hash_"@ + hex_digits(word as nat, 8)
}

/// The name given to the entry at `index` whose name lookup failed.
pub open spec fn indexed_name(prefix: Seq<char>, index: u32) -> Seq<char> {
    prefix + decimal(index as nat)
}

/// `hash_` followed by the eight hex digits of the entry's first word.
pub fn hash_placeholder(word: u32) -> (r: String)
    ensures
        r@ == hash_name(word),
{
    let mut s = "hash_".to_owned();
    push_hex(&mut s, word, 8);
    s
}

/// `prefix` followed by the decimal slot index.
pub fn index_placeholder(prefix: &str, index: u32) -> (r: String)
    ensures
        r@ == indexed_name(prefix@, index),
{
    let mut s = prefix.to_owned();
    push_decimal(&mut s, index);
    s
}

} // verus!
