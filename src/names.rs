//! The name table: NUL-terminated runs of bytes, decoded to text with a
//! fallback chain (strict UTF-8, lossy UTF-8 without replacements, Latin-1).

use vstd::prelude::*;
use vstd::string::*;
use vstd::utf8::{decode_utf8, valid_utf8};

verus! {

/// The replacement character that lossy UTF-8 decoding substitutes.
pub const REPLACEMENT: char = '\u{FFFD}';

/// What `String::from_utf8_lossy` makes of a byte sequence.
pub uninterp spec fn lossy_utf8(b: Seq<u8>) -> Seq<char>;

/// Relies on `String::from_utf8`: succeeds exactly on valid UTF-8, whose text
/// it returns.
#[verifier::external_body]
fn strict_utf8(b: &[u8]) -> (r: Option<String>)
    ensures
        r is Some <==> valid_utf8(b@),
        r matches Some(s) ==> s@ == decode_utf8(b@),
{
    String::from_utf8(b.to_vec()).ok()
}

/// Relies on `String::from_utf8_lossy`: valid UTF-8 is decoded as is, and each
/// invalid sequence becomes U+FFFD, so an invalid input always yields one.
#[verifier::external_body]
fn lossy_utf8_string(b: &[u8]) -> (r: String)
    ensures
        r@ == lossy_utf8(b@),
        valid_utf8(b@) ==> r@ == decode_utf8(b@),
        !valid_utf8(b@) ==> r@.contains(REPLACEMENT),
{
    String::from_utf8_lossy(b).into_owned()
}

/// Relies on `String::push`: appends one character.
#[verifier::external_body]
pub(crate) fn push_char(s: &mut String, c: char)
    ensures
        final(s)@ == old(s)@.push(c),
{
    s.push(c)
}

/// Each byte read as the code point of the same value.
pub open spec fn latin1(b: Seq<u8>) -> Seq<char> {
    b.map_values(|x: u8| x as char)
}

/// How a name's bytes read as text: their UTF-8 text where they are valid
/// UTF-8, and otherwise Latin-1 (each byte the code point of its value).
pub open spec fn decoded_name(b: Seq<u8>) -> Seq<char> {
    if valid_utf8(b) {
        decode_utf8(b)
    } else {
        latin1(b)
    }
}

/// Where the run of name bytes that starts at `i` ends: at the first zero byte
/// at or after `i`, or at the end of the table.
pub open spec fn run_end(s: Seq<u8>, i: int) -> int
    decreases s.len() - i,
{
    if i >= s.len() || i < 0 {
        s.len() as int
    } else if s[i] == 0 {
        i
    } else {
        run_end(s, i + 1)
    }
}

/// The bytes of the name that starts at `off`, without its terminating zero.
pub open spec fn name_run(s: Seq<u8>, off: int) -> Seq<u8> {
    s.subrange(off, run_end(s, off))
}

proof fn lemma_run_end_bounds(s: Seq<u8>, i: int)
    requires
        0 <= i <= s.len(),
    ensures
        i <= run_end(s, i) <= s.len(),
        forall|j: int| i <= j < run_end(s, i) ==> s[j] != 0,
    decreases s.len() - i,
{
    if i < s.len() && s[i] != 0 {
        lemma_run_end_bounds(s, i + 1);
    }
}

/// True when `s` holds `c`.
fn has_char(s: &str, c: char) -> (r: bool)
    ensures
        r == s@.contains(c),
{
    let n = s.unicode_len();
    let mut i: usize = 0;
    while i < n
        invariant
            n == s@.len(),
            i <= n,
            forall|j: int| 0 <= j < i ==> s@[j] != c,
        decreases n - i,
    {
        if s.get_char(i) == c {
            return true;
        }
        i += 1;
    }
    false
}

/// Each byte read as the code point of the same value.
fn latin1_string(b: &[u8]) -> (r: String)
    ensures
        r@ == latin1(b@),
{
    let mut s = String::new();
    let mut i: usize = 0;
    while i < b.len()
        invariant
            i <= b@.len(),
            s@ == latin1(b@.subrange(0, i as int)),
        decreases b@.len() - i,
    {
        push_char(&mut s, b[i] as char);
        i += 1;
        assert(latin1(b@.subrange(0, i as int)) =~= latin1(b@.subrange(0, i - 1)).push(
            b@[i - 1] as char,
        ));
    }
    assert(b@.subrange(0, b@.len() as int) =~= b@);
    s
}

/// Every character of `s` has a code point of at most 255.
fn all_latin1(s: &str) -> (r: bool)
    ensures
        r == (forall|j: int| 0 <= j < s@.len() ==> s@[j] as u32 <= 255),
{
    let n = s.unicode_len();
    let mut i: usize = 0;
    while i < n
        invariant
            n == s@.len(),
            i <= n,
            forall|j: int| 0 <= j < i ==> s@[j] as u32 <= 255,
        decreases n - i,
    {
        if s.get_char(i) as u32 > 255 {
            return false;
        }
        i += 1;
    }
    true
}

/// Decodes a name's bytes as text; never fails. Strict UTF-8 is tried first,
/// then lossy UTF-8 (kept only without replacement characters), then Latin-1;
/// lossy decoding of invalid UTF-8 always introduces a replacement
/// character, so invalid input reads as Latin-1.
pub fn decode_name(b: &[u8]) -> (r: String)
    ensures
        r@ == decoded_name(b@),
        valid_utf8(b@) ==> r@ == decode_utf8(b@),
        !valid_utf8(b@) ==> r@ == latin1(b@),
{
    if let Some(s) = strict_utf8(b) {
        return s;
    }
    let lossy = lossy_utf8_string(b);
    if !has_char(lossy.as_str(), REPLACEMENT) {
        return lossy;
    }
    let l = latin1_string(b);
    if all_latin1(l.as_str()) {
        return l;
    }
    lossy
}

/// Reads the name that starts at `offset` in the name table; `None` when the
/// offset lies outside the table.
pub fn read_name(names: &[u8], offset: u32) -> (r: Option<String>)
    ensures
        offset as int >= names@.len() <==> r is None,
        r matches Some(s) ==> s@ == decoded_name(name_run(names@, offset as int)),
{
    let start = offset as usize;
    if start >= names.len() {
        return None;
    }
    proof {
        lemma_run_end_bounds(names@, start as int);
    }
    let mut end: usize = start;
    while end < names.len() && names[end] != 0
        invariant
            start <= end <= names@.len(),
            run_end(names@, start as int) == run_end(names@, end as int),
        decreases names@.len() - end,
    {
        end += 1;
    }
    let mut run: Vec<u8> = Vec::new();
    let mut i: usize = start;
    while i < end
        invariant
            start <= i <= end <= names@.len(),
            run@ == names@.subrange(start as int, i as int),
        decreases end - i,
    {
        run.push(names[i]);
        i += 1;
        assert(run@ =~= names@.subrange(start as int, i as int));
    }
    Some(decode_name(run.as_slice()))
}

} // verus!
