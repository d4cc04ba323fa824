//! Path patterns with a `*` wildcard, as used to select files for listing and
//! extraction.

use vstd::prelude::*;
use vstd::string::*;

verus! {

/// `p` occurs in `s` at position `at`.
pub open spec fn occurs_at(s: Seq<char>, p: Seq<char>, at: int) -> bool {
    0 <= at && at + p.len() <= s.len() && s.subrange(at, at + p.len()) == p
}

/// `p` occurs somewhere in `s`.
pub open spec fn occurs_in(s: Seq<char>, p: Seq<char>) -> bool {
    exists|at: int| occurs_at(s, p, at)
}

/// `s` begins with `p`.
pub open spec fn has_prefix(s: Seq<char>, p: Seq<char>) -> bool {
    occurs_at(s, p, 0)
}

/// `s` ends with `p`.
pub open spec fn has_suffix(s: Seq<char>, p: Seq<char>) -> bool {
    occurs_at(s, p, s.len() - p.len())
}

/// Position of the first `*` in `p` at or after `i`; `p.len()` when there is none.
pub open spec fn first_star(p: Seq<char>, i: int) -> int
    decreases p.len() - i,
{
    if i < 0 || i >= p.len() {
        p.len() as int
    } else if p[i] == '*' {
        i
    } else {
        first_star(p, i + 1)
    }
}

/// `p` without its `*` characters.
pub open spec fn strip_stars(p: Seq<char>) -> Seq<char>
    decreases p.len(),
{
    if p.len() == 0 {
        p
    } else if p.last() == '*' {
        strip_stars(p.drop_last())
    } else {
        strip_stars(p.drop_last()).push(p.last())
    }
}

/// Whether `path` matches `pat`. Without a wildcard the pattern must occur in
/// the path (equality included). With exactly one, the path must begin with
/// the part before it and end with the part after it. With more, the pattern
/// with its wildcards removed must occur in the path.
pub open spec fn pattern_matches(path: Seq<char>, pat: Seq<char>) -> bool {
    let i = first_star(pat, 0);
    if i == pat.len() {
        occurs_in(path, pat)
    } else if first_star(pat, i + 1) == pat.len() {
        has_prefix(path, pat.subrange(0, i)) && has_suffix(path, pat.subrange(i + 1, pat.len() as int))
    } else {
        occurs_in(path, strip_stars(pat))
    }
}

proof fn lemma_first_star_bounds(p: Seq<char>, i: int)
    requires
        0 <= i <= p.len(),
    ensures
        i <= first_star(p, i) <= p.len(),
        forall|j: int| i <= j < first_star(p, i) ==> p[j] != '*',
        first_star(p, i) < p.len() ==> p[first_star(p, i)] == '*',
    decreases p.len() - i,
{
    if i < p.len() && p[i] != '*' {
        lemma_first_star_bounds(p, i + 1);
    }
}

/// The characters of `s`.
fn chars_of(s: &str) -> (r: Vec<char>)
    ensures
        r@ == s@,
{
    let n = s.unicode_len();
    let mut v: Vec<char> = Vec::new();
    let mut i: usize = 0;
    while i < n
        invariant
            n == s@.len(),
            i <= n,
            v@ == s@.subrange(0, i as int),
        decreases n - i,
    {
        v.push(s.get_char(i));
        i += 1;
        assert(v@ =~= s@.subrange(0, i as int));
    }
    assert(s@.subrange(0, n as int) =~= s@);
    v
}

/// The characters of `v` from `lo` up to `hi`.
fn slice_chars(v: &Vec<char>, lo: usize, hi: usize) -> (r: Vec<char>)
    requires
        lo <= hi <= v@.len(),
    ensures
        r@ == v@.subrange(lo as int, hi as int),
{
    let mut r: Vec<char> = Vec::new();
    let mut i: usize = lo;
    while i < hi
        invariant
            lo <= i <= hi <= v@.len(),
            r@ == v@.subrange(lo as int, i as int),
        decreases hi - i,
    {
        r.push(v[i]);
        i += 1;
        assert(r@ =~= v@.subrange(lo as int, i as int));
    }
    r
}

/// Whether `p` occurs in `s` at position `at`.
fn matches_at(s: &Vec<char>, p: &Vec<char>, at: usize) -> (r: bool)
    ensures
        r == occurs_at(s@, p@, at as int),
{
    if at > s.len() || p.len() > s.len() - at {
        return false;
    }
    let n = s.len();
    let mut k: usize = 0;
    while k < p.len()
        invariant
            n == s@.len(),
            at + p@.len() <= s@.len(),
            k <= p@.len(),
            forall|j: int| 0 <= j < k ==> s@[at + j] == p@[j],
        decreases p@.len() - k,
    {
        if s[at + k] != p[k] {
            assert(s@.subrange(at as int, at + p@.len())[k as int] != p@[k as int]);
            return false;
        }
        k += 1;
    }
    assert(s@.subrange(at as int, at + p@.len()) =~= p@);
    true
}

/// Whether `p` occurs anywhere in `s`.
fn occurs(s: &Vec<char>, p: &Vec<char>) -> (r: bool)
    ensures
        r == occurs_in(s@, p@),
{
    if p.len() > s.len() {
        return false;
    }
    let last = s.len() - p.len();
    let mut at: usize = 0;
    loop
        invariant
            last == s@.len() - p@.len(),
            at <= last,
            forall|j: int| 0 <= j < at ==> !occurs_at(s@, p@, j),
        decreases last - at,
    {
        if matches_at(s, p, at) {
            return true;
        }
        if at == last {
            return false;
        }
        at += 1;
    }
}

/// Position of the first `*` in `p` at or after `from`.
fn find_star(p: &Vec<char>, from: usize) -> (r: usize)
    requires
        from <= p@.len(),
    ensures
        r == first_star(p@, from as int),
{
    proof {
        lemma_first_star_bounds(p@, from as int);
    }
    let mut i: usize = from;
    while i < p.len() && p[i] != '*'
        invariant
            from <= i <= p@.len(),
            first_star(p@, from as int) == first_star(p@, i as int),
        decreases p@.len() - i,
    {
        i += 1;
    }
    i
}

/// `p` without its `*` characters.
fn without_stars(p: &Vec<char>) -> (r: Vec<char>)
    ensures
        r@ == strip_stars(p@),
{
    let mut r: Vec<char> = Vec::new();
    let mut i: usize = 0;
    while i < p.len()
        invariant
            i <= p@.len(),
            r@ == strip_stars(p@.subrange(0, i as int)),
        decreases p@.len() - i,
    {
        assert(p@.subrange(0, i + 1).drop_last() =~= p@.subrange(0, i as int));
        if p[i] != '*' {
            r.push(p[i]);
        }
        i += 1;
    }
    assert(p@.subrange(0, i as int) =~= p@);
    r
}

/// Whether `path` matches `pattern` (see `pattern_matches`).
pub fn matches_pattern(path: &str, pattern: &str) -> (r: bool)
    ensures
        r == pattern_matches(path@, pattern@),
{
    let s = chars_of(path);
    let p = chars_of(pattern);
    let i = find_star(&p, 0);
    if i == p.len() {
        return occurs(&s, &p);
    }
    proof {
        lemma_first_star_bounds(p@, 0);
    }
    if find_star(&p, i + 1) == p.len() {
        let prefix = slice_chars(&p, 0, i);
        let suffix = slice_chars(&p, i + 1, p.len());
        let tail = if suffix.len() <= s.len() {
            s.len() - suffix.len()
        } else {
            s.len() + 1
        };
        matches_at(&s, &prefix, 0) && matches_at(&s, &suffix, tail)
    } else {
        occurs(&s, &without_stars(&p))
    }
}

} // verus!
