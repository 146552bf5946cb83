//! Character-level string utilities.  The pipeline works on `Vec<char>`
//! internally so that every transformation is plain verified code; the
//! two conversions at the boundary are the only trusted pieces here.
use vstd::prelude::*;

verus! {

/// Relies on `str::chars`: yields exactly the characters of the string.
#[verifier::external_body]
pub fn str_to_chars(s: &str) -> (r: Vec<char>)
    ensures
        r@ == s@,
{
    s.chars().collect()
}

/// Relies on `String::from_iter`: builds the string of exactly the given
/// characters.
#[verifier::external_body]
pub fn chars_to_string(v: &Vec<char>) -> (r: String)
    ensures
        r@ == v@,
{
    v.iter().collect()
}

/// Relies on `str`'s `==`: true exactly when the characters are equal.
#[verifier::external_body]
pub fn str_eq(a: &str, b: &str) -> (r: bool)
    ensures
        r == (a@ == b@),
{
    a == b
}

/// Append every character of `src` to `dst`.
pub fn push_chars(dst: &mut Vec<char>, src: &Vec<char>)
    ensures
        final(dst)@ == old(dst)@ + src@,
{
    let mut i: usize = 0;
    while i < src.len()
        invariant
            i <= src.len(),
            dst@ == old(dst)@ + src@.subrange(0, i as int),
        decreases src.len() - i,
    {
        dst.push(src[i]);
        i = i + 1;
        assert(dst@ =~= old(dst)@ + src@.subrange(0, i as int));
    }
    assert(dst@ =~= old(dst)@ + src@);
}

/// True when the characters of `v` starting at `at` begin with `pat`.
pub open spec fn spec_starts_with_at(v: Seq<char>, pat: Seq<char>, at: int) -> bool {
    at + pat.len() <= v.len() && v.subrange(at, at + pat.len() as int) == pat
}

/// True when `pat` occurs somewhere in `v`.
pub open spec fn spec_contains(v: Seq<char>, pat: Seq<char>) -> bool {
    exists|at: int| 0 <= at <= v.len() - pat.len() && spec_starts_with_at(v, pat, at)
}

pub fn starts_with_at(v: &Vec<char>, pat: &Vec<char>, at: usize) -> (r: bool)
    requires
        at <= v.len(),
    ensures
        r == spec_starts_with_at(v@, pat@, at as int),
{
    if v.len() - at < pat.len() {
        assert(!spec_starts_with_at(v@, pat@, at as int));
        return false;
    }
    let mut i: usize = 0;
    while i < pat.len()
        invariant
            0 <= i <= pat.len(),
            at + pat.len() <= v.len(),
            v@.subrange(at as int, at + i as int) =~= pat@.subrange(0, i as int),
        decreases pat.len() - i,
    {
        if v[at + i] != pat[i] {
            assert(v@.subrange(at as int, at + pat@.len() as int)[i as int] != pat@[i as int]);
            return false;
        }
        assert(v@.subrange(at as int, at + (i + 1) as int) =~= pat@.subrange(0, i + 1 as int));
        i = i + 1;
    }
    assert(v@.subrange(at as int, at + pat@.len() as int) =~= pat@);
    true
}

/// Substring containment, the asset matching rule: a file name matches a
/// prefix token exactly when the token occurs in it as a substring.
pub fn contains_chars(v: &Vec<char>, pat: &Vec<char>) -> (r: bool)
    ensures
        r == spec_contains(v@, pat@),
{
    if pat.len() > v.len() {
        assert(!spec_contains(v@, pat@));
        return false;
    }
    if pat.len() == 0 {
        assert(v@.subrange(0, 0) =~= pat@);
        assert(spec_starts_with_at(v@, pat@, 0));
        return true;
    }
    let stop: usize = v.len() - pat.len();
    let mut at: usize = 0;
    while at <= stop
        invariant
            pat.len() <= v.len(),
            pat.len() >= 1,
            stop == v.len() - pat.len(),
            0 <= at,
            at <= stop + 1,
            forall|j: int| 0 <= j < at ==> !spec_starts_with_at(v@, pat@, j),
        decreases stop + 1 - at,
    {
        if starts_with_at(v, pat, at) {
            assert(spec_contains(v@, pat@));
            return true;
        }
        at = at + 1;
    }
    assert(!spec_contains(v@, pat@));
    false
}

/// Copy the characters in `[from, to)` out of `v`.
pub fn chars_range(v: &Vec<char>, from: usize, to: usize) -> (r: Vec<char>)
    requires
        from <= to <= v@.len(),
    ensures
        r@ == v@.subrange(from as int, to as int),
{
    let mut r: Vec<char> = Vec::new();
    let mut i: usize = from;
    while i < to
        invariant
            from <= i <= to,
            r@ == v@.subrange(from as int, i as int),
        decreases to - i,
    {
        r.push(v[i]);
        assert(r@ =~= v@.subrange(from as int, i + 1 as int));
        i = i + 1;
    }
    r
}

/// Equality of two character vectors.
pub fn chars_eq(a: &Vec<char>, b: &Vec<char>) -> (r: bool)
    ensures
        r == (a@ == b@),
{
    if a.len() != b.len() {
        assert(a@ != b@);
        return false;
    }
    let mut i: usize = 0;
    while i < a.len()
        invariant
            a.len() == b.len(),
            0 <= i <= a.len(),
            a@.subrange(0, i as int) =~= b@.subrange(0, i as int),
        decreases a.len() - i,
    {
        if a[i] != b[i] {
            assert(a@[i as int] != b@[i as int]);
            return false;
        }
        assert(a@.subrange(0, i + 1 as int) =~= b@.subrange(0, i + 1 as int));
        i = i + 1;
    }
    assert(a@.subrange(0, a@.len() as int) =~= a@);
    assert(b@.subrange(0, b@.len() as int) =~= b@);
    true
}

} // verus!
