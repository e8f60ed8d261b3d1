//! Small executable helpers for moving between `String`/`&str` and
//! `Vec<char>`, which the rest of the crate uses as its working form for text.

use vstd::prelude::*;
use vstd::string::StrSliceExecFns;
use vstd::string::StringExecFns;

verus! {

/// Relies on `char::from_u32` of core: returns `Some` exactly for valid
/// Unicode scalar values (below the surrogate range, or between the end of
/// the surrogate range and the maximum code point), and the returned
/// character has the given scalar value.
pub assume_specification[ char::from_u32 ](i: u32) -> (r: Option<char>)
    ensures
        r is Some <==> (i < 0xD800 || (0xE000 <= i && i <= 0x10FFFF)),
        r is Some ==> r->0 as u32 == i,
;

/// Relies on `String::push` of std: appends one character at the end.
pub assume_specification[ String::push ](s: &mut String, ch: char)
    ensures
        final(s)@ == old(s)@.push(ch),
;

/// Collects the characters of a string slice into a vector.
pub fn str_to_chars(s: &str) -> (v: Vec<char>)
    ensures
        v@ == s@,
{
    let n: usize = s.unicode_len();
    let mut v: Vec<char> = Vec::new();
    let mut i: usize = 0;
    while i < n
        invariant
            n == s@.len(),
            i <= n,
            v@ == s@.subrange(0, i as int),
        decreases n - i,
    {
        v.push(s.get_char(i));
        i = i + 1;
        assert(v@ =~= s@.subrange(0, i as int));
    }
    assert(v@ =~= s@);
    v
}

/// Collects a vector of characters back into an owned string.
pub fn chars_to_string(v: &Vec<char>) -> (s: String)
    ensures
        s@ == v@,
{
    let mut s = String::new();
    let mut i: usize = 0;
    while i < v.len()
        invariant
            i <= v@.len(),
            s@ == v@.subrange(0, i as int),
        decreases v@.len() - i,
    {
        s.push(v[i]);
        i = i + 1;
        assert(s@ =~= v@.subrange(0, i as int));
    }
    assert(s@ =~= v@);
    s
}

/// Appends every character of `tail` to `v`.
pub fn push_all(v: &mut Vec<char>, tail: &Vec<char>)
    ensures
        final(v)@ == old(v)@ + tail@,
{
    let mut i: usize = 0;
    while i < tail.len()
        invariant
            i <= tail@.len(),
            v@ == old(v)@ + tail@.subrange(0, i as int),
        decreases tail@.len() - i,
    {
        v.push(tail[i]);
        i = i + 1;
        assert(v@ =~= old(v)@ + tail@.subrange(0, i as int));
    }
    assert(v@ =~= old(v)@ + tail@);
}

/// Compares two string slices character by character.
pub fn str_eq(a: &str, b: &str) -> (r: bool)
    ensures
        r == (a@ == b@),
{
    let n: usize = a.unicode_len();
    let m: usize = b.unicode_len();
    if n != m {
        return false;
    }
    let mut i: usize = 0;
    while i < n
        invariant
            n == a@.len(),
            n == b@.len(),
            i <= n,
            forall|j: int| 0 <= j < i ==> a@[j] == b@[j],
        decreases n - i,
    {
        if a.get_char(i) != b.get_char(i) {
            return false;
        }
        i = i + 1;
    }
    proof {
        assert(a@ =~= b@);
    }
    true
}

/// Copies the characters of `s` with indices in `start..end` into a new vector.
pub fn sub_chars(s: &Vec<char>, start: usize, end: usize) -> (v: Vec<char>)
    requires
        start <= end <= s@.len(),
    ensures
        v@ == s@.subrange(start as int, end as int),
{
    let mut v: Vec<char> = Vec::new();
    let mut i: usize = start;
    while i < end
        invariant
            start <= i <= end <= s@.len(),
            v@ == s@.subrange(start as int, i as int),
        decreases end - i,
    {
        v.push(s[i]);
        i = i + 1;
        assert(v@ =~= s@.subrange(start as int, i as int));
    }
    v
}

/// Appends every character of the string slice `tail` to the string `s`.
pub fn push_str_all(s: &mut String, tail: &str)
    ensures
        final(s)@ == old(s)@ + tail@,
{
    s.append(tail);
}

/// Length of the run of characters other than `sep` starting at `i`.
pub open spec fn non_sep_run(s: Seq<char>, i: int, sep: char) -> int
    decreases s.len() - i,
{
    if i < 0 || i >= s.len() || s[i] == sep {
        0
    } else {
        1 + non_sep_run(s, i + 1, sep)
    }
}

pub proof fn lemma_non_sep_run_bounds(s: Seq<char>, i: int, sep: char)
    requires
        0 <= i <= s.len(),
    ensures
        0 <= non_sep_run(s, i, sep),
        i + non_sep_run(s, i, sep) <= s.len(),
    decreases s.len() - i,
{
    if i < s.len() && s[i] != sep {
        lemma_non_sep_run_bounds(s, i + 1, sep);
    }
}

/// The fields of `s` separated by `sep`; empty fields are kept, and a string
/// without the separator is one field.
pub open spec fn spec_split(s: Seq<char>, sep: char) -> Seq<Seq<char>>
    decreases s.len() via spec_split_decreases
{
    let p = non_sep_run(s, 0, sep);
    if p == s.len() {
        seq![s]
    } else {
        seq![s.take(p)] + spec_split(s.skip(p + 1), sep)
    }
}

#[via_fn]
proof fn spec_split_decreases(s: Seq<char>, sep: char) {
    lemma_non_sep_run_bounds(s, 0, sep);
}

fn non_sep_run_exec(s: &Vec<char>, i: usize, sep: char) -> (r: usize)
    requires
        i <= s@.len(),
    ensures
        r == non_sep_run(s@, i as int, sep),
        i + r <= s@.len(),
{
    let n: usize = s.len();
    let mut j: usize = i;
    while j < n && s[j] != sep
        invariant
            i <= j <= n,
            n == s@.len(),
            non_sep_run(s@, i as int, sep) == (j - i) + non_sep_run(s@, j as int, sep),
        decreases n - j,
    {
        j = j + 1;
    }
    proof {
        lemma_non_sep_run_bounds(s@, j as int, sep);
    }
    j - i
}

proof fn lemma_non_sep_run_skip(s: Seq<char>, i: int, d: int, sep: char)
    requires
        0 <= i,
        0 <= d,
        i + d <= s.len(),
    ensures
        non_sep_run(s.skip(i), d, sep) == non_sep_run(s, i + d, sep),
    decreases s.len() - i - d,
{
    if i + d < s.len() && s[i + d] != sep {
        lemma_non_sep_run_skip(s, i, d + 1, sep);
    }
}

/// Splits a string at every occurrence of `sep`, keeping empty fields.
pub fn split_char(s: &str, sep: char) -> (r: Vec<String>)
    ensures
        r@.map_values(|t: String| t@) == spec_split(s@, sep),
{
    let v = str_to_chars(s);
    let n: usize = v.len();
    let mut out: Vec<String> = Vec::new();
    let mut i: usize = 0;
    proof {
        assert(v@.skip(0) =~= v@);
    }
    loop
        invariant
            i <= n,
            n == v@.len(),
            v@ == s@,
            spec_split(s@, sep) == out@.map_values(|t: String| t@) + spec_split(
                v@.skip(i as int),
                sep,
            ),
        decreases n - i,
    {
        let ghost outold = out@;
        let ghost t0 = v@.skip(i as int);
        proof {
            lemma_non_sep_run_skip(v@, i as int, 0, sep);
        }
        let p: usize = non_sep_run_exec(&v, i, sep);
        let field = chars_to_string(&sub_chars(&v, i, i + p));
        proof {
            assert(field@ =~= t0.take(p as int));
        }
        out.push(field);
        proof {
            assert(out@.map_values(|t: String| t@) =~= outold.map_values(|t: String| t@).push(
                field@,
            ));
        }
        if i + p == n {
            proof {
                assert(t0.take(p as int) =~= t0);
                assert(spec_split(t0, sep) == seq![t0]);
                assert(outold.map_values(|t: String| t@) + seq![t0] =~= out@.map_values(
                    |t: String| t@,
                ));
            }
            return out;
        }
        i = i + p + 1;
        proof {
            assert(t0.skip(p as int + 1) =~= v@.skip(i as int));
            assert(spec_split(t0, sep) == seq![t0.take(p as int)] + spec_split(
                v@.skip(i as int),
                sep,
            ));
            assert(out@.map_values(|t: String| t@) + spec_split(v@.skip(i as int), sep)
                =~= outold.map_values(|t: String| t@) + spec_split(t0, sep));
        }
    }
}

} // verus!
