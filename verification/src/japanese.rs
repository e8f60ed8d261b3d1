//! Kana script conversions and the reading-aligned ("furigana") text notation.
//!
//! A furigana string interleaves plain text with annotated runs of the form
//! `kanji[kana]`, where a single space may precede the run.  `to_kana` and
//! `to_kanji` project such a string onto its pronunciation or its spelling by
//! scanning for those runs.

use vstd::prelude::*;
use crate::text::{str_to_chars, chars_to_string, sub_chars};

verus! {

/// Katakana in U+30A1..=U+30F6 folds to hiragana 0x60 lower; anything else is unchanged.
pub open spec fn spec_char_to_hiragana(c: char) -> char {
    if 0x30A1 <= c as u32 && c as u32 <= 0x30F6 {
        ((c as u32 - 96) as u32) as char
    } else {
        c
    }
}

/// Hiragana in U+3041..=U+3096 lifts to katakana 0x60 higher; anything else is unchanged.
pub open spec fn spec_char_to_katakana(c: char) -> char {
    if 0x3041 <= c as u32 && c as u32 <= 0x3096 {
        ((c as u32 + 96) as u32) as char
    } else {
        c
    }
}

/// Per-character conversion between the two kana scripts.
pub trait JapaneseChar: Sized {
    /// Converts full-width katakana to hiragana; other characters pass through.
    fn to_hiragana(&self) -> Self;

    /// Converts full-width hiragana to katakana; other characters pass through.
    fn to_katakana(&self) -> Self;
}

impl JapaneseChar for char {
    fn to_hiragana(&self) -> (r: char)
        ensures
            r == spec_char_to_hiragana(*self),
    {
        let u: u32 = *self as u32;
        if 0x30A1 <= u && u <= 0x30F6 {
            if let Some(c) = char::from_u32(u - 96) {
                proof {
                    vstd::utf8::char_u32_cast(c, (u - 96) as u32);
                }
                c
            } else {
                // unreachable: u - 96 is far below the surrogate range
                *self
            }
        } else {
            *self
        }
    }

    fn to_katakana(&self) -> (r: char)
        ensures
            r == spec_char_to_katakana(*self),
    {
        let u: u32 = *self as u32;
        if 0x3041 <= u && u <= 0x3096 {
            if let Some(c) = char::from_u32(u + 96) {
                proof {
                    vstd::utf8::char_u32_cast(c, (u + 96) as u32);
                }
                c
            } else {
                // unreachable: u + 96 is far below the surrogate range
                *self
            }
        } else {
            *self
        }
    }
}

pub open spec fn spec_to_hiragana(s: Seq<char>) -> Seq<char> {
    s.map_values(|c: char| spec_char_to_hiragana(c))
}

pub open spec fn spec_to_katakana(s: Seq<char>) -> Seq<char> {
    s.map_values(|c: char| spec_char_to_katakana(c))
}

/// Whole-string kana conversions and the two furigana projections.
pub trait JapaneseStr {
    /// Folds every katakana character to hiragana.
    fn to_hiragana(&self) -> String;

    /// Lifts every hiragana character to katakana.
    fn to_katakana(&self) -> String;

    /// Replaces every `kanji[kana]` run (with its optional leading space) by the kana.
    fn to_kana(&self) -> String;

    /// Replaces every `kanji[kana]` run (with its optional leading space) by the kanji.
    fn to_kanji(&self) -> String;
}

fn map_chars_to_hiragana(v: &Vec<char>) -> (r: Vec<char>)
    ensures
        r@ == spec_to_hiragana(v@),
{
    let mut r: Vec<char> = Vec::new();
    let mut i: usize = 0;
    while i < v.len()
        invariant
            i <= v@.len(),
            r@ == v@.subrange(0, i as int).map_values(|c: char| spec_char_to_hiragana(c)),
        decreases v@.len() - i,
    {
        r.push(v[i].to_hiragana());
        i = i + 1;
        assert(r@ =~= v@.subrange(0, i as int).map_values(
            |c: char| spec_char_to_hiragana(c),
        ));
    }
    assert(v@.subrange(0, v@.len() as int) =~= v@);
    r
}

fn map_chars_to_katakana(v: &Vec<char>) -> (r: Vec<char>)
    ensures
        r@ == spec_to_katakana(v@),
{
    let mut r: Vec<char> = Vec::new();
    let mut i: usize = 0;
    while i < v.len()
        invariant
            i <= v@.len(),
            r@ == v@.subrange(0, i as int).map_values(|c: char| spec_char_to_katakana(c)),
        decreases v@.len() - i,
    {
        r.push(v[i].to_katakana());
        i = i + 1;
        assert(r@ =~= v@.subrange(0, i as int).map_values(
            |c: char| spec_char_to_katakana(c),
        ));
    }
    assert(v@.subrange(0, v@.len() as int) =~= v@);
    r
}

impl JapaneseStr for String {
    fn to_hiragana(&self) -> (r: String)
        ensures
            r@ == spec_to_hiragana(self@),
    {
        let v = str_to_chars(self.as_str());
        chars_to_string(&map_chars_to_hiragana(&v))
    }

    fn to_katakana(&self) -> (r: String)
        ensures
            r@ == spec_to_katakana(self@),
    {
        let v = str_to_chars(self.as_str());
        chars_to_string(&map_chars_to_katakana(&v))
    }

    fn to_kana(&self) -> (r: String)
        ensures
            r@ == spec_strip_furigana(self@, false),
    {
        let v = str_to_chars(self.as_str());
        chars_to_string(&strip_furigana(&v, false))
    }

    fn to_kanji(&self) -> (r: String)
        ensures
            r@ == spec_strip_furigana(self@, true),
    {
        let v = str_to_chars(self.as_str());
        chars_to_string(&strip_furigana(&v, true))
    }
}

/// The characters the annotation scanner treats as whitespace
/// (the Unicode `White_Space` set).
pub open spec fn is_space_char(c: char) -> bool {
    c == ' ' || c == '\t' || c == '\n' || c == '\r' || c == '\u{000B}' || c == '\u{000C}'
        || c == '\u{0085}' || c == '\u{00A0}' || c == '\u{1680}' || (0x2000 <= c as u32 && c
        as u32 <= 0x200A) || c == '\u{2028}' || c == '\u{2029}' || c == '\u{202F}'
        || c == '\u{205F}' || c == '\u{3000}'
}

/// A character that may stand inside the kanji or kana part of an annotated
/// run: anything but whitespace and the two brackets.
pub open spec fn is_body_char(c: char) -> bool {
    !is_space_char(c) && c != '[' && c != ']'
}

/// Length of the run of body characters starting at `i`.
pub open spec fn body_run(s: Seq<char>, i: int) -> int
    decreases s.len() - i,
{
    if i < 0 || i >= s.len() || !is_body_char(s[i]) {
        0
    } else {
        1 + body_run(s, i + 1)
    }
}

/// Whether an annotated run `kanji[kana]` (no leading space) begins at the
/// start of `s`: a nonempty body run, `[`, a nonempty body run, `]`.
pub open spec fn run_match(s: Seq<char>) -> bool {
    let j = body_run(s, 0);
    let k = body_run(s, j + 1);
    1 <= j && j < s.len() && s[j] == '[' && 1 <= k && j + 1 + k < s.len() && s[j + 1 + k] == ']'
}

/// Total length of the annotated run at the start of `s` (excluding any leading space).
pub open spec fn run_len(s: Seq<char>) -> int {
    body_run(s, 0) + body_run(s, body_run(s, 0) + 1) + 2
}

/// The kanji part of the annotated run at the start of `s`.
pub open spec fn run_kanji(s: Seq<char>) -> Seq<char> {
    s.subrange(0, body_run(s, 0))
}

/// The kana part of the annotated run at the start of `s`.
pub open spec fn run_kana(s: Seq<char>) -> Seq<char> {
    s.subrange(body_run(s, 0) + 1, body_run(s, 0) + 1 + body_run(s, body_run(s, 0) + 1))
}

/// Scans `s` left to right; each annotated run (with one optional space
/// immediately before it) is replaced by its kanji part when `keep_kanji`
/// holds, else by its kana part; every other character is kept.
pub open spec fn spec_strip_furigana(s: Seq<char>, keep_kanji: bool) -> Seq<char>
    decreases s.len(),
{
    if s.len() == 0 {
        Seq::<char>::empty()
    } else if s[0] == ' ' && run_match(s.skip(1)) {
        let t = s.skip(1);
        (if keep_kanji {
            run_kanji(t)
        } else {
            run_kana(t)
        }) + spec_strip_furigana(t.skip(run_len(t)), keep_kanji)
    } else if run_match(s) {
        (if keep_kanji {
            run_kanji(s)
        } else {
            run_kana(s)
        }) + spec_strip_furigana(s.skip(run_len(s)), keep_kanji)
    } else {
        seq![s[0]] + spec_strip_furigana(s.skip(1), keep_kanji)
    }
}

pub proof fn lemma_body_run_bounds(s: Seq<char>, i: int)
    requires
        0 <= i <= s.len(),
    ensures
        0 <= body_run(s, i),
        i + body_run(s, i) <= s.len(),
    decreases s.len() - i,
{
    if i < s.len() && is_body_char(s[i]) {
        lemma_body_run_bounds(s, i + 1);
    }
}

/// Whether the character is a space, as an executable test.
pub fn is_space_char_exec(c: char) -> (r: bool)
    ensures
        r == is_space_char(c),
{
    let u = c as u32;
    c == ' ' || c == '\t' || c == '\n' || c == '\r' || c == '\u{000B}' || c == '\u{000C}'
        || c == '\u{0085}' || c == '\u{00A0}' || c == '\u{1680}' || (0x2000 <= u && u <= 0x200A)
        || c == '\u{2028}' || c == '\u{2029}' || c == '\u{202F}' || c == '\u{205F}'
        || c == '\u{3000}'
}

fn is_body_char_exec(c: char) -> (r: bool)
    ensures
        r == is_body_char(c),
{
    !is_space_char_exec(c) && c != '[' && c != ']'
}

/// Length of the body run of `s` starting at `i`.
fn body_run_exec(s: &Vec<char>, i: usize) -> (r: usize)
    requires
        i <= s@.len(),
    ensures
        r == body_run(s@, i as int),
        i + r <= s@.len(),
{
    let mut j: usize = i;
    while j < s.len() && is_body_char_exec(s[j])
        invariant
            i <= j <= s@.len(),
            body_run(s@, i as int) == (j - i) + body_run(s@, j as int),
        decreases s@.len() - j,
    {
        j = j + 1;
    }
    proof {
        lemma_body_run_bounds(s@, j as int);
    }
    j - i
}

/// Whether an annotated run begins exactly at index `i` of `s`.
fn run_match_exec(s: &Vec<char>, i: usize) -> (r: bool)
    requires
        i <= s@.len(),
    ensures
        r == run_match(s@.skip(i as int)),
{
    let n: usize = s.len();
    proof {
        lemma_body_run_skip(s@, i as int, 0);
    }
    let j: usize = body_run_exec(s, i);
    if j < 1 || i + j >= n || s[i + j] != '[' {
        return false;
    }
    proof {
        lemma_body_run_skip(s@, i as int, j as int + 1);
    }
    let k: usize = body_run_exec(s, i + j + 1);
    if k < 1 || i + j + 1 + k >= n || s[i + j + 1 + k] != ']' {
        return false;
    }
    true
}

/// The body run of a suffix equals the body run at the shifted position.
pub proof fn lemma_body_run_skip(s: Seq<char>, i: int, d: int)
    requires
        0 <= i,
        0 <= d,
        i + d <= s.len(),
    ensures
        body_run(s.skip(i), d) == body_run(s, i + d),
    decreases s.len() - i - d,
{
    if i + d < s.len() && is_body_char(s[i + d]) {
        lemma_body_run_skip(s, i, d + 1);
    }
}

/// Copies `s[start..start + count]` onto the end of `out`.
fn push_range(out: &mut Vec<char>, s: &Vec<char>, start: usize, count: usize)
    requires
        start + count <= s@.len(),
    ensures
        final(out)@ == old(out)@ + s@.subrange(start as int, start as int + count as int),
{
    let ghost out0 = out@;
    let n: usize = s.len();
    let mut c: usize = 0;
    while c < count
        invariant
            n == s@.len(),
            start + count <= n,
            c <= count,
            out@ == out0 + s@.subrange(start as int, start as int + c as int),
        decreases count - c,
    {
        out.push(s[start + c]);
        c = c + 1;
        assert(out@ =~= out0 + s@.subrange(start as int, start as int + c as int));
    }
}

/// Replaces each annotated run, scanning the whole vector.
#[verifier::rlimit(60)]
pub fn strip_furigana(s: &Vec<char>, keep_kanji: bool) -> (r: Vec<char>)
    ensures
        r@ == spec_strip_furigana(s@, keep_kanji),
{
    let mut out: Vec<char> = Vec::new();
    let mut i: usize = 0;
    proof {
        assert(s@.skip(0) =~= s@);
        assert(Seq::<char>::empty() + spec_strip_furigana(s@, keep_kanji)
            =~= spec_strip_furigana(s@, keep_kanji));
    }
    while i < s.len()
        invariant
            i <= s@.len(),
            spec_strip_furigana(s@, keep_kanji) == out@ + spec_strip_furigana(
                s@.skip(i as int),
                keep_kanji,
            ),
        decreases s@.len() - i,
    {
        let ghost t0 = s@.skip(i as int);
        let ghost out0 = out@;
        if s[i] == ' ' && run_match_exec(s, i + 1) {
            let ghost t = s@.skip(i as int + 1);
            proof {
                assert(t0[0] == s@[i as int]);
                assert(t0.skip(1) =~= t);
                lemma_body_run_skip(s@, i as int + 1, 0);
            }
            let j: usize = body_run_exec(s, i + 1);
            proof {
                lemma_body_run_skip(s@, i as int + 1, j as int + 1);
            }
            let k: usize = body_run_exec(s, i + 1 + j + 1);
            let start: usize = if keep_kanji { i + 1 } else { i + 1 + j + 1 };
            let count: usize = if keep_kanji { j } else { k };
            push_range(&mut out, s, start, count);
            proof {
                if keep_kanji {
                    assert(run_kanji(t) =~= s@.subrange(
                        start as int,
                        start as int + count as int,
                    ));
                } else {
                    assert(run_kana(t) =~= s@.subrange(
                        start as int,
                        start as int + count as int,
                    ));
                }
            }
            i = i + 1 + j + 1 + k + 1;
            proof {
                assert(t.skip(run_len(t)) =~= s@.skip(i as int));
                assert(spec_strip_furigana(s@, keep_kanji) =~= out@ + spec_strip_furigana(
                    s@.skip(i as int),
                    keep_kanji,
                ));
            }
        } else if run_match_exec(s, i) {
            proof {
                lemma_body_run_skip(s@, i as int, 0);
            }
            let j: usize = body_run_exec(s, i);
            proof {
                lemma_body_run_skip(s@, i as int, j as int + 1);
            }
            let k: usize = body_run_exec(s, i + j + 1);
            let start: usize = if keep_kanji { i } else { i + j + 1 };
            let count: usize = if keep_kanji { j } else { k };
            push_range(&mut out, s, start, count);
            proof {
                if keep_kanji {
                    assert(run_kanji(t0) =~= s@.subrange(
                        start as int,
                        start as int + count as int,
                    ));
                } else {
                    assert(run_kana(t0) =~= s@.subrange(
                        start as int,
                        start as int + count as int,
                    ));
                }
            }
            i = i + j + 1 + k + 1;
            proof {
                assert(t0.skip(run_len(t0)) =~= s@.skip(i as int));
                assert(spec_strip_furigana(s@, keep_kanji) =~= out@ + spec_strip_furigana(
                    s@.skip(i as int),
                    keep_kanji,
                ));
            }
        } else {
            out.push(s[i]);
            i = i + 1;
            proof {
                assert(t0[0] == s@[i - 1]);
                assert(t0.skip(1) =~= s@.skip(i as int));
                assert(out@ =~= out0 + seq![s@[i - 1]]);
                assert(spec_strip_furigana(s@, keep_kanji) =~= out@ + spec_strip_furigana(
                    s@.skip(i as int),
                    keep_kanji,
                ));
            }
        }
    }
    proof {
        assert(s@.skip(s@.len() as int) =~= Seq::<char>::empty());
    }
    out
}

/// A character that may stand inside one component of a kanji reading
/// string: anything but the separators `-`, `.`, space and tab.
pub open spec fn is_reading_char(c: char) -> bool {
    c != '-' && c != '.' && c != ' ' && c != '\t'
}

/// Length of the run of reading characters starting at `i`.
pub open spec fn reading_run(s: Seq<char>, i: int) -> int
    decreases s.len() - i,
{
    if i < 0 || i >= s.len() || !is_reading_char(s[i]) {
        0
    } else {
        1 + reading_run(s, i + 1)
    }
}

proof fn lemma_reading_run_bounds(s: Seq<char>, i: int)
    requires
        0 <= i <= s.len(),
    ensures
        0 <= reading_run(s, i),
        i + reading_run(s, i) <= s.len(),
    decreases s.len() - i,
{
    if i < s.len() && is_reading_char(s[i]) {
        lemma_reading_run_bounds(s, i + 1);
    }
}

fn is_reading_char_exec(c: char) -> (r: bool)
    ensures
        r == is_reading_char(c),
{
    c != '-' && c != '.' && c != ' ' && c != '\t'
}

fn reading_run_exec(s: &Vec<char>, i: usize) -> (r: usize)
    requires
        i <= s@.len(),
    ensures
        r == reading_run(s@, i as int),
        i + r <= s@.len(),
{
    let mut j: usize = i;
    while j < s.len() && is_reading_char_exec(s[j])
        invariant
            i <= j <= s@.len(),
            reading_run(s@, i as int) == (j - i) + reading_run(s@, j as int),
        decreases s@.len() - j,
    {
        j = j + 1;
    }
    proof {
        lemma_reading_run_bounds(s@, j as int);
    }
    j - i
}

/// The tail of a kanji reading after any prefix: a main reading, then
/// optionally `.` and okurigana, then optionally `-` and a suffix that runs
/// to the end of the string.
pub open spec fn spec_parse_reading_tail(t: Seq<char>) -> Option<
    (Seq<char>, Option<Seq<char>>, Option<Seq<char>>),
> {
    let r = reading_run(t, 0);
    if r < 1 {
        None
    } else if r == t.len() {
        Some((t.subrange(0, r), None, None))
    } else if t[r] == '.' {
        let o = reading_run(t, r + 1);
        if o < 1 {
            None
        } else if r + 1 + o == t.len() {
            Some((t.subrange(0, r), Some(t.subrange(r + 1, r + 1 + o)), None))
        } else if t[r + 1 + o] == '-' && reading_run(t, r + 2 + o) == t.len() - (r + 2 + o) {
            Some(
                (
                    t.subrange(0, r),
                    Some(t.subrange(r + 1, r + 1 + o)),
                    Some(t.subrange(r + 2 + o, t.len() as int)),
                ),
            )
        } else {
            None
        }
    } else if t[r] == '-' && reading_run(t, r + 1) == t.len() - (r + 1) {
        Some((t.subrange(0, r), None, Some(t.subrange(r + 1, t.len() as int))))
    } else {
        None
    }
}

/// Splits a kanji reading string into prefix, main reading, okurigana and
/// suffix.  A leading `prefix-` (possibly empty prefix) is taken when the
/// remainder still parses; `.` separates the reading from its okurigana; a
/// trailing `-suffix` (possibly empty suffix) closes the string.  Returns
/// `None` when the string does not have this shape.
pub open spec fn spec_split_kanji_reading(s: Seq<char>) -> Option<
    (Option<Seq<char>>, Seq<char>, Option<Seq<char>>, Option<Seq<char>>),
> {
    let p = reading_run(s, 0);
    if p < s.len() && s[p] == '-' && spec_parse_reading_tail(s.skip(p + 1)) is Some {
        let t = spec_parse_reading_tail(s.skip(p + 1))->0;
        Some((Some(s.subrange(0, p)), t.0, t.1, t.2))
    } else if spec_parse_reading_tail(s) is Some {
        let t = spec_parse_reading_tail(s)->0;
        Some((None, t.0, t.1, t.2))
    } else {
        None
    }
}

fn parse_reading_tail_exec(t: &Vec<char>) -> (res: Option<
    (String, Option<String>, Option<String>),
>)
    ensures
        res.deep_view() == spec_parse_reading_tail(t@),
{
    let n: usize = t.len();
    let r: usize = reading_run_exec(t, 0);
    if r < 1 {
        return None;
    }
    let reading = chars_to_string(&sub_chars(t, 0, r));
    if r == n {
        return Some((reading, None, None));
    }
    if t[r] == '.' {
        let o: usize = reading_run_exec(t, r + 1);
        if o < 1 {
            return None;
        }
        let okurigana = chars_to_string(&sub_chars(t, r + 1, r + 1 + o));
        if r + 1 + o == n {
            return Some((reading, Some(okurigana), None));
        }
        if t[r + 1 + o] == '-' && r + 2 + o + reading_run_exec(t, r + 2 + o) == n {
            let suffix = chars_to_string(&sub_chars(t, r + 2 + o, n));
            return Some((reading, Some(okurigana), Some(suffix)));
        }
        return None;
    }
    if t[r] == '-' && r + 1 + reading_run_exec(t, r + 1) == n {
        let suffix = chars_to_string(&sub_chars(t, r + 1, n));
        return Some((reading, None, Some(suffix)));
    }
    None
}

/// Splits a kanji reading string into its prefix, main reading, okurigana
/// and suffix components, or returns `None` when it is not of that shape.
pub fn split_kanji_reading(reading: &str) -> (res: Option<
    (Option<String>, String, Option<String>, Option<String>),
>)
    ensures
        res.deep_view() == spec_split_kanji_reading(reading@),
{
    let v = str_to_chars(reading);
    let n: usize = v.len();
    let p: usize = reading_run_exec(&v, 0);
    if p < n && v[p] == '-' {
        let tail = sub_chars(&v, p + 1, n);
        proof {
            assert(tail@ =~= v@.skip(p as int + 1));
        }
        if let Some((r, o, x)) = parse_reading_tail_exec(&tail) {
            let prefix = chars_to_string(&sub_chars(&v, 0, p));
            return Some((Some(prefix), r, o, x));
        }
    }
    let ghost whole = v@;
    if let Some((r, o, x)) = parse_reading_tail_exec(&v) {
        return Some((None, r, o, x));
    }
    None
}

} // verus!
