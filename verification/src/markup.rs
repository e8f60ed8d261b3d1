//! Text cleanups around the lexicon's sentence fields: removing markup
//! tags, collapsing whitespace, and joining example pairs for display.

use vstd::prelude::*;
use crate::entry::Example;
use crate::japanese::is_space_char;
use crate::text::{str_to_chars, chars_to_string};
use vstd::string::StrSliceExecFns;

verus! {

/// Removes every markup tag: a `<`, a run of characters that are neither
/// bracket, and a `>`; an unterminated or immediately-nested `<` stays.
pub open spec fn spec_strip_html(s: Seq<char>) -> Seq<char>
    decreases s.len() via spec_strip_html_decreases
{
    if s.len() == 0 {
        Seq::<char>::empty()
    } else if s[0] == '<' {
        let r = tag_run(s, 1);
        if 1 + r < s.len() && s[1 + r] == '>' {
            spec_strip_html(s.skip(2 + r))
        } else {
            seq!['<'] + spec_strip_html(s.skip(1))
        }
    } else {
        seq![s[0]] + spec_strip_html(s.skip(1))
    }
}

#[via_fn]
proof fn spec_strip_html_decreases(s: Seq<char>) {
    if s.len() > 0 && s[0] == '<' {
        lemma_tag_run_bounds(s, 1);
    }
}

/// Length of the run of characters that are neither `<` nor `>`.
pub open spec fn tag_run(s: Seq<char>, i: int) -> int
    decreases s.len() - i,
{
    if i < 0 || i >= s.len() || s[i] == '<' || s[i] == '>' {
        0
    } else {
        1 + tag_run(s, i + 1)
    }
}

proof fn lemma_tag_run_bounds(s: Seq<char>, i: int)
    requires
        0 <= i <= s.len(),
    ensures
        0 <= tag_run(s, i),
        i + tag_run(s, i) <= s.len(),
    decreases s.len() - i,
{
    if i < s.len() && s[i] != '<' && s[i] != '>' {
        lemma_tag_run_bounds(s, i + 1);
    }
}

proof fn lemma_tag_run_skip(s: Seq<char>, i: int, d: int)
    requires
        0 <= i,
        0 <= d,
        i + d <= s.len(),
    ensures
        tag_run(s.skip(i), d) == tag_run(s, i + d),
    decreases s.len() - i - d,
{
    if i + d < s.len() && s[i + d] != '<' && s[i + d] != '>' {
        lemma_tag_run_skip(s, i, d + 1);
    }
}

fn tag_run_exec(s: &Vec<char>, i: usize) -> (r: usize)
    requires
        i <= s@.len(),
    ensures
        r == tag_run(s@, i as int),
        i + r <= s@.len(),
{
    let n: usize = s.len();
    let mut j: usize = i;
    while j < n && s[j] != '<' && s[j] != '>'
        invariant
            i <= j <= n,
            n == s@.len(),
            tag_run(s@, i as int) == (j - i) + tag_run(s@, j as int),
        decreases n - j,
    {
        j = j + 1;
    }
    proof {
        lemma_tag_run_bounds(s@, j as int);
    }
    j - i
}

/// Removes every markup tag from the string.
pub fn strip_html(s: &str) -> (r: String)
    ensures
        r@ == spec_strip_html(s@),
{
    let v = str_to_chars(s);
    let n: usize = v.len();
    let mut out: Vec<char> = Vec::new();
    let mut i: usize = 0;
    proof {
        assert(v@.skip(0) =~= v@);
        assert(Seq::<char>::empty() + spec_strip_html(s@) =~= spec_strip_html(s@));
    }
    while i < n
        invariant
            i <= n,
            n == v@.len(),
            v@ == s@,
            spec_strip_html(s@) == out@ + spec_strip_html(v@.skip(i as int)),
        decreases n - i,
    {
        let ghost t0 = v@.skip(i as int);
        let ghost out0 = out@;
        if v[i] == '<' {
            proof {
                lemma_tag_run_skip(v@, i as int, 1);
            }
            let r = tag_run_exec(&v, i + 1);
            if i + 1 + r < n && v[i + 1 + r] == '>' {
                i = i + 2 + r;
                proof {
                    assert(tag_run(t0, 1) == r);
                    assert(t0.skip(2 + r) =~= v@.skip(i as int));
                    assert(spec_strip_html(s@) =~= out@ + spec_strip_html(v@.skip(i as int)));
                }
            } else {
                out.push('<');
                i = i + 1;
                proof {
                    assert(tag_run(t0, 1) == r);
                    assert(t0.skip(1) =~= v@.skip(i as int));
                    assert(out@ =~= out0 + seq!['<']);
                    assert(spec_strip_html(s@) =~= out@ + spec_strip_html(v@.skip(i as int)));
                }
            }
        } else {
            out.push(v[i]);
            i = i + 1;
            proof {
                assert(t0.skip(1) =~= v@.skip(i as int));
                assert(out@ =~= out0 + seq![t0[0]]);
                assert(spec_strip_html(s@) =~= out@ + spec_strip_html(v@.skip(i as int)));
            }
        }
    }
    proof {
        assert(v@.skip(n as int) =~= Seq::<char>::empty());
    }
    chars_to_string(&out)
}

/// The string with every whitespace character removed.
pub open spec fn spec_remove_whitespace(s: Seq<char>) -> Seq<char>
    decreases s.len(),
{
    if s.len() == 0 {
        Seq::<char>::empty()
    } else if is_space_char(s[0]) {
        spec_remove_whitespace(s.drop_first())
    } else {
        seq![s[0]] + spec_remove_whitespace(s.drop_first())
    }
}

/// Removes every whitespace character.
pub fn remove_whitespace(s: &str) -> (r: String)
    ensures
        r@ == spec_remove_whitespace(s@),
{
    let v = str_to_chars(s);
    let n: usize = v.len();
    let mut out: Vec<char> = Vec::new();
    let mut i: usize = 0;
    proof {
        assert(v@.skip(0) =~= v@);
        assert(Seq::<char>::empty() + spec_remove_whitespace(s@)
            =~= spec_remove_whitespace(s@));
    }
    while i < n
        invariant
            i <= n,
            n == v@.len(),
            v@ == s@,
            spec_remove_whitespace(s@) == out@ + spec_remove_whitespace(v@.skip(i as int)),
        decreases n - i,
    {
        let ghost t0 = v@.skip(i as int);
        let ghost out0 = out@;
        if !crate::japanese::is_space_char_exec(v[i]) {
            out.push(v[i]);
        }
        i = i + 1;
        proof {
            assert(t0.drop_first() =~= v@.skip(i as int));
            if !is_space_char(t0[0]) {
                assert(out@ =~= out0 + seq![t0[0]]);
            }
            assert(spec_remove_whitespace(s@) =~= out@ + spec_remove_whitespace(
                v@.skip(i as int),
            ));
        }
    }
    proof {
        assert(v@.skip(n as int) =~= Seq::<char>::empty());
    }
    chars_to_string(&out)
}

/// One example pair's display line: both texts joined by a break when both
/// are present, the sentence alone when only it is, nothing otherwise.
pub open spec fn spec_example_line(e: Example) -> Seq<char> {
    if e.japanese@.len() > 0 && e.english@.len() > 0 {
        e.japanese@ + "<br>"@ + e.english@
    } else if e.japanese@.len() > 0 {
        e.japanese@
    } else {
        Seq::<char>::empty()
    }
}

/// The display text of the examples `i..`: their nonempty lines joined by
/// double breaks.
pub open spec fn spec_examples_text(es: Seq<Example>, i: int) -> Seq<char>
    decreases es.len() - i,
{
    if i < 0 || i >= es.len() {
        Seq::<char>::empty()
    } else if es[i].japanese@.len() == 0 {
        spec_examples_text(es, i + 1)
    } else if spec_examples_text(es, i + 1).len() == 0 {
        spec_example_line(es[i])
    } else {
        spec_example_line(es[i]) + "<br><br>"@ + spec_examples_text(es, i + 1)
    }
}

/// Joins a word's example pairs for display: each pair on its own line,
/// lines separated by double breaks, pairs without a sentence left out.
pub fn get_examples(word: &crate::entry::Word) -> (r: String)
    ensures
        r@ == spec_examples_text(word.examples@, 0),
{
    let out = examples_text_from(&word.examples, 0);
    chars_to_string(&out)
}

fn examples_text_from(es: &Vec<Example>, i: usize) -> (r: Vec<char>)
    requires
        i <= es@.len(),
    ensures
        r@ == spec_examples_text(es@, i as int),
    decreases es@.len() - i,
{
    if i == es.len() {
        let r: Vec<char> = Vec::new();
        assert(r@ =~= spec_examples_text(es@, i as int));
        return r;
    }
    let rest = examples_text_from(es, i + 1);
    if es[i].japanese.as_str().unicode_len() == 0 {
        proof {
            assert(rest@ =~= spec_examples_text(es@, i as int));
        }
        return rest;
    }
    let mut out: Vec<char> = Vec::new();
    crate::text::push_all(&mut out, &str_to_chars(es[i].japanese.as_str()));
    if es[i].english.as_str().unicode_len() > 0 {
        crate::text::push_all(&mut out, &str_to_chars("<br>"));
        crate::text::push_all(&mut out, &str_to_chars(es[i].english.as_str()));
    }
    proof {
        assert(out@ =~= spec_example_line(es@[i as int]));
    }
    if rest.len() > 0 {
        crate::text::push_all(&mut out, &str_to_chars("<br><br>"));
        let mut tail = rest;
        out.append(&mut tail);
        proof {
            assert(out@ =~= spec_examples_text(es@, i as int));
        }
    } else {
        proof {
            assert(out@ =~= spec_examples_text(es@, i as int));
        }
    }
    out
}

} // verus!
