//! The word records of the primary dictionary source, with the tag
//! normalization table and the structured glossary content that nests
//! meanings, examples and furigana-styled runs.

use vstd::prelude::*;
use crate::dict::dict_parser::{
    ConvertableJmnedicData,
    WordTable,
    WordSlot,
    KanjiTable,
    merged_into,
    disp_synthesized,
    spec_find_word,
    sort_glossaries,
    pairs_to_examples,
    lemma_ex_member_bridge,
    lemma_conclude_update,
    lemma_conclude_insert,
    synthesize_display,
};
use crate::entry::Word;
use crate::numeric::{is_float_text, is_float_text_exec};
use crate::text::{str_eq, spec_split, split_char};
use crate::strset::{distinct_strs, insert_unique};
use crate::furigana::strs_views;

verus! {

/// The normalized spelling of one tag, for tags this source abbreviates.
pub open spec fn spec_remap_pair(s: Seq<char>) -> Seq<char> {
    if s == "N5"@ {
        "jlpt-N5"@
    } else if s == "N4"@ {
        "jlpt-N4"@
    } else if s == "N3"@ {
        "jlpt-N3"@
    } else if s == "N2"@ {
        "jlpt-N2"@
    } else if s == "N1"@ {
        "jlpt-N1"@
    } else if s == "adj-i"@ {
        "adj-い"@
    } else if s == "adj-ix"@ {
        "adj-いx"@
    } else if s == "adj-ku"@ {
        "adj-く"@
    } else if s == "adj-na"@ {
        "adj-な"@
    } else if s == "adj-no"@ {
        "adj-の"@
    } else if s == "adj-to"@ {
        "adj-と"@
    } else if s == "adj-kari"@ {
        "adj-かり"@
    } else if s == "adj-shiku"@ {
        "adj-しく"@
    } else if s == "adj-taru"@ {
        "adj-たる"@
    } else if s == "adj-nari"@ {
        "adj-なり"@
    } else if s == "i-adjective"@ {
        "い-adjective"@
    } else if s == "i-adj"@ {
        "い-adj"@
    } else if s == "ix-adj"@ {
        "いx-adj"@
    } else if s == "ku-adj"@ {
        "く-adj"@
    } else if s == "na-adj"@ {
        "な-adj"@
    } else if s == "no-adj"@ {
        "の-adj"@
    } else if s == "to-adj"@ {
        "と-adj"@
    } else if s == "kari-adj"@ {
        "かり-adj"@
    } else if s == "shiku-adj"@ {
        "しく-adj"@
    } else if s == "taru-adj"@ {
        "たる-adj"@
    } else if s == "tari-adj"@ {
        "なり-adj"@
    } else if s == "adv-to"@ {
        "adv-と"@
    } else if s == "to-adv"@ {
        "と-adv"@
    } else if s == "vr"@ {
        "vり"@
    } else if s == "vk"@ {
        "vくる"@
    } else if s == "vs"@ {
        "vする"@
    } else if s == "vz"@ {
        "vずる"@
    } else if s == "vn"@ {
        "vぬ-i"@
    } else if s == "vs-i"@ {
        "vする-i"@
    } else if s == "vs-s"@ {
        "vする-s"@
    } else if s == "v4k"@ {
        "v4く"@
    } else if s == "v4s"@ {
        "v4す"@
    } else if s == "v4t"@ {
        "v4つ"@
    } else if s == "v4n"@ {
        "v4ぬ"@
    } else if s == "v4h"@ {
        "v4ふ"@
    } else if s == "v4m"@ {
        "v4む"@
    } else if s == "v4r"@ {
        "v4る"@
    } else if s == "v4g"@ {
        "v4ぐ"@
    } else if s == "v4b"@ {
        "v4ぶ"@
    } else if s == "v5u"@ {
        "v5う"@
    } else if s == "v5k"@ {
        "v5く"@
    } else if s == "v5s"@ {
        "v5す"@
    } else if s == "v5t"@ {
        "v5つ"@
    } else if s == "v5n"@ {
        "v5ぬ"@
    } else if s == "v5m"@ {
        "v5む"@
    } else if s == "v5r"@ {
        "v5る"@
    } else if s == "v5g"@ {
        "v5ぐ"@
    } else if s == "v5b"@ {
        "v5ぶ"@
    } else if s == "v5u-s"@ {
        "v5う-s"@
    } else if s == "v5k-s"@ {
        "v5く-s"@
    } else if s == "v5r-i"@ {
        "v5る-i"@
    } else if s == "v5aru"@ {
        "v5ある"@
    } else if s == "v5uru"@ {
        "v5うる"@
    } else {
        s
    }
}

/// What `remap_tag` returns: nothing for an empty or numeric tag, else the
/// normalized spelling.
pub open spec fn spec_remap_tag(s: Seq<char>) -> Option<Seq<char>> {
    if s.len() == 0 || is_float_text(s) {
        None
    } else {
        Some(spec_remap_pair(s))
    }
}

/// Normalizes one tag: an empty tag or one that reads as a number is
/// dropped; known abbreviations are rewritten; anything else passes through.
#[verifier::rlimit(100)]
pub fn remap_tag(tag: &str) -> (r: Option<String>)
    ensures
        r is Some <==> spec_remap_tag(tag@) is Some,
        r is Some ==> r->0@ == spec_remap_tag(tag@)->0,
{
    if tag.unicode_len() == 0 || is_float_text_exec(tag) {
        return None;
    }
    if str_eq(tag, "N5") {
        Some("jlpt-N5".to_owned())
    } else if str_eq(tag, "N4") {
        Some("jlpt-N4".to_owned())
    } else if str_eq(tag, "N3") {
        Some("jlpt-N3".to_owned())
    } else if str_eq(tag, "N2") {
        Some("jlpt-N2".to_owned())
    } else if str_eq(tag, "N1") {
        Some("jlpt-N1".to_owned())
    } else if str_eq(tag, "adj-i") {
        Some("adj-い".to_owned())
    } else if str_eq(tag, "adj-ix") {
        Some("adj-いx".to_owned())
    } else if str_eq(tag, "adj-ku") {
        Some("adj-く".to_owned())
    } else if str_eq(tag, "adj-na") {
        Some("adj-な".to_owned())
    } else if str_eq(tag, "adj-no") {
        Some("adj-の".to_owned())
    } else if str_eq(tag, "adj-to") {
        Some("adj-と".to_owned())
    } else if str_eq(tag, "adj-kari") {
        Some("adj-かり".to_owned())
    } else if str_eq(tag, "adj-shiku") {
        Some("adj-しく".to_owned())
    } else if str_eq(tag, "adj-taru") {
        Some("adj-たる".to_owned())
    } else if str_eq(tag, "adj-nari") {
        Some("adj-なり".to_owned())
    } else if str_eq(tag, "i-adjective") {
        Some("い-adjective".to_owned())
    } else if str_eq(tag, "i-adj") {
        Some("い-adj".to_owned())
    } else if str_eq(tag, "ix-adj") {
        Some("いx-adj".to_owned())
    } else if str_eq(tag, "ku-adj") {
        Some("く-adj".to_owned())
    } else if str_eq(tag, "na-adj") {
        Some("な-adj".to_owned())
    } else if str_eq(tag, "no-adj") {
        Some("の-adj".to_owned())
    } else if str_eq(tag, "to-adj") {
        Some("と-adj".to_owned())
    } else if str_eq(tag, "kari-adj") {
        Some("かり-adj".to_owned())
    } else if str_eq(tag, "shiku-adj") {
        Some("しく-adj".to_owned())
    } else if str_eq(tag, "taru-adj") {
        Some("たる-adj".to_owned())
    } else if str_eq(tag, "tari-adj") {
        Some("なり-adj".to_owned())
    } else if str_eq(tag, "adv-to") {
        Some("adv-と".to_owned())
    } else if str_eq(tag, "to-adv") {
        Some("と-adv".to_owned())
    } else if str_eq(tag, "vr") {
        Some("vり".to_owned())
    } else if str_eq(tag, "vk") {
        Some("vくる".to_owned())
    } else if str_eq(tag, "vs") {
        Some("vする".to_owned())
    } else if str_eq(tag, "vz") {
        Some("vずる".to_owned())
    } else if str_eq(tag, "vn") {
        Some("vぬ-i".to_owned())
    } else if str_eq(tag, "vs-i") {
        Some("vする-i".to_owned())
    } else if str_eq(tag, "vs-s") {
        Some("vする-s".to_owned())
    } else if str_eq(tag, "v4k") {
        Some("v4く".to_owned())
    } else if str_eq(tag, "v4s") {
        Some("v4す".to_owned())
    } else if str_eq(tag, "v4t") {
        Some("v4つ".to_owned())
    } else if str_eq(tag, "v4n") {
        Some("v4ぬ".to_owned())
    } else if str_eq(tag, "v4h") {
        Some("v4ふ".to_owned())
    } else if str_eq(tag, "v4m") {
        Some("v4む".to_owned())
    } else if str_eq(tag, "v4r") {
        Some("v4る".to_owned())
    } else if str_eq(tag, "v4g") {
        Some("v4ぐ".to_owned())
    } else if str_eq(tag, "v4b") {
        Some("v4ぶ".to_owned())
    } else if str_eq(tag, "v5u") {
        Some("v5う".to_owned())
    } else if str_eq(tag, "v5k") {
        Some("v5く".to_owned())
    } else if str_eq(tag, "v5s") {
        Some("v5す".to_owned())
    } else if str_eq(tag, "v5t") {
        Some("v5つ".to_owned())
    } else if str_eq(tag, "v5n") {
        Some("v5ぬ".to_owned())
    } else if str_eq(tag, "v5m") {
        Some("v5む".to_owned())
    } else if str_eq(tag, "v5r") {
        Some("v5る".to_owned())
    } else if str_eq(tag, "v5g") {
        Some("v5ぐ".to_owned())
    } else if str_eq(tag, "v5b") {
        Some("v5ぶ".to_owned())
    } else if str_eq(tag, "v5u-s") {
        Some("v5う-s".to_owned())
    } else if str_eq(tag, "v5k-s") {
        Some("v5く-s".to_owned())
    } else if str_eq(tag, "v5r-i") {
        Some("v5る-i".to_owned())
    } else if str_eq(tag, "v5aru") {
        Some("v5ある".to_owned())
    } else if str_eq(tag, "v5uru") {
        Some("v5うる".to_owned())
    } else {
        Some(tag.to_owned())
    }
}

/// The set of normalized tags named by the fields `0..i`.
pub open spec fn remapped_tags_to(parts: Seq<Seq<char>>, i: int) -> Set<Seq<char>>
    decreases i,
{
    if i <= 0 {
        Set::<Seq<char>>::empty()
    } else {
        match spec_remap_tag(parts[i - 1]) {
            Some(t) => remapped_tags_to(parts, i - 1).insert(t),
            None => remapped_tags_to(parts, i - 1),
        }
    }
}

/// The set of tags a space-separated tag string names under this source's
/// normalization.
pub open spec fn spec_tag_set(s: Seq<char>) -> Set<Seq<char>> {
    remapped_tags_to(spec_split(s, ' '), spec_split(s, ' ').len() as int)
}

/// Splits a tag string at spaces, normalizes each field, and collects the
/// results without duplicates.
pub fn collect_tags(s: &str) -> (r: Vec<String>)
    ensures
        distinct_strs(r@),
        strs_views(r@).to_set() == spec_tag_set(s@),
{
    let parts = split_char(s, ' ');
    let ghost pv = spec_split(s@, ' ');
    let mut out: Vec<String> = Vec::new();
    let mut i: usize = 0;
    proof {
        assert(strs_views(out@).to_set() =~= remapped_tags_to(pv, 0));
    }
    while i < parts.len()
        invariant
            i <= parts@.len(),
            parts@.map_values(|t: String| t@) == pv,
            distinct_strs(out@),
            strs_views(out@).to_set() == remapped_tags_to(pv, i as int),
        decreases parts@.len() - i,
    {
        assert(parts@[i as int]@ == pv[i as int]);
        match remap_tag(parts[i].as_str()) {
            Some(t) => {
                proof {
                    assert(t@ == spec_remap_tag(pv[i as int])->0);
                }
                insert_unique(&mut out, t);
            },
            None => {},
        }
        i = i + 1;
        proof {
            assert(strs_views(out@).to_set() =~= remapped_tags_to(pv, i as int));
        }
    }
    out
}

/// Nested glossary content: plain text, a list, or a tagged node carrying
/// contextual metadata.
pub enum Content {
    Text(String),
    List(Vec<Content>),
    Node(Box<ContentNode>),
}

/// A tagged content node: its child content, its markup tag, and the
/// contextual role its metadata assigns it.
pub struct ContentNode {
    pub content: Option<Content>,
    pub tag: Option<String>,
    pub data_content: Option<String>,
}

/// Leading whitespace run.
pub open spec fn ws_run(s: Seq<char>, i: int) -> int
    decreases s.len() - i,
{
    if i < 0 || i >= s.len() || !crate::japanese::is_space_char(s[i]) {
        0
    } else {
        1 + ws_run(s, i + 1)
    }
}

/// Trailing whitespace run, counted backwards from `i`.
pub open spec fn ws_run_back(s: Seq<char>, i: int) -> int
    decreases i,
{
    if i <= 0 || i > s.len() || !crate::japanese::is_space_char(s[i - 1]) {
        0
    } else {
        1 + ws_run_back(s, i - 1)
    }
}

/// The string with leading and trailing whitespace removed.
pub open spec fn spec_trim(s: Seq<char>) -> Seq<char> {
    let lead = ws_run(s, 0);
    if lead >= s.len() {
        Seq::<char>::empty()
    } else {
        s.subrange(lead, s.len() - ws_run_back(s, s.len() as int))
    }
}

/// Every closing bracket followed by a space collapses to the bracket alone.
pub open spec fn spec_squash_bracket_space(s: Seq<char>) -> Seq<char>
    decreases s.len(),
{
    if s.len() == 0 {
        Seq::<char>::empty()
    } else if s.len() >= 2 && s[0] == ']' && s[1] == ' ' {
        seq![']'] + spec_squash_bracket_space(s.skip(2))
    } else {
        seq![s[0]] + spec_squash_bracket_space(s.skip(1))
    }
}

/// The text a tagged-glossary sentence contributes: trimmed, with the
/// space after each reading annotation removed.
pub open spec fn spec_clean(s: Seq<char>) -> Seq<char> {
    spec_squash_bracket_space(spec_trim(s))
}

/// The plain text of nested content: texts in order, a footnote node
/// contributing nothing, a keyword node wrapped in bold markers, and a
/// ruby node rendered back into the bracketed reading notation.
pub open spec fn spec_text(c: Content) -> Seq<char>
    decreases c,
{
    match c {
        Content::Text(s) => s@,
        Content::List(v) => spec_text_list(v@, 0),
        Content::Node(n) => {
            if n.data_content is Some && n.data_content->0@ == "attribution-footnote"@ {
                Seq::<char>::empty()
            } else if n.content is Some {
                let inner = n.content->0;
                if n.data_content is Some && n.data_content->0@ == "example-keyword"@ {
                    "<b>"@ + spec_text(inner) + "</b>"@
                } else if (n.tag is Some && n.tag->0@ == "ruby"@) && inner is List
                    && inner->List_0@.len() == 2 {
                    let arrv = inner->List_0@;
                    seq![' '] + spec_text(arrv[0]) + seq!['['] + spec_text(arrv[1]) + seq![']']
                } else {
                    spec_text(inner)
                }
            } else {
                Seq::<char>::empty()
            }
        },
    }
}

pub open spec fn spec_text_list(v: Seq<Content>, i: int) -> Seq<char>
    decreases v, v.len() - i,
{
    if i < 0 || i >= v.len() {
        Seq::<char>::empty()
    } else {
        spec_text(v[i]) + spec_text_list(v, i + 1)
    }
}

/// The meanings nested content contributes: text nodes count only inside a
/// glossary context; a node's role switches the context for its children.
pub open spec fn spec_content_glossary(c: Content, in_glossary: bool) -> Seq<Seq<char>>
    decreases c,
{
    match c {
        Content::Text(s) => if in_glossary {
            seq![s@]
        } else {
            Seq::<Seq<char>>::empty()
        },
        Content::List(v) => spec_content_glossary_list(v@, 0, in_glossary),
        Content::Node(n) => {
            if n.content is Some {
                let inner = n.content->0;
                if n.data_content is Some && n.data_content->0@ == "glossary"@ {
                    spec_content_glossary(inner, true)
                } else if n.data_content is Some && n.data_content->0@ == "examples"@ {
                    spec_content_glossary(inner, false)
                } else {
                    spec_content_glossary(inner, in_glossary)
                }
            } else {
                Seq::<Seq<char>>::empty()
            }
        },
    }
}

pub open spec fn spec_content_glossary_list(v: Seq<Content>, i: int, in_glossary: bool) -> Seq<
    Seq<char>,
>
    decreases v, v.len() - i,
{
    if i < 0 || i >= v.len() {
        Seq::<Seq<char>>::empty()
    } else {
        spec_content_glossary(v[i], in_glossary) + spec_content_glossary_list(v, i + 1, in_glossary)
    }
}

/// The example sentence pairs nested content contributes: a node in an
/// example role renders its two children (or its whole text) as a cleaned
/// sentence pair.
pub open spec fn spec_content_example(c: Content, in_example: bool) -> Seq<(Seq<char>, Seq<char>)>
    decreases c,
{
    match c {
        Content::Text(s) => if in_example {
            seq![(s@, Seq::<char>::empty())]
        } else {
            Seq::<(Seq<char>, Seq<char>)>::empty()
        },
        Content::List(v) => spec_content_example_list(v@, 0, in_example),
        Content::Node(n) => {
            if n.content is Some {
                let inner = n.content->0;
                if n.data_content is Some && (n.data_content->0@ == "examples"@
                    || n.data_content->0@ == "example-sentence"@) {
                    if inner is List && inner->List_0@.len() == 2 {
                        let arrv = inner->List_0@;
                        seq![
                            (spec_clean(spec_text(arrv[0])), spec_clean(spec_text(arrv[1]))),
                        ]
                    } else {
                        seq![(spec_clean(spec_text(inner)), Seq::<char>::empty())]
                    }
                } else {
                    spec_content_example(inner, in_example)
                }
            } else {
                Seq::<(Seq<char>, Seq<char>)>::empty()
            }
        },
    }
}

pub open spec fn spec_content_example_list(v: Seq<Content>, i: int, in_example: bool) -> Seq<
    (Seq<char>, Seq<char>),
>
    decreases v, v.len() - i,
{
    if i < 0 || i >= v.len() {
        Seq::<(Seq<char>, Seq<char>)>::empty()
    } else {
        spec_content_example(v[i], in_example) + spec_content_example_list(v, i + 1, in_example)
    }
}

fn ws_run_exec(s: &Vec<char>, i: usize) -> (r: usize)
    requires
        i <= s@.len(),
    ensures
        r == ws_run(s@, i as int),
        i + r <= s@.len(),
{
    let n: usize = s.len();
    let mut j: usize = i;
    while j < n && crate::japanese::is_space_char_exec(s[j])
        invariant
            i <= j <= n,
            n == s@.len(),
            ws_run(s@, i as int) == (j - i) + ws_run(s@, j as int),
        decreases n - j,
    {
        j = j + 1;
    }
    proof {
        lemma_ws_run_bounds(s@, j as int);
    }
    j - i
}

/// The character just past a whitespace run is not whitespace.
proof fn lemma_ws_run_stop(s: Seq<char>, i: int)
    requires
        0 <= i <= s.len(),
    ensures
        i + ws_run(s, i) < s.len() ==> !crate::japanese::is_space_char(
            s[i + ws_run(s, i)],
        ),
    decreases s.len() - i,
{
    if i < s.len() && crate::japanese::is_space_char(s[i]) {
        lemma_ws_run_stop(s, i + 1);
    }
}

proof fn lemma_ws_run_bounds(s: Seq<char>, i: int)
    requires
        0 <= i <= s.len(),
    ensures
        0 <= ws_run(s, i),
        i + ws_run(s, i) <= s.len(),
    decreases s.len() - i,
{
    if i < s.len() && crate::japanese::is_space_char(s[i]) {
        lemma_ws_run_bounds(s, i + 1);
    }
}

proof fn lemma_ws_run_back_bounds(s: Seq<char>, i: int)
    requires
        0 <= i <= s.len(),
    ensures
        0 <= ws_run_back(s, i) <= i,
    decreases i,
{
    if i > 0 && crate::japanese::is_space_char(s[i - 1]) {
        lemma_ws_run_back_bounds(s, i - 1);
    }
}

/// The trailing run stops before a known non-space position.
proof fn lemma_ws_run_back_stop(s: Seq<char>, i: int, p: int)
    requires
        0 <= p < i <= s.len(),
        !crate::japanese::is_space_char(s[p]),
    ensures
        ws_run_back(s, i) <= i - p - 1,
    decreases i,
{
    if i - 1 > p && crate::japanese::is_space_char(s[i - 1]) {
        lemma_ws_run_back_stop(s, i - 1, p);
    }
}

/// Removes leading and trailing whitespace.
fn trim_chars(s: &Vec<char>) -> (r: Vec<char>)
    ensures
        r@ == spec_trim(s@),
{
    let n: usize = s.len();
    let lead: usize = ws_run_exec(s, 0);
    if lead == n {
        let r: Vec<char> = Vec::new();
        assert(r@ =~= spec_trim(s@));
        return r;
    }
    proof {
        lemma_ws_run_stop(s@, 0);
    }
    let mut back: usize = n;
    while back > lead + 1 && crate::japanese::is_space_char_exec(s[back - 1])
        invariant
            lead + 1 <= back <= n,
            n == s@.len(),
            lead == ws_run(s@, 0),
            lead < n,
            !crate::japanese::is_space_char(s@[lead as int]),
            ws_run_back(s@, n as int) == (n - back) + ws_run_back(s@, back as int),
        decreases back,
    {
        back = back - 1;
    }
    proof {
        if back == lead + 1 {
            lemma_ws_run_back_stop(s@, back as int, lead as int);
            assert(ws_run_back(s@, back as int) == 0);
        } else {
            assert(ws_run_back(s@, back as int) == 0);
        }
        assert(n as int - ws_run_back(s@, n as int) == back);
    }
    crate::text::sub_chars(s, lead, back)
}

/// Removes the space after each closing bracket.
fn squash_bracket_space(s: &Vec<char>) -> (r: Vec<char>)
    ensures
        r@ == spec_squash_bracket_space(s@),
{
    let n: usize = s.len();
    let mut out: Vec<char> = Vec::new();
    let mut i: usize = 0;
    proof {
        assert(s@.skip(0) =~= s@);
        assert(Seq::<char>::empty() + spec_squash_bracket_space(s@)
            =~= spec_squash_bracket_space(s@));
    }
    while i < n
        invariant
            i <= n,
            n == s@.len(),
            spec_squash_bracket_space(s@) == out@ + spec_squash_bracket_space(s@.skip(i as int)),
        decreases n - i,
    {
        let ghost t0 = s@.skip(i as int);
        let ghost out0 = out@;
        if s[i] == ']' && i + 1 < n && s[i + 1] == ' ' {
            out.push(']');
            i = i + 2;
            proof {
                assert(t0.skip(2) =~= s@.skip(i as int));
                assert(out@ =~= out0 + seq![']']);
                assert(spec_squash_bracket_space(s@) =~= out@ + spec_squash_bracket_space(
                    s@.skip(i as int),
                ));
            }
        } else {
            out.push(s[i]);
            i = i + 1;
            proof {
                assert(t0.skip(1) =~= s@.skip(i as int));
                assert(out@ =~= out0 + seq![t0[0]]);
                assert(spec_squash_bracket_space(s@) =~= out@ + spec_squash_bracket_space(
                    s@.skip(i as int),
                ));
            }
        }
    }
    proof {
        assert(s@.skip(n as int) =~= Seq::<char>::empty());
    }
    out
}

/// Trims a rendered sentence and removes the space after each annotation.
fn clean_sentence(s: &Vec<char>) -> (r: String)
    ensures
        r@ == spec_clean(s@),
{
    let t = trim_chars(s);
    crate::text::chars_to_string(&squash_bracket_space(&t))
}

/// The plain text of nested content.
pub fn content_text(c: &Content) -> (r: Vec<char>)
    ensures
        r@ == spec_text(*c),
    decreases *c,
{
    match c {
        Content::Text(s) => crate::text::str_to_chars(s.as_str()),
        Content::List(v) => content_text_list(v, 0),
        Content::Node(n) => {
            let is_footnote = match &n.data_content {
                Some(d) => str_eq(d.as_str(), "attribution-footnote"),
                None => false,
            };
            if is_footnote {
                let r: Vec<char> = Vec::new();
                assert(r@ =~= spec_text(*c));
                r
            } else {
                match &n.content {
                    Some(inner) => {
                        let is_keyword = match &n.data_content {
                            Some(d) => str_eq(d.as_str(), "example-keyword"),
                            None => false,
                        };
                        if is_keyword {
                            let mut out = crate::text::str_to_chars("<b>");
                            let mut mid = content_text(inner);
                            out.append(&mut mid);
                            let mut tail = crate::text::str_to_chars("</b>");
                            out.append(&mut tail);
                            assert(out@ =~= spec_text(*c));
                            out
                        } else {
                            let is_ruby = match &n.tag {
                                Some(t) => str_eq(t.as_str(), "ruby"),
                                None => false,
                            };
                            let mut pair: Option<Vec<char>> = None;
                            if is_ruby {
                                match inner {
                                    Content::List(arr) => {
                                        if arr.len() == 2 {
                                            let mut out: Vec<char> = Vec::new();
                                            out.push(' ');
                                            let mut a = content_text(&arr[0]);
                                            out.append(&mut a);
                                            out.push('[');
                                            let mut b = content_text(&arr[1]);
                                            out.append(&mut b);
                                            out.push(']');
                                            assert(out@ =~= spec_text(*c));
                                            pair = Some(out);
                                        }
                                    },
                                    _ => {},
                                }
                            }
                            match pair {
                                Some(out) => out,
                                None => {
                                    let r = content_text(inner);
                                    assert(r@ =~= spec_text(*c));
                                    r
                                },
                            }
                        }
                    },
                    None => {
                        let r: Vec<char> = Vec::new();
                        assert(r@ =~= spec_text(*c));
                        r
                    },
                }
            }
        },
    }
}

fn content_text_list(v: &Vec<Content>, i: usize) -> (r: Vec<char>)
    requires
        i <= v@.len(),
    ensures
        r@ == spec_text_list(v@, i as int),
    decreases v@, v@.len() - i,
{
    if i == v.len() {
        Vec::new()
    } else {
        let mut out = content_text(&v[i]);
        let mut rest = content_text_list(v, i + 1);
        out.append(&mut rest);
        out
    }
}

/// The meanings nested content contributes.
pub fn content_glossary(c: &Content, in_glossary: bool) -> (r: Vec<String>)
    ensures
        strs_views(r@) == spec_content_glossary(*c, in_glossary),
    decreases *c,
{
    match c {
        Content::Text(s) => {
            let mut r: Vec<String> = Vec::new();
            if in_glossary {
                r.push(s.clone());
            }
            assert(strs_views(r@) =~= spec_content_glossary(*c, in_glossary));
            r
        },
        Content::List(v) => content_glossary_list(v, 0, in_glossary),
        Content::Node(n) => {
            match &n.content {
                Some(inner) => {
                    let is_gloss = match &n.data_content {
                        Some(d) => str_eq(d.as_str(), "glossary"),
                        None => false,
                    };
                    let is_ex = match &n.data_content {
                        Some(d) => str_eq(d.as_str(), "examples"),
                        None => false,
                    };
                    if is_gloss {
                        content_glossary(inner, true)
                    } else if is_ex {
                        content_glossary(inner, false)
                    } else {
                        content_glossary(inner, in_glossary)
                    }
                },
                None => {
                    let r: Vec<String> = Vec::new();
                    assert(strs_views(r@) =~= spec_content_glossary(*c, in_glossary));
                    r
                },
            }
        },
    }
}

fn content_glossary_list(v: &Vec<Content>, i: usize, in_glossary: bool) -> (r: Vec<String>)
    requires
        i <= v@.len(),
    ensures
        strs_views(r@) == spec_content_glossary_list(v@, i as int, in_glossary),
    decreases v@, v@.len() - i,
{
    if i == v.len() {
        let r: Vec<String> = Vec::new();
        assert(strs_views(r@) =~= spec_content_glossary_list(v@, i as int, in_glossary));
        r
    } else {
        let mut out = content_glossary(&v[i], in_glossary);
        let ghost outv = strs_views(out@);
        let mut rest = content_glossary_list(v, i + 1, in_glossary);
        let ghost restv = strs_views(rest@);
        out.append(&mut rest);
        proof {
            assert(strs_views(out@) =~= outv + restv);
        }
        out
    }
}

/// The example sentence pairs nested content contributes.
pub fn content_example(c: &Content, in_example: bool) -> (r: Vec<(String, String)>)
    ensures
        pair_views(r@) == spec_content_example(*c, in_example),
    decreases *c,
{
    match c {
        Content::Text(s) => {
            let mut r: Vec<(String, String)> = Vec::new();
            if in_example {
                r.push((s.clone(), String::new()));
            }
            assert(pair_views(r@) =~= spec_content_example(*c, in_example));
            r
        },
        Content::List(v) => content_example_list(v, 0, in_example),
        Content::Node(n) => {
            match &n.content {
                Some(inner) => {
                    let is_ex = match &n.data_content {
                        Some(d) => str_eq(d.as_str(), "examples") || str_eq(
                            d.as_str(),
                            "example-sentence",
                        ),
                        None => false,
                    };
                    if is_ex {
                        let mut two: Option<Vec<(String, String)>> = None;
                        match inner {
                            Content::List(arr) => {
                                if arr.len() == 2 {
                                    let jp = clean_sentence(&content_text(&arr[0]));
                                    let en = clean_sentence(&content_text(&arr[1]));
                                    let mut r: Vec<(String, String)> = Vec::new();
                                    r.push((jp, en));
                                    assert(pair_views(r@) =~= spec_content_example(
                                        *c,
                                        in_example,
                                    ));
                                    two = Some(r);
                                }
                            },
                            _ => {},
                        }
                        match two {
                            Some(r) => r,
                            None => {
                                let jp = clean_sentence(&content_text(inner));
                                let mut r: Vec<(String, String)> = Vec::new();
                                r.push((jp, String::new()));
                                assert(pair_views(r@) =~= spec_content_example(*c, in_example));
                                r
                            },
                        }
                    } else {
                        content_example(inner, in_example)
                    }
                },
                None => {
                    let r: Vec<(String, String)> = Vec::new();
                    assert(pair_views(r@) =~= spec_content_example(*c, in_example));
                    r
                },
            }
        },
    }
}

/// The views of a list of sentence pairs.
pub open spec fn pair_views(v: Seq<(String, String)>) -> Seq<(Seq<char>, Seq<char>)> {
    v.map_values(|p: (String, String)| (p.0@, p.1@))
}

fn content_example_list(v: &Vec<Content>, i: usize, in_example: bool) -> (r: Vec<
    (String, String),
>)
    requires
        i <= v@.len(),
    ensures
        pair_views(r@) == spec_content_example_list(v@, i as int, in_example),
    decreases v@, v@.len() - i,
{
    if i == v.len() {
        let r: Vec<(String, String)> = Vec::new();
        assert(pair_views(r@) =~= spec_content_example_list(v@, i as int, in_example));
        r
    } else {
        let mut out = content_example(&v[i], in_example);
        let ghost outv = pair_views(out@);
        let mut rest = content_example_list(v, i + 1, in_example);
        let ghost restv = pair_views(rest@);
        out.append(&mut rest);
        proof {
            assert(pair_views(out@) =~= outv + restv);
        }
        out
    }
}

/// One glossary value of a raw record: a plain meaning string, a block of
/// structured content, or a list of further glossary values.
pub enum Glossary {
    Text(String),
    StructuredContent(StructuredContent),
    Array(Vec<Glossary>),
}

/// A structured content block, with its declared type string.
pub struct StructuredContent {
    pub content_type: String,
    pub content: Content,
}

/// The meanings a glossary value contributes.
pub open spec fn spec_glossary_meanings(g: Glossary) -> Seq<Seq<char>>
    decreases g,
{
    match g {
        Glossary::Text(s) => seq![s@],
        Glossary::StructuredContent(sc) => spec_content_glossary(sc.content, false),
        Glossary::Array(v) => spec_glossary_meanings_list(v@, 0),
    }
}

pub open spec fn spec_glossary_meanings_list(v: Seq<Glossary>, i: int) -> Seq<Seq<char>>
    decreases v, v.len() - i,
{
    if i < 0 || i >= v.len() {
        Seq::<Seq<char>>::empty()
    } else {
        spec_glossary_meanings(v[i]) + spec_glossary_meanings_list(v, i + 1)
    }
}

/// The example sentence pairs a glossary value contributes.
pub open spec fn spec_glossary_examples(g: Glossary) -> Seq<(Seq<char>, Seq<char>)>
    decreases g,
{
    match g {
        Glossary::Text(s) => Seq::<(Seq<char>, Seq<char>)>::empty(),
        Glossary::StructuredContent(sc) => spec_content_example(sc.content, false),
        Glossary::Array(v) => spec_glossary_examples_list(v@, 0),
    }
}

pub open spec fn spec_glossary_examples_list(v: Seq<Glossary>, i: int) -> Seq<
    (Seq<char>, Seq<char>),
>
    decreases v, v.len() - i,
{
    if i < 0 || i >= v.len() {
        Seq::<(Seq<char>, Seq<char>)>::empty()
    } else {
        spec_glossary_examples(v[i]) + spec_glossary_examples_list(v, i + 1)
    }
}

impl Glossary {
    /// Extracts the meaning strings from the glossary value.
    pub fn get_glossary(&self) -> (r: Vec<String>)
        ensures
            strs_views(r@) == spec_glossary_meanings(*self),
        decreases *self,
    {
        match self {
            Glossary::Text(s) => {
                let mut r: Vec<String> = Vec::new();
                r.push(s.clone());
                assert(strs_views(r@) =~= spec_glossary_meanings(*self));
                r
            },
            Glossary::StructuredContent(sc) => content_glossary(&sc.content, false),
            Glossary::Array(v) => glossary_meanings_list(v, 0),
        }
    }

    /// Extracts the example sentence pairs from the glossary value.
    pub fn get_example(&self) -> (r: Vec<(String, String)>)
        ensures
            pair_views(r@) == spec_glossary_examples(*self),
        decreases *self,
    {
        match self {
            Glossary::Text(s) => {
                let r: Vec<(String, String)> = Vec::new();
                assert(pair_views(r@) =~= spec_glossary_examples(*self));
                r
            },
            Glossary::StructuredContent(sc) => content_example(&sc.content, false),
            Glossary::Array(v) => glossary_examples_list(v, 0),
        }
    }
}

fn glossary_meanings_list(v: &Vec<Glossary>, i: usize) -> (r: Vec<String>)
    requires
        i <= v@.len(),
    ensures
        strs_views(r@) == spec_glossary_meanings_list(v@, i as int),
    decreases v@, v@.len() - i,
{
    if i == v.len() {
        let r: Vec<String> = Vec::new();
        assert(strs_views(r@) =~= spec_glossary_meanings_list(v@, i as int));
        r
    } else {
        let mut out = v[i].get_glossary();
        let ghost outv = strs_views(out@);
        let mut rest = glossary_meanings_list(v, i + 1);
        let ghost restv = strs_views(rest@);
        out.append(&mut rest);
        proof {
            assert(strs_views(out@) =~= outv + restv);
        }
        out
    }
}

fn glossary_examples_list(v: &Vec<Glossary>, i: usize) -> (r: Vec<(String, String)>)
    requires
        i <= v@.len(),
    ensures
        pair_views(r@) == spec_glossary_examples_list(v@, i as int),
    decreases v@, v@.len() - i,
{
    if i == v.len() {
        let r: Vec<(String, String)> = Vec::new();
        assert(pair_views(r@) =~= spec_glossary_examples_list(v@, i as int));
        r
    } else {
        let mut out = v[i].get_example();
        let ghost outv = pair_views(out@);
        let mut rest = glossary_examples_list(v, i + 1);
        let ghost restv = pair_views(rest@);
        out.append(&mut rest);
        proof {
            assert(pair_views(out@) =~= outv + restv);
        }
        out
    }
}

/// One raw word record of this source: spelling, reading, tag string, verb
/// type string, ordering value, glossary, identifier, and frequency string.
pub struct JmnedictWord(
    pub String,
    pub String,
    pub String,
    pub String,
    pub i32,
    pub Glossary,
    pub i32,
    pub String,
);

impl JmnedictWord {
    /// The spelling of the word.
    pub fn kanji(&self) -> (r: &str)
        ensures
            r@ == self.0@,
    {
        self.0.as_str()
    }

    /// The kana reading of the word.
    pub fn kana(&self) -> (r: &str)
        ensures
            r@ == self.1@,
    {
        self.1.as_str()
    }

    /// The normalized tags of the word, from its space-separated tag string.
    pub fn tags(&self) -> (r: Vec<String>)
        ensures
            distinct_strs(r@),
            strs_views(r@).to_set() == spec_tag_set(self.2@),
    {
        collect_tags(self.2.as_str())
    }

    /// The ordering value of the record.
    pub fn order(&self) -> (r: i32)
        ensures
            r == self.4,
    {
        self.4
    }

    /// The meaning strings of the record's glossary.
    pub fn glossary(&self) -> (r: Vec<String>)
        ensures
            strs_views(r@) == spec_glossary_meanings(self.5),
    {
        self.5.get_glossary()
    }

    /// The example sentence pairs of the record's glossary.
    pub fn example(&self) -> (r: Vec<(String, String)>)
        ensures
            pair_views(r@) == spec_glossary_examples(self.5),
    {
        self.5.get_example()
    }

    /// The numeric identifier of the record.
    pub fn id(&self) -> (r: i32)
        ensures
            r == self.6,
    {
        self.6
    }

    /// The normalized frequency tags, from the space-separated frequency string.
    pub fn frequency(&self) -> (r: Vec<String>)
        ensures
            distinct_strs(r@),
            strs_views(r@).to_set() == spec_tag_set(self.7@),
    {
        collect_tags(self.7.as_str())
    }
}

/// Everything one word record does to the accumulator, with the appended
/// sense `g` and (for a fresh slot) the synthesized display spelling.
pub open spec fn jm_word_effect(
    w: JmnedictWord,
    old_entries: Seq<WordSlot>,
    new_entries: Seq<WordSlot>,
    t: Seq<(char, Seq<Seq<char>>)>,
    g: crate::entry::Glossary,
    disp: Seq<char>,
) -> bool {
    &&& g.order == w.4
    &&& distinct_strs(g.tags@)
    &&& strs_views(g.tags@).to_set() == spec_tag_set(w.2@)
    &&& strs_views(g.meaning@) == spec_glossary_meanings(w.5)
    &&& (spec_find_word(old_entries, w.0@, w.1@) is None ==> disp_synthesized(
        disp,
        w.0@,
        w.1@,
        t,
    ))
    &&& merged_into(
        old_entries,
        new_entries,
        w.0@,
        w.1@,
        w.6 as int,
        g,
        true,
        spec_tag_set(w.7@),
        spec_glossary_examples(w.5),
        disp,
    )
}

impl ConvertableJmnedicData for JmnedictWord {
    open spec fn is_unrecognized(&self) -> bool {
        false
    }

    open spec fn kanji_step(&self, before: Seq<crate::entry::Kanji>, after: Seq<crate::entry::Kanji>) -> bool {
        after == before
    }

    open spec fn word_step(
        &self,
        before: Seq<WordSlot>,
        after: Seq<WordSlot>,
        readings: Seq<(char, Seq<Seq<char>>)>,
    ) -> bool {
        exists|g: crate::entry::Glossary, disp: Seq<char>|
            #[trigger] jm_word_effect(*self, before, after, readings, g, disp)
    }

    fn convert_kanji_data(&self, kanji: &mut KanjiTable) -> (r: Result<(), String>)
        ensures
            final(kanji).entries@ == old(kanji).entries@,
    {
        Ok(())
    }

    fn convert_word_data(
        &self,
        words: &mut WordTable,
        kanji_readings: &Vec<(char, Vec<String>)>,
    ) -> (r: Result<(), String>)
        ensures
            exists|g: crate::entry::Glossary, disp: Seq<char>|
                #[trigger] jm_word_effect(
                    *self,
                    old(words).entries@,
                    final(words).entries@,
                    crate::furigana::table_views(kanji_readings@),
                    g,
                    disp,
                ),
    {
        let ghost old_entries = words.entries@;
        let exs = pairs_to_examples(&self.example());
        let ghost exsv = spec_glossary_examples(self.5);
        match words.find(self.kanji(), self.kana()) {
            Some(idx) => {
                let slot = words.entries.remove(idx);
                let WordSlot { kanji: sk, kana: sn, word: w0 } = slot;
                let ghost w0g = w0;
                let glossary = crate::entry::Glossary::new(
                    self.order(),
                    self.tags(),
                    self.glossary(),
                );
                let ghost gg = glossary;
                let Word { word_id: _, furigana, glossary: mut gl, frequency: mut freq, examples: mut exsv0 } = w0;
                gl.push(glossary);
                let ghost glp = gl@;
                let gl2 = sort_glossaries(gl, true);
                crate::strset::extend_unique(&mut freq, &self.frequency());
                crate::entry::extend_examples(&mut exsv0, &exs);
                let w1 = Word::new(self.id(), furigana, gl2, freq, exsv0);
                let slot2 = WordSlot { kanji: sk, kana: sn, word: w1 };
                words.entries.insert(idx, slot2);
                proof {
                    broadcast use vstd::seq_lib::group_to_multiset_ensures;

                    assert(words.entries@ =~= old_entries.update(idx as int, slot2));
                    assert(glp.to_multiset() == w0g.glossary@.to_multiset().insert(gg));
                    assert forall|y: (Seq<char>, Seq<char>)|
                        crate::entry::contains_ex(w1.examples@, y) <==> (
                    crate::entry::contains_ex(w0g.examples@, y) || exsv.contains(y)) by {
                        lemma_ex_member_bridge(exs@, exsv, y);
                    };
                    assert(words.entries@[idx as int].word == w1);
                    assert(old_entries[idx as int].word == w0g);
                    lemma_conclude_update(
                        old_entries,
                        words.entries@,
                        self.0@,
                        self.1@,
                        self.6 as int,
                        gg,
                        true,
                        spec_tag_set(self.7@),
                        exs@,
                        spec_glossary_examples(self.5),
                        Seq::<char>::empty(),
                        idx as int,
                    );
                    assert(jm_word_effect(
                        *self,
                        old_entries,
                        words.entries@,
                        crate::furigana::table_views(kanji_readings@),
                        gg,
                        Seq::<char>::empty(),
                    ));
                }
                Ok(())
            },
            None => {
                let disp = synthesize_display(self.kanji(), self.kana(), kanji_readings);
                let ghost dispv = disp@;
                let glossary = crate::entry::Glossary::new(
                    self.order(),
                    self.tags(),
                    self.glossary(),
                );
                let ghost gg = glossary;
                let mut gl: Vec<crate::entry::Glossary> = Vec::new();
                gl.push(glossary);
                let w = Word::new(self.id(), disp, gl, self.frequency(), exs);
                let slot = WordSlot { kanji: self.0.clone(), kana: self.1.clone(), word: w };
                words.entries.push(slot);
                proof {
                    assert(forall|j: int|
                        0 <= j < old_entries.len() ==> words.entries@[j] == old_entries[j]);
                    assert(words.entries@[old_entries.len() as int] == slot);
                    assert(w.glossary@ =~= seq![gg]);
                    assert forall|y: (Seq<char>, Seq<char>)|
                        crate::entry::contains_ex(w.examples@, y) <==> exsv.contains(y) by {
                        lemma_ex_member_bridge(exs@, exsv, y);
                    };
                    assert(words.entries@[old_entries.len() as int].word == w);
                    lemma_conclude_insert(
                        old_entries,
                        words.entries@,
                        self.0@,
                        self.1@,
                        self.6 as int,
                        gg,
                        true,
                        spec_tag_set(self.7@),
                        exs@,
                        spec_glossary_examples(self.5),
                        dispv,
                    );
                    assert(jm_word_effect(
                        *self,
                        old_entries,
                        words.entries@,
                        crate::furigana::table_views(kanji_readings@),
                        gg,
                        dispv,
                    ));
                }
                Ok(())
            },
        }
    }
}

} // verus!
