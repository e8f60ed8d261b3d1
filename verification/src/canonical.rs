//! The conflict resolver: entries that collapse onto the same kanji-only
//! spelling are reduced to one, chosen by five criteria tried in strict
//! order, the earlier-seen entry winning every tie.

use vstd::prelude::*;
use crate::entry::Word;
use crate::strset::contains_str;
use crate::japanese::spec_strip_furigana;
use crate::numeric::{is_digit, digits_run, digits_value};
use crate::text::str_eq;

verus! {

/// Whether the word carries the tag, among its frequency tags or the tags
/// of any of its senses.
pub open spec fn has_tag(w: Word, t: Seq<char>) -> bool {
    contains_str(w.frequency@, t) || exists|i: int|
        0 <= i < w.glossary@.len() && contains_str((#[trigger] w.glossary@[i]).tags@, t)
}

/// The word's classification level: the smallest level number among its
/// level tags, or nothing.
pub open spec fn spec_level(w: Word) -> Option<int> {
    if has_tag(w, "JLPT-N1"@) {
        Some(1int)
    } else if has_tag(w, "JLPT-N2"@) {
        Some(2int)
    } else if has_tag(w, "JLPT-N3"@) {
        Some(3int)
    } else if has_tag(w, "JLPT-N4"@) {
        Some(4int)
    } else if has_tag(w, "JLPT-N5"@) {
        Some(5int)
    } else {
        None
    }
}

/// The frequency rank a tag names: the digits between `news` and `k`, when
/// they fit in one byte.
pub open spec fn spec_news_val(t: Seq<char>) -> Option<int> {
    if t.len() >= 6 && t.take(4) == "news"@ && t.last() == 'k' && digits_run(t, 4) == t.len() - 5
        && digits_value(t.subrange(4, t.len() - 1)) <= 255 {
        Some(digits_value(t.subrange(4, t.len() - 1)))
    } else {
        None
    }
}

/// The smaller of two optional ranks, absence losing.
pub open spec fn opt_min(a: Option<int>, b: Option<int>) -> Option<int> {
    match (a, b) {
        (Some(x), Some(y)) => if x <= y {
            Some(x)
        } else {
            Some(y)
        },
        (Some(x), None) => Some(x),
        (None, Some(y)) => Some(y),
        (None, None) => None,
    }
}

/// Whether `r` is the word's best news rank: the smallest rank any of its
/// tags names, or nothing when no tag names one.
pub open spec fn is_news_rank(w: Word, r: Option<int>) -> bool {
    match r {
        Some(m) => (exists|t: Seq<char>|
            #[trigger] has_tag(w, t) && spec_news_val(t) == Some(m)) && (forall|t: Seq<char>|
            #[trigger] has_tag(w, t) && spec_news_val(t) is Some ==> spec_news_val(t)->0 >= m),
        None => forall|t: Seq<char>| #[trigger] has_tag(w, t) ==> spec_news_val(t) is None,
    }
}

/// The smallest ordering value among the word's senses, or nothing.
pub open spec fn min_order_to(gs: Seq<crate::entry::Glossary>, i: int) -> Option<int>
    decreases i,
{
    if i <= 0 {
        None
    } else {
        opt_min(min_order_to(gs, i - 1), Some(gs[i - 1].order as int))
    }
}

/// Whether `a` is strictly better than `b` for a rank where smaller is
/// better and absence is worst.
pub open spec fn rank_better(a: Option<int>, b: Option<int>) -> bool {
    match (a, b) {
        (Some(x), Some(y)) => x < y,
        (Some(x), None) => true,
        (None, _) => false,
    }
}

/// The five comparison keys of a word: its classification level, its best
/// news rank over all its tags, its example and sense counts, and its
/// smallest sense ordering value.
pub struct CanonKeys {
    pub level: Option<int>,
    pub news: Option<int>,
    pub examples: int,
    pub senses: int,
    pub min_order: Option<int>,
}

/// The word's best news rank, as the unique value the relation admits.
pub open spec fn spec_news_rank(w: Word) -> Option<int> {
    choose|r: Option<int>| is_news_rank(w, r)
}

pub open spec fn spec_keys(w: Word) -> CanonKeys {
    CanonKeys {
        level: spec_level(w),
        news: spec_news_rank(w),
        examples: w.examples@.len() as int,
        senses: w.glossary@.len() as int,
        min_order: min_order_to(w.glossary@, w.glossary@.len() as int),
    }
}

/// Whether a later entry displaces an earlier one for the same kanji-only
/// spelling: the first of the five criteria on which they differ decides,
/// smaller level number, smaller news rank, more examples, more senses, and
/// smaller minimum ordering value winning in that order.  Entries equal on
/// all five criteria keep the earlier one.
pub open spec fn spec_beats(chal: CanonKeys, inc: CanonKeys) -> bool {
    if chal.level != inc.level {
        rank_better(chal.level, inc.level)
    } else if chal.news != inc.news {
        rank_better(chal.news, inc.news)
    } else if chal.examples != inc.examples {
        chal.examples > inc.examples
    } else if chal.senses != inc.senses {
        chal.senses > inc.senses
    } else if chal.min_order != inc.min_order {
        rank_better(chal.min_order, inc.min_order)
    } else {
        false
    }
}

/// The index of the entry with the given kanji-only key, if any.
pub open spec fn spec_find_key(acc: Seq<(Seq<char>, Word)>, key: Seq<char>) -> Option<int>
    decreases acc.len(),
{
    if acc.len() == 0 {
        None
    } else if acc[0].0 == key {
        Some(0)
    } else {
        match spec_find_key(acc.drop_first(), key) {
            Some(i) => Some(i + 1),
            None => None,
        }
    }
}

/// One step of the reduction: the entry joins the accumulator under its
/// kanji-only key, displacing the present holder only when it beats it.
pub open spec fn spec_canon_step(acc: Seq<(Seq<char>, Word)>, w: Word) -> Seq<(Seq<char>, Word)> {
    let key = spec_strip_furigana(w.furigana@, true);
    match spec_find_key(acc, key) {
        Some(i) => if spec_beats(spec_keys(w), spec_keys(acc[i].1)) {
            acc.update(i, (key, w))
        } else {
            acc
        },
        None => acc.push((key, w)),
    }
}

/// The whole reduction: entries join in order.
pub open spec fn spec_canon_fold(ws: Seq<Word>, i: int, acc: Seq<(Seq<char>, Word)>) -> Seq<
    (Seq<char>, Word),
>
    decreases ws.len() - i,
{
    if i < 0 || i >= ws.len() {
        acc
    } else {
        spec_canon_fold(ws, i + 1, spec_canon_step(acc, ws[i]))
    }
}

fn is_news_tag(t: &str) -> (r: Option<u8>)
    ensures
        r is Some <==> spec_news_val(t@) is Some,
        r is Some ==> r->0 as int == spec_news_val(t@)->0,
{
    let v = crate::text::str_to_chars(t);
    let n: usize = v.len();
    if n < 6 {
        return None;
    }
    if !(v[0] == 'n' && v[1] == 'e' && v[2] == 'w' && v[3] == 's' && v[n - 1] == 'k') {
        proof {
            reveal_strlit("news");
            if t@.take(4) == "news"@ && t@.last() == 'k' {
                assert(t@.take(4)[0] == 'n' && t@.take(4)[1] == 'e' && t@.take(4)[2] == 'w'
                    && t@.take(4)[3] == 's');
                assert(false);
            }
        }
        return None;
    }
    proof {
        reveal_strlit("news");
        assert(t@.take(4) =~= "news"@);
    }
    let mut acc: u32 = 0;
    let mut i: usize = 4;
    while i < n - 1
        invariant
            4 <= i <= n - 1,
            n == t@.len(),
            n >= 6,
            v@ == t@,
            forall|q: int| 4 <= q < i ==> is_digit(#[trigger] t@[q]),
            acc <= 255,
            acc as int == digits_value(t@.subrange(4, i as int)),
        decreases n - i,
    {
        let c = v[i];
        if !('0' <= c && c <= '9') {
            proof {
                crate::japanese::lemma_body_run_bounds(t@, 0);
                if digits_run(t@, 4) == t@.len() - 5 {
                    lemma_digits_all_here(t@, 4, t@.len() - 1);
                    assert(is_digit(t@[i as int]));
                }
            }
            return None;
        }
        let d: u32 = c as u32 - 48;
        let next: u32 = acc * 10 + d;
        proof {
            assert(t@.subrange(4, i as int + 1).drop_last() =~= t@.subrange(4, i as int));
            assert(t@.subrange(4, i as int + 1).last() == t@[i as int]);
        }
        if next > 255 {
            proof {
                if digits_run(t@, 4) == t@.len() - 5 {
                    lemma_digits_all_here(t@, 4, t@.len() - 1);
                    lemma_value_monotone_here(t@, 4, t@.len() - 1, i as int + 1);
                }
            }
            return None;
        }
        acc = next;
        i = i + 1;
    }
    if i == 4 {
        proof {
            assert(digits_run(t@, 4) != t@.len() - 5) by {
                if digits_run(t@, 4) == t@.len() - 5 {
                    assert(t@.len() - 5 >= 1);
                    lemma_digits_all_here(t@, 4, t@.len() - 1);
                    assert(is_digit(t@[4]));
                    assert(n - 1 > 4);
                    assert(false);
                }
            };
        }
        return None;
    }
    proof {
        lemma_all_digits_run_here(t@, 4, t@.len() - 1);
        assert(t@.subrange(4, t@.len() - 1) =~= t@.subrange(4, i as int));
    }
    Some(acc as u8)
}

/// Every position of a full digits run holds a digit.
proof fn lemma_digits_all_here(s: Seq<char>, a: int, b: int)
    requires
        0 <= a <= b <= s.len(),
        digits_run(s, a) == b - a,
        b < s.len() ==> !is_digit(s[b]) || digits_run(s, a) >= b - a,
    ensures
        forall|q: int| a <= q < b ==> is_digit(#[trigger] s[q]),
    decreases b - a,
{
    if a < b {
        assert(is_digit(s[a]));
        lemma_digits_all_here(s, a + 1, b);
    }
}

/// A run of digits has at least the length of any all-digit prefix.
proof fn lemma_all_digits_run_here(s: Seq<char>, a: int, b: int)
    requires
        0 <= a <= b <= s.len(),
        forall|q: int| a <= q < b ==> is_digit(#[trigger] s[q]),
        b == s.len() || !is_digit(s[b]),
    ensures
        digits_run(s, a) == b - a,
    decreases b - a,
{
    if a < b {
        lemma_all_digits_run_here(s, a + 1, b);
    }
}

/// The value of a digit span only grows as it extends.
proof fn lemma_value_monotone_here(s: Seq<char>, a: int, b: int, m: int)
    requires
        0 <= a <= m <= b <= s.len(),
        forall|q: int| a <= q < b ==> is_digit(#[trigger] s[q]),
    ensures
        digits_value(s.subrange(a, b)) >= digits_value(s.subrange(a, m)),
    decreases b - m,
{
    if m < b {
        lemma_value_monotone_here(s, a, b, m + 1);
        assert(s.subrange(a, m + 1).drop_last() =~= s.subrange(a, m));
        assert(s.subrange(a, m + 1).last() == s[m]);
        assert(forall|q: int|
            0 <= q < m - a ==> s.subrange(a, m)[q] == s[a + q]);
        lemma_value_nonneg_here(s.subrange(a, m));
        assert(digits_value(s.subrange(a, m + 1)) == digits_value(s.subrange(a, m)) * 10
            + crate::numeric::digit_of(s[m]));
    }
}

proof fn lemma_value_nonneg_here(s: Seq<char>)
    requires
        forall|q: int| 0 <= q < s.len() ==> is_digit(#[trigger] s[q]),
    ensures
        digits_value(s) >= 0,
    decreases s.len(),
{
    if s.len() > 0 {
        assert(forall|q: int| 0 <= q < s.len() - 1 ==> s.drop_last()[q] == s[q]);
        lemma_value_nonneg_here(s.drop_last());
    }
}

/// A tag is in the senses' tag-set union exactly when some sense holds it.
proof fn lemma_gtags_set(gs: Seq<crate::entry::Glossary>, i: int, y: Seq<char>)
    requires
        0 <= i <= gs.len(),
    ensures
        crate::entry::glossary_tags_to(gs, i).contains(y) <==> exists|j: int|
            0 <= j < i && contains_str((#[trigger] gs[j]).tags@, y),
    decreases i,
{
    if i > 0 {
        lemma_gtags_set(gs, i - 1, y);
        crate::strset::lemma_contains_set(gs[i - 1].tags@, y);
        if crate::entry::glossary_tags_to(gs, i).contains(y) {
            if contains_str(gs[i - 1].tags@, y) {
                assert(exists|j: int| 0 <= j < i && contains_str((#[trigger] gs[j]).tags@, y));
            }
        }
        if exists|j: int| 0 <= j < i && contains_str((#[trigger] gs[j]).tags@, y) {
            let j = choose|j: int| 0 <= j < i && contains_str((#[trigger] gs[j]).tags@, y);
            if j < i - 1 {
                assert(crate::entry::glossary_tags_to(gs, i - 1).contains(y));
            } else {
                assert(crate::furigana::strs_views(gs[i - 1].tags@).to_set().contains(y));
            }
        }
    }
}

/// The collected tag list of a word holds a string exactly when the word
/// carries it as a tag.
proof fn lemma_tags_bridge(w: Word, tags: Seq<String>)
    requires
        crate::furigana::strs_views(tags).to_set() == crate::furigana::strs_views(
            w.frequency@,
        ).to_set() + crate::entry::glossary_tags_to(w.glossary@, w.glossary@.len() as int),
    ensures
        forall|y: Seq<char>| #[trigger] contains_str(tags, y) <==> has_tag(w, y),
{
    assert forall|y: Seq<char>| #[trigger] contains_str(tags, y) <==> has_tag(w, y) by {
        crate::strset::lemma_contains_set(tags, y);
        crate::strset::lemma_contains_set(w.frequency@, y);
        lemma_gtags_set(w.glossary@, w.glossary@.len() as int, y);
    };
}

/// The word's classification level: the smallest level number among its
/// level tags, or nothing.
pub fn get_jlpt_level(note: &Word) -> (r: Option<u8>)
    ensures
        r is Some <==> spec_level(*note) is Some,
        r is Some ==> Some(r->0 as int) == spec_level(*note),
{
    let tags = note.get_all_tags();
    proof {
        lemma_tags_bridge(*note, tags@);
    }
    if crate::strset::has_str(&tags, "JLPT-N1") {
        Some(1)
    } else if crate::strset::has_str(&tags, "JLPT-N2") {
        Some(2)
    } else if crate::strset::has_str(&tags, "JLPT-N3") {
        Some(3)
    } else if crate::strset::has_str(&tags, "JLPT-N4") {
        Some(4)
    } else if crate::strset::has_str(&tags, "JLPT-N5") {
        Some(5)
    } else {
        None
    }
}

/// Only one value can be the word's best news rank.
proof fn lemma_news_rank_unique(w: Word, r1: Option<int>, r2: Option<int>)
    requires
        is_news_rank(w, r1),
        is_news_rank(w, r2),
    ensures
        r1 == r2,
{
    match (r1, r2) {
        (Some(m1), Some(m2)) => {
            let t1 = choose|t: Seq<char>|
                #[trigger] has_tag(w, t) && spec_news_val(t) == Some(m1);
            let t2 = choose|t: Seq<char>|
                #[trigger] has_tag(w, t) && spec_news_val(t) == Some(m2);
            assert(m1 >= m2);
            assert(m2 >= m1);
        },
        (Some(m1), None) => {
            let t1 = choose|t: Seq<char>|
                #[trigger] has_tag(w, t) && spec_news_val(t) == Some(m1);
            assert(false);
        },
        (None, Some(m2)) => {
            let t2 = choose|t: Seq<char>|
                #[trigger] has_tag(w, t) && spec_news_val(t) == Some(m2);
            assert(false);
        },
        (None, None) => {},
    }
}

/// The word's best news frequency rank: the smallest value among its tags
/// of the shape `news<digits>k`, or nothing.
pub fn get_newsnk(note: &Word) -> (r: Option<u8>)
    ensures
        r is None ==> spec_news_rank(*note) is None,
        r is Some ==> spec_news_rank(*note) == Some(r->0 as int),
{
    let tags = note.get_all_tags();
    proof {
        lemma_tags_bridge(*note, tags@);
    }
    let mut best: Option<u8> = None;
    let mut i: usize = 0;
    while i < tags.len()
        invariant
            i <= tags@.len(),
            forall|y: Seq<char>| #[trigger] contains_str(tags@, y) <==> has_tag(*note, y),
            best is None ==> forall|j: int|
                0 <= j < i ==> spec_news_val((#[trigger] tags@[j])@) is None,
            best is Some ==> exists|j: int|
                0 <= j < i && spec_news_val((#[trigger] tags@[j])@) == Some(best->0 as int),
            best is Some ==> forall|j: int|
                0 <= j < i && spec_news_val((#[trigger] tags@[j])@) is Some ==> spec_news_val(
                    tags@[j]@,
                )->0 >= best->0 as int,
        decreases tags@.len() - i,
    {
        match is_news_tag(tags[i].as_str()) {
            Some(v) => {
                match best {
                    Some(b) => {
                        if v < b {
                            best = Some(v);
                        }
                    },
                    None => {
                        best = Some(v);
                    },
                }
            },
            None => {},
        }
        i = i + 1;
    }
    proof {
        match best {
            Some(b) => {
                assert(is_news_rank(*note, Some(b as int))) by {
                    let j = choose|j: int|
                        0 <= j < tags@.len() && spec_news_val((#[trigger] tags@[j])@) == Some(
                            b as int,
                        );
                    assert(contains_str(tags@, tags@[j]@)) by {
                        assert(tags@[j]@ == tags@[j]@);
                    };
                    assert(has_tag(*note, tags@[j]@));
                    assert forall|t: Seq<char>|
                        #[trigger] has_tag(*note, t) && spec_news_val(t) is Some implies
                        spec_news_val(t)->0 >= b as int by {
                        assert(contains_str(tags@, t));
                        let jj = choose|jj: int|
                            0 <= jj < tags@.len() && (#[trigger] tags@[jj])@ == t;
                    };
                };
                lemma_news_rank_unique(
                    *note,
                    Some(b as int),
                    choose|r0: Option<int>| is_news_rank(*note, r0),
                );
            },
            None => {
                assert(is_news_rank(*note, None::<int>)) by {
                    assert forall|t: Seq<char>| #[trigger] has_tag(*note, t) implies
                        spec_news_val(t) is None by {
                        assert(contains_str(tags@, t));
                        let jj = choose|jj: int|
                            0 <= jj < tags@.len() && (#[trigger] tags@[jj])@ == t;
                    };
                };
                lemma_news_rank_unique(
                    *note,
                    None::<int>,
                    choose|r0: Option<int>| is_news_rank(*note, r0),
                );
            },
        }
    }
    best
}

/// The smallest sense ordering value of the word, or nothing.
pub fn min_glossary_order(w: &Word) -> (r: Option<i32>)
    ensures
        r is None ==> min_order_to(w.glossary@, w.glossary@.len() as int) is None,
        r is Some ==> min_order_to(w.glossary@, w.glossary@.len() as int) == Some(r->0 as int),
{
    let mut best: Option<i32> = None;
    let mut i: usize = 0;
    while i < w.glossary.len()
        invariant
            i <= w.glossary@.len(),
            best is None ==> min_order_to(w.glossary@, i as int) is None,
            best is Some ==> min_order_to(w.glossary@, i as int) == Some(best->0 as int),
        decreases w.glossary@.len() - i,
    {
        let o = w.glossary[i].order;
        match best {
            Some(b) => {
                if o < b {
                    best = Some(o);
                }
            },
            None => {
                best = Some(o);
            },
        }
        i = i + 1;
    }
    best
}

/// Whether the first word displaces the second under the five criteria.
pub fn beats(chal: &Word, inc: &Word) -> (r: bool)
    ensures
        r == spec_beats(spec_keys(*chal), spec_keys(*inc)),
{
    let l1 = get_jlpt_level(chal);
    let l2 = get_jlpt_level(inc);
    let lvl_ne = match (l1, l2) {
        (Some(a), Some(b)) => a != b,
        (None, None) => false,
        _ => true,
    };
    if lvl_ne {
        return match (l1, l2) {
            (Some(a), Some(b)) => a < b,
            (Some(_), None) => true,
            _ => false,
        };
    }
    let n1 = get_newsnk(chal);
    let n2 = get_newsnk(inc);
    let news_ne = match (n1, n2) {
        (Some(a), Some(b)) => a != b,
        (None, None) => false,
        _ => true,
    };
    if news_ne {
        return match (n1, n2) {
            (Some(a), Some(b)) => a < b,
            (Some(_), None) => true,
            _ => false,
        };
    }
    if chal.examples.len() != inc.examples.len() {
        return chal.examples.len() > inc.examples.len();
    }
    if chal.glossary.len() != inc.glossary.len() {
        return chal.glossary.len() > inc.glossary.len();
    }
    let o1 = min_glossary_order(chal);
    let o2 = min_glossary_order(inc);
    let ord_ne = match (o1, o2) {
        (Some(a), Some(b)) => a != b,
        (None, None) => false,
        _ => true,
    };
    if ord_ne {
        return match (o1, o2) {
            (Some(a), Some(b)) => a < b,
            (Some(_), None) => true,
            _ => false,
        };
    }
    false
}

/// The digit-like characters whose presence excludes a word.
pub open spec fn is_excluded_char(c: char) -> bool {
    c == '\u{3007}' || ('\u{FF10}' <= c && c <= '\u{FF19}')
}

/// Whether the word survives the selection: it has at least one sense, its
/// display spelling holds none of the excluded digit characters, and it is
/// either a compound at one of the two highest classification levels or a
/// word at one of the three lowest.
pub open spec fn spec_filter_words(w: Word) -> bool {
    &&& w.glossary@.len() > 0
    &&& !(exists|i: int|
        0 <= i < w.furigana@.len() && is_excluded_char(#[trigger] w.furigana@[i]))
    &&& {
        ||| ((has_tag(w, "JLPT-N2"@) || has_tag(w, "JLPT-N1"@)) && has_tag(w, "comp"@))
        ||| has_tag(w, "JLPT-N5"@)
        ||| has_tag(w, "JLPT-N4"@)
        ||| has_tag(w, "JLPT-N3"@)
    }
}

/// Whether the word survives the selection.
pub fn filter_words(word: &Word) -> (r: bool)
    ensures
        r == spec_filter_words(*word),
{
    if word.glossary.len() == 0 {
        return false;
    }
    let fv = crate::text::str_to_chars(word.furigana.as_str());
    let mut i: usize = 0;
    while i < fv.len()
        invariant
            i <= fv@.len(),
            fv@ == word.furigana@,
            forall|q: int| 0 <= q < i ==> !is_excluded_char(#[trigger] fv@[q]),
        decreases fv@.len() - i,
    {
        let c = fv[i];
        if c == '\u{3007}' || ('\u{FF10}' <= c && c <= '\u{FF19}') {
            return false;
        }
        i = i + 1;
    }
    let tags = word.get_all_tags();
    proof {
        lemma_tags_bridge(*word, tags@);
    }
    if (crate::strset::has_str(&tags, "JLPT-N2") || crate::strset::has_str(&tags, "JLPT-N1"))
        && crate::strset::has_str(&tags, "comp") {
        return true;
    }
    crate::strset::has_str(&tags, "JLPT-N5") || crate::strset::has_str(&tags, "JLPT-N4")
        || crate::strset::has_str(&tags, "JLPT-N3")
}

/// The pairs re-keyed by display spelling, the last entry for a spelling
/// winning.
pub open spec fn spec_rekey(acc: Seq<(Seq<char>, Word)>, i: int, out: Seq<(Seq<char>, Word)>) -> Seq<
    (Seq<char>, Word),
>
    decreases acc.len() - i,
{
    if i < 0 || i >= acc.len() {
        out
    } else {
        let w = acc[i].1;
        let key = w.furigana@;
        let next = match spec_find_key(out, key) {
            Some(j) => out.update(j, (key, w)),
            None => out.push((key, w)),
        };
        spec_rekey(acc, i + 1, next)
    }
}

/// The views of keyed entries.
pub open spec fn kw_views(v: Seq<(String, Word)>) -> Seq<(Seq<char>, Word)> {
    v.map_values(|p: (String, Word)| (p.0@, p.1))
}

/// Finds the entry with the given key.
fn find_key(out: &Vec<(String, Word)>, key: &str) -> (r: Option<usize>)
    ensures
        r is Some <==> spec_find_key(kw_views(out@), key@) is Some,
        r is Some ==> Some(r->0 as int) == spec_find_key(kw_views(out@), key@) && r->0
            < out@.len(),
{
    let ghost ov = kw_views(out@);
    let mut i: usize = 0;
    proof {
        assert(ov.skip(0) =~= ov);
    }
    while i < out.len()
        invariant
            i <= ov.len(),
            ov == kw_views(out@),
            spec_find_key(ov, key@) is Some <==> spec_find_key(ov.skip(i as int), key@)
                is Some,
            spec_find_key(ov, key@) is Some ==> spec_find_key(ov, key@)->0 == spec_find_key(
                ov.skip(i as int),
                key@,
            )->0 + i,
        decreases ov.len() - i,
    {
        let ghost pre = ov.skip(i as int);
        if str_eq(out[i].0.as_str(), key) {
            proof {
                assert(pre[0] == ov[i as int]);
            }
            return Some(i);
        }
        i = i + 1;
        proof {
            assert(pre.drop_first() =~= ov.skip(i as int));
        }
    }
    proof {
        assert(ov.skip(ov.len() as int) =~= Seq::<(Seq<char>, Word)>::empty());
    }
    None
}

/// Reduces the lexicon to one entry per kanji-only spelling: entries are
/// taken in order, each joining the accumulator under its stripped
/// spelling and displacing the present holder only when the five criteria
/// prefer it; the result is re-keyed by display spelling.
pub fn filter_overlapping(words: Vec<(String, Word)>) -> (r: Vec<(String, Word)>)
    ensures
        kw_views(r@) == spec_rekey(
            spec_canon_fold(words@.map_values(|p: (String, Word)| p.1), 0, Seq::empty()),
            0,
            Seq::empty(),
        ),
{
    let ghost ws = words@.map_values(|p: (String, Word)| p.1);
    let mut acc: Vec<(String, Word)> = Vec::new();
    let mut input = words;
    let mut i: usize = 0;
    let n: usize = input.len();
    proof {
        assert(kw_views(acc@) =~= Seq::<(Seq<char>, Word)>::empty());
    }
    while i < n
        invariant
            i <= n,
            n == ws.len(),
            input@.len() == n - i,
            forall|q: int| 0 <= q < input@.len() ==> (#[trigger] input@[q]).1 == ws[q + i],
            spec_canon_fold(ws, 0, Seq::empty()) == spec_canon_fold(
                ws,
                i as int,
                kw_views(acc@),
            ),
        decreases n - i,
    {
        let ghost accv = kw_views(acc@);
        let ghost inprev = input@;
        let pair = input.remove(0);
        let w = pair.1;
        proof {
            assert(inprev[0].1 == ws[i as int]);
            assert(w == ws[i as int]);
            assert(forall|q: int|
                0 <= q < input@.len() ==> (#[trigger] input@[q]) == inprev[q + 1]);
        }
        let keyv = crate::japanese::strip_furigana(
            &crate::text::str_to_chars(w.furigana.as_str()),
            true,
        );
        let key = crate::text::chars_to_string(&keyv);
        proof {
            assert(key@ == spec_strip_furigana(w.furigana@, true));
        }
        match find_key(&acc, key.as_str()) {
            Some(j) => {
                if beats(&w, &acc[j].1) {
                    let ghost accprev = kw_views(acc@);
                    acc.set(j, (key, w));
                    proof {
                        assert(kw_views(acc@) =~= accprev.update(j as int, (key@, w)));
                        assert(kw_views(acc@) =~= spec_canon_step(accv, w));
                    }
                } else {
                    proof {
                        assert(kw_views(acc@) =~= spec_canon_step(accv, w));
                    }
                }
            },
            None => {
                acc.push((key, w));
                proof {
                    assert(kw_views(acc@) =~= accv.push((key@, w)));
                    assert(kw_views(acc@) =~= spec_canon_step(accv, w));
                }
            },
        }
        i = i + 1;
    }
    // re-key the survivors by display spelling
    let ghost folded = spec_canon_fold(ws, 0, Seq::empty());
    proof {
        assert(folded == kw_views(acc@));
    }
    let mut out: Vec<(String, Word)> = Vec::new();
    let mut rest = acc;
    let mut k: usize = 0;
    let m: usize = rest.len();
    proof {
        assert(kw_views(out@) =~= Seq::<(Seq<char>, Word)>::empty());
    }
    while k < m
        invariant
            k <= m,
            m == folded.len(),
            rest@.len() == m - k,
            forall|q: int|
                0 <= q < rest@.len() ==> kw_views(rest@)[q] == folded[q + k],
            spec_rekey(folded, 0, Seq::empty()) == spec_rekey(
                folded,
                k as int,
                kw_views(out@),
            ),
        decreases m - k,
    {
        let ghost outv = kw_views(out@);
        let ghost restprev = rest@;
        let pair = rest.remove(0);
        let w = pair.1;
        proof {
            assert(kw_views(restprev)[0] == folded[k as int]);
            assert(w == folded[k as int].1);
            assert(forall|q: int|
                0 <= q < rest@.len() ==> kw_views(rest@)[q] == kw_views(restprev)[q + 1]);
        }
        let key = w.furigana.clone();
        match find_key(&out, key.as_str()) {
            Some(j) => {
                let ghost outprev = kw_views(out@);
                out.set(j, (key, w));
                proof {
                    assert(kw_views(out@) =~= outprev.update(j as int, (key@, w)));
                }
            },
            None => {
                out.push((key, w));
                proof {
                    assert(kw_views(out@) =~= outv.push((key@, w)));
                }
            },
        }
        k = k + 1;
    }
    out
}

/// Of two entries that collapse onto one kanji-only spelling, the one at
/// the better classification level survives whichever arrives first,
/// whatever their example counts or any later criterion say.
pub proof fn lemma_level_dominates(a: Word, b: Word)
    requires
        spec_strip_furigana(a.furigana@, true) == spec_strip_furigana(b.furigana@, true),
        rank_better(spec_level(a), spec_level(b)),
    ensures
        spec_canon_fold(seq![a, b], 0, Seq::empty()) == seq![
            (spec_strip_furigana(a.furigana@, true), a),
        ],
        spec_canon_fold(seq![b, a], 0, Seq::empty()) == seq![
            (spec_strip_furigana(a.furigana@, true), a),
        ],
{
    let key = spec_strip_furigana(a.furigana@, true);
    let e: Seq<(Seq<char>, Word)> = Seq::empty();
    // first order: a then b
    let s1 = seq![a, b];
    let acc1 = spec_canon_step(e, a);
    assert(spec_find_key(e, key) is None);
    assert(acc1 =~= seq![(key, a)]);
    let acc2 = spec_canon_step(acc1, b);
    assert(spec_find_key(acc1, key) == Some(0int)) by {
        assert(acc1[0].0 == key);
    };
    assert(!spec_beats(spec_keys(b), spec_keys(a)));
    assert(acc2 =~= seq![(key, a)]);
    assert(spec_canon_fold(s1, 0, e) == spec_canon_fold(s1, 1, acc1));
    assert(spec_canon_fold(s1, 1, acc1) == spec_canon_fold(s1, 2, acc2));
    assert(spec_canon_fold(s1, 2, acc2) == acc2);
    // second order: b then a
    let s2 = seq![b, a];
    let acc1b = spec_canon_step(e, b);
    assert(acc1b =~= seq![(key, b)]);
    let acc2b = spec_canon_step(acc1b, a);
    assert(spec_find_key(acc1b, key) == Some(0int)) by {
        assert(acc1b[0].0 == key);
    };
    assert(spec_beats(spec_keys(a), spec_keys(b)));
    assert(acc2b =~= acc1b.update(0, (key, a)));
    assert(acc2b =~= seq![(key, a)]);
    assert(spec_canon_fold(s2, 0, e) == spec_canon_fold(s2, 1, acc1b));
    assert(spec_canon_fold(s2, 1, acc1b) == spec_canon_fold(s2, 2, acc2b));
    assert(spec_canon_fold(s2, 2, acc2b) == acc2b);
}

/// Two entries equal on all five criteria keep whichever arrived first:
/// the reduction is order-dependent beyond its criteria.
pub proof fn lemma_tie_keeps_first(a: Word, b: Word)
    requires
        spec_strip_furigana(a.furigana@, true) == spec_strip_furigana(b.furigana@, true),
        spec_keys(a) == spec_keys(b),
    ensures
        spec_canon_fold(seq![a, b], 0, Seq::empty()) == seq![
            (spec_strip_furigana(a.furigana@, true), a),
        ],
        spec_canon_fold(seq![b, a], 0, Seq::empty()) == seq![
            (spec_strip_furigana(a.furigana@, true), b),
        ],
{
    let key = spec_strip_furigana(a.furigana@, true);
    let e: Seq<(Seq<char>, Word)> = Seq::empty();
    let s1 = seq![a, b];
    let acc1 = spec_canon_step(e, a);
    assert(acc1 =~= seq![(key, a)]);
    let acc2 = spec_canon_step(acc1, b);
    assert(spec_find_key(acc1, key) == Some(0int)) by {
        assert(acc1[0].0 == key);
    };
    assert(!spec_beats(spec_keys(b), spec_keys(a)));
    assert(acc2 =~= seq![(key, a)]);
    assert(spec_canon_fold(s1, 0, e) == spec_canon_fold(s1, 1, acc1));
    assert(spec_canon_fold(s1, 1, acc1) == spec_canon_fold(s1, 2, acc2));
    assert(spec_canon_fold(s1, 2, acc2) == acc2);
    let s2 = seq![b, a];
    let acc1b = spec_canon_step(e, b);
    assert(acc1b =~= seq![(key, b)]);
    let acc2b = spec_canon_step(acc1b, a);
    assert(spec_find_key(acc1b, key) == Some(0int)) by {
        assert(acc1b[0].0 == key);
    };
    assert(!spec_beats(spec_keys(a), spec_keys(b)));
    assert(acc2b =~= seq![(key, b)]);
    assert(spec_canon_fold(s2, 0, e) == spec_canon_fold(s2, 1, acc1b));
    assert(spec_canon_fold(s2, 1, acc1b) == spec_canon_fold(s2, 2, acc2b));
    assert(spec_canon_fold(s2, 2, acc2b) == acc2b);
}

} // verus!
