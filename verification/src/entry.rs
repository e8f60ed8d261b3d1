//! The lexicon's record types: one entry per word, one per kanji character.

use vstd::prelude::*;
use crate::strset::{contains_str, distinct_strs, insert_unique, extend_unique, lemma_contains_set};
use crate::furigana::strs_views;
use crate::japanese::{spec_split_kanji_reading, split_kanji_reading, spec_to_hiragana, JapaneseStr};
use crate::text::str_eq;

verus! {

/// One example sentence pair.
#[derive(Clone, Debug, PartialEq, Eq, Hash)]
pub struct Example {
    /// The sentence in the source language.
    pub japanese: String,
    /// Its translation.
    pub english: String,
}

/// The mathematical value of an example: its two texts.
pub open spec fn ex_view(e: Example) -> (Seq<char>, Seq<char>) {
    (e.japanese@, e.english@)
}

pub open spec fn ex_views(v: Seq<Example>) -> Seq<(Seq<char>, Seq<char>)> {
    v.map_values(|e: Example| ex_view(e))
}

/// Whether some element of `v` is the pair `x`.
pub open spec fn contains_ex(v: Seq<Example>, x: (Seq<char>, Seq<char>)) -> bool {
    exists|i: int| 0 <= i < v.len() && ex_view(#[trigger] v[i]) == x
}

/// No example pair is stored twice.
pub open spec fn distinct_exs(v: Seq<Example>) -> bool {
    forall|i: int, j: int|
        0 <= i < j < v.len() ==> ex_view(#[trigger] v[i]) != ex_view(#[trigger] v[j])
}

impl Example {
    /// Creates a new example pair.
    pub fn new(japanese: String, english: String) -> (r: Self)
        ensures
            r.japanese == japanese,
            r.english == english,
    {
        Self { japanese, english }
    }
}

/// Whether `v` holds the same pair of texts as `x`.
fn has_ex(v: &Vec<Example>, x: &Example) -> (r: bool)
    ensures
        r == contains_ex(v@, ex_view(*x)),
{
    let mut i: usize = 0;
    while i < v.len()
        invariant
            i <= v@.len(),
            forall|j: int| 0 <= j < i ==> ex_view(#[trigger] v@[j]) != ex_view(*x),
        decreases v@.len() - i,
    {
        if str_eq(v[i].japanese.as_str(), x.japanese.as_str()) && str_eq(
            v[i].english.as_str(),
            x.english.as_str(),
        ) {
            return true;
        }
        i = i + 1;
    }
    false
}

/// Adds an example unless an equal pair is already present.
pub fn insert_example(v: &mut Vec<Example>, x: Example)
    ensures
        contains_ex(old(v)@, ex_view(x)) ==> final(v)@ == old(v)@,
        !contains_ex(old(v)@, ex_view(x)) ==> final(v)@ == old(v)@.push(x),
        distinct_exs(old(v)@) ==> distinct_exs(final(v)@),
        ex_views(final(v)@).to_set() == ex_views(old(v)@).to_set().insert(ex_view(x)),
        forall|y: (Seq<char>, Seq<char>)|
            #[trigger] contains_ex(final(v)@, y) <==> (contains_ex(old(v)@, y) || y == ex_view(
                x,
            )),
{
    let ghost v0 = v@;
    let present = has_ex(v, &x);
    if !present {
        v.push(x);
    }
    proof {
        let xv = ex_view(x);
        if !present {
            assert(forall|j: int| 0 <= j < v0.len() ==> v@[j] == v0[j]);
            if distinct_exs(v0) {
                assert(distinct_exs(v@)) by {
                    assert(forall|j: int| 0 <= j < v0.len() ==> ex_view(#[trigger] v@[j]) != xv);
                    assert(ex_view(v@[v0.len() as int]) == xv);
                };
            }
        }
        assert forall|y: (Seq<char>, Seq<char>)|
            contains_ex(v@, y) <==> (contains_ex(v0, y) || y == xv) by {
            if contains_ex(v@, y) {
                let i = choose|i: int| 0 <= i < v@.len() && ex_view(#[trigger] v@[i]) == y;
                if i < v0.len() {
                    assert(ex_view(v0[i]) == y);
                }
            }
            if contains_ex(v0, y) {
                let i = choose|i: int| 0 <= i < v0.len() && ex_view(#[trigger] v0[i]) == y;
                assert(ex_view(v@[i]) == y);
            }
            if y == xv && !present {
                assert(ex_view(v@[v0.len() as int]) == y);
            }
        };
        assert(ex_views(v@).to_set() =~= ex_views(v0).to_set().insert(xv)) by {
            assert forall|y: (Seq<char>, Seq<char>)| #[trigger] ex_views(v@).to_set().contains(y)
                <==> (ex_views(v0).to_set().contains(y) || y == xv) by {
                if ex_views(v@).to_set().contains(y) {
                    let i = choose|i: int|
                        0 <= i < ex_views(v@).len() && ex_views(v@)[i] == y;
                    if i < v0.len() {
                        assert(ex_views(v0)[i] == y);
                    } else {
                        assert(ex_view(v@[i]) == y);
                    }
                }
                if ex_views(v0).to_set().contains(y) {
                    let i = choose|i: int|
                        0 <= i < ex_views(v0).len() && ex_views(v0)[i] == y;
                    assert(ex_views(v@)[i] == y);
                }
                if y == xv {
                    if present {
                        let i = choose|i: int|
                            0 <= i < v0.len() && ex_view(#[trigger] v0[i]) == y;
                        assert(ex_views(v@)[i] == y);
                    } else {
                        assert(ex_views(v@)[v0.len() as int] == y);
                    }
                }
            };
        };
    }
}

/// An example pair is an element exactly when the pair set holds it.
pub proof fn lemma_contains_ex_set(v: Seq<Example>, y: (Seq<char>, Seq<char>))
    ensures
        contains_ex(v, y) <==> ex_views(v).to_set().contains(y),
{
    if contains_ex(v, y) {
        let i = choose|i: int| 0 <= i < v.len() && ex_view(#[trigger] v[i]) == y;
        assert(ex_views(v)[i] == y);
    }
    if ex_views(v).to_set().contains(y) {
        let i = choose|i: int| 0 <= i < ex_views(v).len() && ex_views(v)[i] == y;
        assert(ex_view(v[i]) == y);
    }
}

/// Adds every example of `other` that is not yet present, in order.
pub fn extend_examples(v: &mut Vec<Example>, other: &Vec<Example>)
    ensures
        distinct_exs(old(v)@) ==> distinct_exs(final(v)@),
        ex_views(final(v)@).to_set() == ex_views(old(v)@).to_set() + ex_views(other@).to_set(),
        forall|y: (Seq<char>, Seq<char>)|
            #[trigger] contains_ex(final(v)@, y) <==> (contains_ex(old(v)@, y) || contains_ex(
                other@,
                y,
            )),
{
    let ghost v0 = v@;
    let mut i: usize = 0;
    proof {
        assert(ex_views(v@).to_set() =~= ex_views(v0).to_set() + ex_views(
            other@.subrange(0, 0),
        ).to_set());
    }
    while i < other.len()
        invariant
            i <= other@.len(),
            distinct_exs(v0) ==> distinct_exs(v@),
            ex_views(v@).to_set() == ex_views(v0).to_set() + ex_views(
                other@.subrange(0, i as int),
            ).to_set(),
        decreases other@.len() - i,
    {
        let e = Example::new(other[i].japanese.clone(), other[i].english.clone());
        assert(ex_view(e) == ex_view(other@[i as int]));
        insert_example(v, e);
        i = i + 1;
        proof {
            let pre = other@.subrange(0, i as int - 1);
            let cur = other@.subrange(0, i as int);
            assert(ex_views(cur).to_set() =~= ex_views(pre).to_set().insert(
                ex_view(other@[i as int - 1]),
            )) by {
                assert forall|y: (Seq<char>, Seq<char>)| #[trigger] ex_views(
                    cur,
                ).to_set().contains(y) <==> (ex_views(pre).to_set().contains(y) || y == ex_view(
                    other@[i as int - 1],
                )) by {
                    if ex_views(cur).to_set().contains(y) {
                        let j = choose|j: int|
                            0 <= j < ex_views(cur).len() && ex_views(cur)[j] == y;
                        if j < pre.len() {
                            assert(ex_views(pre)[j] == y);
                        } else {
                            assert(ex_view(cur[j]) == y);
                        }
                    }
                    if ex_views(pre).to_set().contains(y) {
                        let j = choose|j: int|
                            0 <= j < ex_views(pre).len() && ex_views(pre)[j] == y;
                        assert(ex_views(cur)[j] == y);
                    }
                    if y == ex_view(other@[i as int - 1]) {
                        assert(ex_views(cur)[i as int - 1] == y);
                    }
                };
            };
            assert(ex_views(v@).to_set() =~= ex_views(v0).to_set() + ex_views(cur).to_set());
        }
    }
    proof {
        assert(other@.subrange(0, other@.len() as int) =~= other@);
        assert forall|y: (Seq<char>, Seq<char>)|
            contains_ex(v@, y) <==> (contains_ex(v0, y) || contains_ex(other@, y)) by {
            lemma_contains_ex_set(v@, y);
            lemma_contains_ex_set(v0, y);
            lemma_contains_ex_set(other@, y);
        };
    }
}

/// One sense block of a word: a priority integer, its tags, and its meanings.
#[derive(Clone, Debug, PartialEq, Eq)]
pub struct Glossary {
    /// Relative ordering value of the sense; senses are sorted by it.
    pub order: i32,
    /// Tags of this sense, stored without duplicates.
    pub tags: Vec<String>,
    /// The meaning strings, in order.
    pub meaning: Vec<String>,
}

impl Glossary {
    /// Creates a new sense block.
    pub fn new(order: i32, tags: Vec<String>, meaning: Vec<String>) -> (r: Self)
        ensures
            r.order == order,
            r.tags == tags,
            r.meaning == meaning,
    {
        Self { order, tags, meaning }
    }
}

/// The tags of the senses `0..i`, as one set of character strings.
pub open spec fn glossary_tags_to(gs: Seq<Glossary>, i: int) -> Set<Seq<char>>
    decreases i,
{
    if i <= 0 {
        Set::<Seq<char>>::empty()
    } else {
        glossary_tags_to(gs, i - 1) + strs_views(gs[i - 1].tags@).to_set()
    }
}

/// One lexicon entry.
#[derive(Clone, Debug, PartialEq, Eq)]
pub struct Word {
    /// Numeric identifier from the source dictionary.
    pub word_id: i32,
    /// The display spelling, with bracketed reading annotations.
    pub furigana: String,
    /// The sense blocks.
    pub glossary: Vec<Glossary>,
    /// Frequency and classification tags, stored without duplicates.
    pub frequency: Vec<String>,
    /// Example sentences, stored without duplicates.
    pub examples: Vec<Example>,
}

impl Word {
    /// Creates a new lexicon entry.
    pub fn new(
        word_id: i32,
        furigana: String,
        glossary: Vec<Glossary>,
        frequency: Vec<String>,
        examples: Vec<Example>,
    ) -> (r: Self)
        ensures
            r.word_id == word_id,
            r.furigana == furigana,
            r.glossary == glossary,
            r.frequency == frequency,
            r.examples == examples,
    {
        Self { word_id, furigana, glossary, frequency, examples }
    }

    /// Collects every tag of the entry: its frequency tags and the tags of
    /// each sense, without duplicates.
    pub fn get_all_tags(&self) -> (r: Vec<String>)
        ensures
            distinct_strs(r@),
            strs_views(r@).to_set() == strs_views(self.frequency@).to_set() + glossary_tags_to(
                self.glossary@,
                self.glossary@.len() as int,
            ),
    {
        let mut out: Vec<String> = Vec::new();
        extend_unique(&mut out, &self.frequency);
        proof {
            assert(strs_views(out@).to_set() =~= strs_views(self.frequency@).to_set()
                + glossary_tags_to(self.glossary@, 0));
        }
        let mut i: usize = 0;
        while i < self.glossary.len()
            invariant
                i <= self.glossary@.len(),
                distinct_strs(out@),
                strs_views(out@).to_set() == strs_views(self.frequency@).to_set()
                    + glossary_tags_to(self.glossary@, i as int),
            decreases self.glossary@.len() - i,
        {
            extend_unique(&mut out, &self.glossary[i].tags);
            i = i + 1;
            proof {
                assert(strs_views(out@).to_set() =~= strs_views(self.frequency@).to_set()
                    + glossary_tags_to(self.glossary@, i as int));
            }
        }
        out
    }
}

/// One kanji character's record.
#[derive(Clone, Debug, PartialEq, Eq)]
pub struct Kanji {
    /// The character itself.
    pub kanji: char,
    /// Chinese-derived readings, possibly with affix and okurigana marks.
    pub onyomi: Vec<String>,
    /// Native readings, possibly with affix and okurigana marks.
    pub kunyomi: Vec<String>,
    /// English meanings.
    pub meaning: Vec<String>,
    /// Stroke count, when a source provided one.
    pub strokes: Option<u8>,
    /// Classification tags, stored without duplicates.
    pub tags: Vec<String>,
}

/// The plain-kana reading named by one raw reading string: its main part
/// with affix marks and okurigana stripped, folded to hiragana; `None` when
/// the string has no recognized shape.
pub open spec fn reading_of(s: Seq<char>) -> Option<Seq<char>> {
    match spec_split_kanji_reading(s) {
        Some(t) => Some(spec_to_hiragana(t.1)),
        None => None,
    }
}

/// The plain readings named by the raw reading strings `0..i`.
pub open spec fn readings_to(v: Seq<String>, i: int) -> Set<Seq<char>>
    decreases i,
{
    if i <= 0 {
        Set::<Seq<char>>::empty()
    } else {
        match reading_of(v[i - 1]@) {
            Some(y) => readings_to(v, i - 1).insert(y),
            None => readings_to(v, i - 1),
        }
    }
}

impl Kanji {
    /// Creates a new kanji record.
    pub fn new(
        kanji: char,
        onyomi: Vec<String>,
        kunyomi: Vec<String>,
        meaning: Vec<String>,
        strokes: Option<u8>,
        tags: Vec<String>,
    ) -> (r: Self)
        ensures
            r.kanji == kanji,
            r.onyomi == onyomi,
            r.kunyomi == kunyomi,
            r.meaning == meaning,
            r.strokes == strokes,
            r.tags == tags,
    {
        Self { kanji, onyomi, kunyomi, meaning, strokes, tags }
    }

    /// Every plain-kana reading of the character: the main part of each
    /// parseable reading string, folded to hiragana, without duplicates.
    pub fn readings(&self) -> (r: Vec<String>)
        ensures
            distinct_strs(r@),
            strs_views(r@).to_set() == readings_to(self.onyomi@, self.onyomi@.len() as int)
                + readings_to(self.kunyomi@, self.kunyomi@.len() as int),
    {
        let mut out: Vec<String> = Vec::new();
        collect_readings(&mut out, &self.onyomi);
        proof {
            assert(strs_views(out@).to_set() =~= Set::<Seq<char>>::empty() + readings_to(
                self.onyomi@,
                self.onyomi@.len() as int,
            ));
        }
        collect_readings(&mut out, &self.kunyomi);
        out
    }
}

/// Adds the plain reading of each parseable raw reading string.
pub fn collect_readings(out: &mut Vec<String>, src: &Vec<String>)
    ensures
        distinct_strs(old(out)@) ==> distinct_strs(final(out)@),
        strs_views(final(out)@).to_set() == strs_views(old(out)@).to_set() + readings_to(
            src@,
            src@.len() as int,
        ),
{
    let ghost out0 = out@;
    let mut i: usize = 0;
    proof {
        assert(strs_views(out@).to_set() =~= strs_views(out0).to_set() + readings_to(src@, 0));
    }
    while i < src.len()
        invariant
            i <= src@.len(),
            distinct_strs(out0) ==> distinct_strs(out@),
            strs_views(out@).to_set() == strs_views(out0).to_set() + readings_to(
                src@,
                i as int,
            ),
        decreases src@.len() - i,
    {
        let ghost outprev = out@;
        match split_kanji_reading(src[i].as_str()) {
            Some((pre, main, oku, suf)) => {
                let h = main.to_hiragana();
                proof {
                    assert(reading_of(src@[i as int]@) == Some(h@));
                }
                insert_unique(out, h);
                proof {
                    assert(strs_views(out@).to_set() =~= strs_views(out0).to_set()
                        + readings_to(src@, i as int + 1));
                }
            },
            None => {
                proof {
                    assert(reading_of(src@[i as int]@) is None);
                    assert(readings_to(src@, i as int + 1) == readings_to(src@, i as int));
                }
            },
        }
        i = i + 1;
    }
}

} // verus!
