//! The word records of the example-sentence dictionary source.  They share
//! the structured glossary content of the primary source but use a smaller
//! tag normalization table, and an updated entry keeps its senses in
//! arrival order.

use vstd::prelude::*;
use crate::dict::jmnedict_word::{Glossary, spec_glossary_meanings, spec_glossary_examples, pair_views};
use crate::dict::dict_parser::{
    ConvertableJmnedicData,
    WordTable,
    WordSlot,
    KanjiTable,
    merged_into,
    disp_synthesized,
    spec_find_word,
    pairs_to_examples,
    lemma_conclude_update,
    lemma_conclude_insert,
    synthesize_display,
};
use crate::entry::Word;
use crate::numeric::{is_float_text, is_float_text_exec};
use crate::text::{str_eq, spec_split, split_char};
use crate::strset::{distinct_strs, insert_unique};
use crate::furigana::strs_views;

verus! {

/// The normalized spelling of one tag under this source: only the
/// classification level abbreviations are rewritten.
pub open spec fn spec_remap_pair(s: Seq<char>) -> Seq<char> {
    if s == "N5"@ {
        "JLPT-N5"@
    } else if s == "N4"@ {
        "JLPT-N4"@
    } else if s == "N3"@ {
        "JLPT-N3"@
    } else if s == "N2"@ {
        "JLPT-N2"@
    } else if s == "N1"@ {
        "JLPT-N1"@
    } else {
        s
    }
}

/// What `remap_tag` returns: nothing for an empty or numeric tag, else the
/// normalized spelling.
pub open spec fn spec_remap_tag(s: Seq<char>) -> Option<Seq<char>> {
    if s.len() == 0 || is_float_text(s) {
        None
    } else {
        Some(spec_remap_pair(s))
    }
}

/// Normalizes one tag of this source.
pub fn remap_tag(tag: &str) -> (r: Option<String>)
    ensures
        r is Some <==> spec_remap_tag(tag@) is Some,
        r is Some ==> r->0@ == spec_remap_tag(tag@)->0,
{
    if tag.unicode_len() == 0 || is_float_text_exec(tag) {
        return None;
    }
    if str_eq(tag, "N5") {
        Some("JLPT-N5".to_owned())
    } else if str_eq(tag, "N4") {
        Some("JLPT-N4".to_owned())
    } else if str_eq(tag, "N3") {
        Some("JLPT-N3".to_owned())
    } else if str_eq(tag, "N2") {
        Some("JLPT-N2".to_owned())
    } else if str_eq(tag, "N1") {
        Some("JLPT-N1".to_owned())
    } else {
        Some(tag.to_owned())
    }
}

/// The set of normalized tags named by the fields `0..i`.
pub open spec fn remapped_tags_to(parts: Seq<Seq<char>>, i: int) -> Set<Seq<char>>
    decreases i,
{
    if i <= 0 {
        Set::<Seq<char>>::empty()
    } else {
        match spec_remap_tag(parts[i - 1]) {
            Some(t) => remapped_tags_to(parts, i - 1).insert(t),
            None => remapped_tags_to(parts, i - 1),
        }
    }
}

/// The set of tags a space-separated tag string names under this source's
/// normalization.
pub open spec fn spec_tag_set(s: Seq<char>) -> Set<Seq<char>> {
    remapped_tags_to(spec_split(s, ' '), spec_split(s, ' ').len() as int)
}

/// Splits a tag string at spaces, normalizes each field, and collects the
/// results without duplicates.
pub fn collect_tags(s: &str) -> (r: Vec<String>)
    ensures
        distinct_strs(r@),
        strs_views(r@).to_set() == spec_tag_set(s@),
{
    let parts = split_char(s, ' ');
    let ghost pv = spec_split(s@, ' ');
    let mut out: Vec<String> = Vec::new();
    let mut i: usize = 0;
    proof {
        assert(strs_views(out@).to_set() =~= remapped_tags_to(pv, 0));
    }
    while i < parts.len()
        invariant
            i <= parts@.len(),
            parts@.map_values(|t: String| t@) == pv,
            distinct_strs(out@),
            strs_views(out@).to_set() == remapped_tags_to(pv, i as int),
        decreases parts@.len() - i,
    {
        assert(parts@[i as int]@ == pv[i as int]);
        match remap_tag(parts[i].as_str()) {
            Some(t) => {
                proof {
                    assert(t@ == spec_remap_tag(pv[i as int])->0);
                }
                insert_unique(&mut out, t);
            },
            None => {},
        }
        i = i + 1;
        proof {
            assert(strs_views(out@).to_set() =~= remapped_tags_to(pv, i as int));
        }
    }
    out
}

/// One raw word record of this source: spelling, reading, frequency string,
/// tag string, ordering value, glossary, identifier, and a trailing field
/// this pipeline does not read.
pub struct JitendexWord(
    pub String,
    pub String,
    pub String,
    pub String,
    pub i32,
    pub Glossary,
    pub i32,
    pub String,
);

impl JitendexWord {
    /// The spelling of the word.
    pub fn kanji(&self) -> (r: &str)
        ensures
            r@ == self.0@,
    {
        self.0.as_str()
    }

    /// The kana reading of the word.
    pub fn kana(&self) -> (r: &str)
        ensures
            r@ == self.1@,
    {
        self.1.as_str()
    }

    /// The normalized tags of the word, from its space-separated tag string.
    pub fn tags(&self) -> (r: Vec<String>)
        ensures
            distinct_strs(r@),
            strs_views(r@).to_set() == spec_tag_set(self.3@),
    {
        collect_tags(self.3.as_str())
    }

    /// The ordering value of the record.
    pub fn order(&self) -> (r: i32)
        ensures
            r == self.4,
    {
        self.4
    }

    /// The meaning strings of the record's glossary.
    pub fn glossary(&self) -> (r: Vec<String>)
        ensures
            strs_views(r@) == spec_glossary_meanings(self.5),
    {
        self.5.get_glossary()
    }

    /// The example sentence pairs of the record's glossary.
    pub fn example(&self) -> (r: Vec<(String, String)>)
        ensures
            pair_views(r@) == spec_glossary_examples(self.5),
    {
        self.5.get_example()
    }

    /// The numeric identifier of the record.
    pub fn id(&self) -> (r: i32)
        ensures
            r == self.6,
    {
        self.6
    }

    /// The normalized frequency tags, from the space-separated frequency string.
    pub fn frequency(&self) -> (r: Vec<String>)
        ensures
            distinct_strs(r@),
            strs_views(r@).to_set() == spec_tag_set(self.2@),
    {
        collect_tags(self.2.as_str())
    }
}

/// Everything one word record of this source does to the accumulator.
pub open spec fn jx_word_effect(
    w: JitendexWord,
    old_entries: Seq<WordSlot>,
    new_entries: Seq<WordSlot>,
    t: Seq<(char, Seq<Seq<char>>)>,
    g: crate::entry::Glossary,
    disp: Seq<char>,
) -> bool {
    &&& g.order == w.4
    &&& distinct_strs(g.tags@)
    &&& strs_views(g.tags@).to_set() == spec_tag_set(w.3@)
    &&& strs_views(g.meaning@) == spec_glossary_meanings(w.5)
    &&& (spec_find_word(old_entries, w.0@, w.1@) is None ==> disp_synthesized(
        disp,
        w.0@,
        w.1@,
        t,
    ))
    &&& merged_into(
        old_entries,
        new_entries,
        w.0@,
        w.1@,
        w.6 as int,
        g,
        false,
        spec_tag_set(w.2@),
        spec_glossary_examples(w.5),
        disp,
    )
}

impl ConvertableJmnedicData for JitendexWord {
    open spec fn is_unrecognized(&self) -> bool {
        false
    }

    open spec fn kanji_step(&self, before: Seq<crate::entry::Kanji>, after: Seq<crate::entry::Kanji>) -> bool {
        after == before
    }

    open spec fn word_step(
        &self,
        before: Seq<WordSlot>,
        after: Seq<WordSlot>,
        readings: Seq<(char, Seq<Seq<char>>)>,
    ) -> bool {
        exists|g: crate::entry::Glossary, disp: Seq<char>|
            #[trigger] jx_word_effect(*self, before, after, readings, g, disp)
    }

    fn convert_kanji_data(&self, kanji: &mut KanjiTable) -> (r: Result<(), String>)
        ensures
            final(kanji).entries@ == old(kanji).entries@,
    {
        Ok(())
    }

    fn convert_word_data(
        &self,
        words: &mut WordTable,
        kanji_readings: &Vec<(char, Vec<String>)>,
    ) -> (r: Result<(), String>)
        ensures
            exists|g: crate::entry::Glossary, disp: Seq<char>|
                #[trigger] jx_word_effect(
                    *self,
                    old(words).entries@,
                    final(words).entries@,
                    crate::furigana::table_views(kanji_readings@),
                    g,
                    disp,
                ),
    {
        let ghost old_entries = words.entries@;
        let exs = pairs_to_examples(&self.example());
        let ghost exsv = spec_glossary_examples(self.5);
        match words.find(self.kanji(), self.kana()) {
            Some(idx) => {
                let slot = words.entries.remove(idx);
                let WordSlot { kanji: sk, kana: sn, word: w0 } = slot;
                let ghost w0g = w0;
                let glossary = crate::entry::Glossary::new(
                    self.order(),
                    self.tags(),
                    self.glossary(),
                );
                let ghost gg = glossary;
                let Word {
                    word_id: _,
                    furigana,
                    glossary: mut gl,
                    frequency: mut freq,
                    examples: mut exsv0,
                } = w0;
                gl.push(glossary);
                crate::strset::extend_unique(&mut freq, &self.frequency());
                crate::entry::extend_examples(&mut exsv0, &exs);
                let w1 = Word::new(self.id(), furigana, gl, freq, exsv0);
                let slot2 = WordSlot { kanji: sk, kana: sn, word: w1 };
                words.entries.insert(idx, slot2);
                proof {
                    broadcast use vstd::seq_lib::group_to_multiset_ensures;

                    assert(words.entries@ =~= old_entries.update(idx as int, slot2));
                    assert(words.entries@[idx as int].word == w1);
                    assert(old_entries[idx as int].word == w0g);
                    lemma_conclude_update(
                        old_entries,
                        words.entries@,
                        self.0@,
                        self.1@,
                        self.6 as int,
                        gg,
                        false,
                        spec_tag_set(self.2@),
                        exs@,
                        spec_glossary_examples(self.5),
                        Seq::<char>::empty(),
                        idx as int,
                    );
                    assert(jx_word_effect(
                        *self,
                        old_entries,
                        words.entries@,
                        crate::furigana::table_views(kanji_readings@),
                        gg,
                        Seq::<char>::empty(),
                    ));
                }
                Ok(())
            },
            None => {
                let disp = synthesize_display(self.kanji(), self.kana(), kanji_readings);
                let ghost dispv = disp@;
                let glossary = crate::entry::Glossary::new(
                    self.order(),
                    self.tags(),
                    self.glossary(),
                );
                let ghost gg = glossary;
                let mut gl: Vec<crate::entry::Glossary> = Vec::new();
                gl.push(glossary);
                let w = Word::new(self.id(), disp, gl, self.frequency(), exs);
                let slot = WordSlot { kanji: self.0.clone(), kana: self.1.clone(), word: w };
                words.entries.push(slot);
                proof {
                    assert(forall|j: int|
                        0 <= j < old_entries.len() ==> words.entries@[j] == old_entries[j]);
                    assert(words.entries@[old_entries.len() as int] == slot);
                    assert(w.glossary@ =~= seq![gg]);
                    assert(words.entries@[old_entries.len() as int].word == w);
                    lemma_conclude_insert(
                        old_entries,
                        words.entries@,
                        self.0@,
                        self.1@,
                        self.6 as int,
                        gg,
                        false,
                        spec_tag_set(self.2@),
                        exs@,
                        spec_glossary_examples(self.5),
                        dispv,
                    );
                    assert(jx_word_effect(
                        *self,
                        old_entries,
                        words.entries@,
                        crate::furigana::table_views(kanji_readings@),
                        gg,
                        dispv,
                    ));
                }
                Ok(())
            },
        }
    }
}

} // verus!
