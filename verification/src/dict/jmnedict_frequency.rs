//! Frequency records: a spelling with its reading and a classification
//! level, contributing one level tag to the word table.

use vstd::prelude::*;
use crate::dict::dict_parser::{
    ConvertableJmnedicData,
    WordTable,
    WordSlot,
    KanjiTable,
    spec_find_word,
    disp_synthesized,
    synthesize_display,
};
use crate::entry::{Word, Kanji};
use crate::numeric::{digits_value, is_digit};
use crate::strset::distinct_strs;
use crate::furigana::strs_views;
use crate::text::push_str_all;

verus! {

/// The decimal digits of `n`, most significant first, without leading zeros.
pub fn u8_to_dec(n: u8) -> (r: Vec<char>)
    ensures
        r@.len() >= 1,
        forall|q: int| 0 <= q < r@.len() ==> is_digit(#[trigger] r@[q]),
        digits_value(r@) == n as int,
        r@[0] != '0' || r@.len() == 1,
{
    let h: u8 = n / 100;
    let t: u8 = (n / 10) % 10;
    let o: u8 = n % 10;
    let mut out: Vec<char> = Vec::new();
    if h > 0 {
        out.push(digit_char(h));
        out.push(digit_char(t));
        out.push(digit_char(o));
        proof {
            let s1 = seq![out@[0]];
            let s2 = seq![out@[0], out@[1]];
            assert(out@.drop_last() =~= s2);
            assert(s2.drop_last() =~= s1);
            assert(s1.drop_last() =~= Seq::<char>::empty());
            assert(digits_value(Seq::<char>::empty()) == 0);
            assert(digits_value(s1) == crate::numeric::digit_of(out@[0]));
            assert(digits_value(s2) == crate::numeric::digit_of(out@[0]) * 10
                + crate::numeric::digit_of(out@[1]));
            assert(digits_value(out@) == digits_value(s2) * 10 + crate::numeric::digit_of(
                out@[2],
            ));
            assert(n as int == h * 100 + t * 10 + o);
        }
    } else if t > 0 {
        out.push(digit_char(t));
        out.push(digit_char(o));
        proof {
            let s1 = seq![out@[0]];
            assert(out@.drop_last() =~= s1);
            assert(s1.drop_last() =~= Seq::<char>::empty());
            assert(digits_value(Seq::<char>::empty()) == 0);
            assert(digits_value(s1) == crate::numeric::digit_of(out@[0]));
            assert(digits_value(out@) == digits_value(s1) * 10 + crate::numeric::digit_of(
                out@[1],
            ));
            assert(n as int == t * 10 + o);
        }
    } else {
        out.push(digit_char(o));
        proof {
            assert(out@.drop_last() =~= Seq::<char>::empty());
            assert(digits_value(Seq::<char>::empty()) == 0);
            assert(digits_value(out@) == crate::numeric::digit_of(out@[0]));
            assert(n as int == o);
        }
    }
    out
}

/// The character of one decimal digit.
fn digit_char(d: u8) -> (r: char)
    requires
        d <= 9,
    ensures
        is_digit(r),
        crate::numeric::digit_of(r) == d as int,
        d > 0 ==> r != '0',
{
    let u: u32 = 48 + d as u32;
    if let Some(c) = char::from_u32(u) {
        proof {
            vstd::utf8::char_u32_cast(c, u);
        }
        c
    } else {
        '0'
    }
}

/// The level data of a frequency record.
pub struct FrequencyData {
    pub display_value: String,
    pub value: u8,
}

/// The reading and level data of a frequency record.
pub struct Properties {
    pub frequency: FrequencyData,
    pub reading: String,
}

/// One raw frequency record: the spelling, the literal frequency marker of
/// the source format, and the reading with the classification level.
pub struct JmnedictFrequency(pub String, pub String, pub Properties);

/// The one tag a frequency record contributes: the classification level
/// spelled `JLPT-N` followed by the level number.
pub open spec fn spec_level_tag(level: u8) -> Seq<char> {
    "JLPT-N"@ + spec_dec_digits(level)
}

/// Some decimal spelling of the level: nonempty digits naming its value
/// without a leading zero.
pub open spec fn spec_dec_digits(level: u8) -> Seq<char> {
    choose|s: Seq<char>|
        {
            &&& s.len() >= 1
            &&& (forall|q: int| 0 <= q < s.len() ==> is_digit(#[trigger] s[q]))
            &&& digits_value(s) == level as int
            &&& (s[0] != '0' || s.len() == 1)
        }
}

impl JmnedictFrequency {
    /// The spelling of the word.
    pub fn kanji(&self) -> (r: &str)
        ensures
            r@ == self.0@,
    {
        self.0.as_str()
    }

    /// The kana reading of the word.
    pub fn kana(&self) -> (r: &str)
        ensures
            r@ == self.2.reading@,
    {
        self.2.reading.as_str()
    }

    /// The classification level of the record.
    pub fn jlpt(&self) -> (r: u8)
        ensures
            r == self.2.frequency.value,
    {
        self.2.frequency.value
    }

    /// The record's single tag: its classification level.
    pub fn tags(&self) -> (r: Vec<String>)
        ensures
            r@.len() == 1,
            distinct_strs(r@),
            r@[0]@ == "JLPT-N"@ + spec_dec_digits(self.2.frequency.value),
            strs_views(r@).to_set() == Set::<Seq<char>>::empty().insert(
                spec_level_tag(self.2.frequency.value),
            ),
    {
        let digits = u8_to_dec(self.2.frequency.value);
        let mut tag = "JLPT-N".to_owned();
        push_str_all(&mut tag, crate::text::chars_to_string(&digits).as_str());
        proof {
            let picked = spec_dec_digits(self.2.frequency.value);
            assert(picked.len() >= 1 && (forall|q: int|
                0 <= q < picked.len() ==> is_digit(#[trigger] picked[q])) && digits_value(picked)
                == self.2.frequency.value as int && (picked[0] != '0' || picked.len() == 1)) by {
                assert({
                    let s = digits@;
                    &&& s.len() >= 1
                    &&& (forall|q: int| 0 <= q < s.len() ==> is_digit(#[trigger] s[q]))
                    &&& digits_value(s) == self.2.frequency.value as int
                    &&& (s[0] != '0' || s.len() == 1)
                });
            };
            lemma_dec_digits_unique(digits@, picked);
        }
        let mut r: Vec<String> = Vec::new();
        r.push(tag);
        proof {
            assert(strs_views(r@).to_set() =~= Set::<Seq<char>>::empty().insert(
                spec_level_tag(self.2.frequency.value),
            )) by {
                assert(strs_views(r@)[0] == spec_level_tag(self.2.frequency.value));
            };
        }
        r
    }
}

/// A concrete digit string without a leading zero is the level's canonical
/// decimal spelling.
pub proof fn lemma_dec_digits_canonical(s: Seq<char>, level: u8)
    requires
        s.len() >= 1,
        forall|q: int| 0 <= q < s.len() ==> is_digit(#[trigger] s[q]),
        digits_value(s) == level as int,
        s[0] != '0' || s.len() == 1,
    ensures
        s == spec_dec_digits(level),
{
    let picked = spec_dec_digits(level);
    assert(picked.len() >= 1 && (forall|q: int|
        0 <= q < picked.len() ==> is_digit(#[trigger] picked[q])) && digits_value(picked)
        == level as int && (picked[0] != '0' || picked.len() == 1)) by {
        assert({
            &&& s.len() >= 1
            &&& (forall|q: int| 0 <= q < s.len() ==> is_digit(#[trigger] s[q]))
            &&& digits_value(s) == level as int
            &&& (s[0] != '0' || s.len() == 1)
        });
    };
    lemma_dec_digits_unique(s, picked);
}

/// Two digit strings without leading zeros naming the same value are equal.
proof fn lemma_dec_digits_unique(a: Seq<char>, b: Seq<char>)
    requires
        a.len() >= 1,
        b.len() >= 1,
        forall|q: int| 0 <= q < a.len() ==> is_digit(#[trigger] a[q]),
        forall|q: int| 0 <= q < b.len() ==> is_digit(#[trigger] b[q]),
        digits_value(a) == digits_value(b),
        a[0] != '0' || a.len() == 1,
        b[0] != '0' || b.len() == 1,
        digits_value(a) <= 255,
    ensures
        a == b,
{
    lemma_digits_value_range(a);
    lemma_digits_value_range(b);
    if a.len() == b.len() {
        lemma_digits_value_injective(a, b);
    } else if a.len() < b.len() {
        lemma_digits_lower_bound(b);
        lemma_digits_upper_bound(a);
        assert(false);
    } else {
        lemma_digits_lower_bound(a);
        lemma_digits_upper_bound(b);
        assert(false);
    }
}

/// A digits string's value is nonnegative.
proof fn lemma_digits_value_range(s: Seq<char>)
    requires
        forall|q: int| 0 <= q < s.len() ==> is_digit(#[trigger] s[q]),
    ensures
        digits_value(s) >= 0,
    decreases s.len(),
{
    if s.len() > 0 {
        assert(forall|q: int| 0 <= q < s.len() - 1 ==> s.drop_last()[q] == s[q]);
        lemma_digits_value_range(s.drop_last());
    }
}

/// Without a leading zero, `n` digits name at least `10^(n-1)`.
proof fn lemma_digits_lower_bound(s: Seq<char>)
    requires
        s.len() >= 1,
        forall|q: int| 0 <= q < s.len() ==> is_digit(#[trigger] s[q]),
        s[0] != '0' || s.len() == 1,
    ensures
        s.len() >= 2 ==> digits_value(s) >= 10,
        s.len() >= 3 ==> digits_value(s) >= 100,
        s.len() >= 4 ==> digits_value(s) >= 1000,
    decreases s.len(),
{
    if s.len() >= 2 {
        assert(forall|q: int| 0 <= q < s.len() - 1 ==> s.drop_last()[q] == s[q]);
        lemma_digits_lower_bound(s.drop_last());
        if s.len() == 2 {
            assert(crate::numeric::digit_of(s[0]) >= 1);
            assert(digits_value(s.drop_last()) == digits_value(
                s.drop_last().drop_last(),
            ) * 10 + crate::numeric::digit_of(s.drop_last().last()));
            assert(s.drop_last().drop_last() =~= Seq::<char>::empty());
            assert(s.drop_last().last() == s[0]);
        }
    }
}

/// `n` digits name less than `10^n`.
proof fn lemma_digits_upper_bound(s: Seq<char>)
    requires
        forall|q: int| 0 <= q < s.len() ==> is_digit(#[trigger] s[q]),
    ensures
        s.len() <= 1 ==> digits_value(s) <= 9,
        s.len() <= 2 ==> digits_value(s) <= 99,
        s.len() <= 3 ==> digits_value(s) <= 999,
    decreases s.len(),
{
    if s.len() > 0 {
        assert(forall|q: int| 0 <= q < s.len() - 1 ==> s.drop_last()[q] == s[q]);
        lemma_digits_upper_bound(s.drop_last());
        assert(crate::numeric::digit_of(s.last()) <= 9);
    }
}

/// Equal-length digit strings with equal values are equal.
proof fn lemma_digits_value_injective(a: Seq<char>, b: Seq<char>)
    requires
        a.len() == b.len(),
        forall|q: int| 0 <= q < a.len() ==> is_digit(#[trigger] a[q]),
        forall|q: int| 0 <= q < b.len() ==> is_digit(#[trigger] b[q]),
        digits_value(a) == digits_value(b),
    ensures
        a == b,
    decreases a.len(),
{
    if a.len() == 0 {
        assert(a =~= b);
    } else {
        assert(forall|q: int| 0 <= q < a.len() - 1 ==> a.drop_last()[q] == a[q]);
        assert(forall|q: int| 0 <= q < b.len() - 1 ==> b.drop_last()[q] == b[q]);
        lemma_digits_value_range(a.drop_last());
        lemma_digits_value_range(b.drop_last());
        assert(crate::numeric::digit_of(a.last()) == crate::numeric::digit_of(b.last())) by {
            assert(digits_value(a) == digits_value(a.drop_last()) * 10
                + crate::numeric::digit_of(a.last()));
            assert(digits_value(b) == digits_value(b.drop_last()) * 10
                + crate::numeric::digit_of(b.last()));
        };
        assert(a.last() == b.last()) by {
            let ua = a.last() as u32;
            let ub = b.last() as u32;
            assert(ua == ub);
            vstd::utf8::char_u32_cast(a.last(), ua);
            vstd::utf8::char_u32_cast(b.last(), ub);
        };
        lemma_digits_value_injective(a.drop_last(), b.drop_last());
        assert(a =~= a.drop_last().push(a.last()));
        assert(b =~= b.drop_last().push(b.last()));
    }
}

/// Everything one frequency record does to the accumulator: a known key
/// gains the level tag; a missing key gains a fresh slot with no senses.
pub open spec fn freq_effect(
    w: JmnedictFrequency,
    old_entries: Seq<WordSlot>,
    new_entries: Seq<WordSlot>,
    t: Seq<(char, Seq<Seq<char>>)>,
    disp: Seq<char>,
) -> bool {
    let kj = w.0@;
    let kn = w.2.reading@;
    let tag = spec_level_tag(w.2.frequency.value);
    match spec_find_word(old_entries, kj, kn) {
        Some(i) => {
            &&& new_entries.len() == old_entries.len()
            &&& (forall|j: int|
                0 <= j < old_entries.len() && j != i ==> new_entries[j] == old_entries[j])
            &&& new_entries[i].kanji@ == kj
            &&& new_entries[i].kana@ == kn
            &&& new_entries[i].word.word_id == old_entries[i].word.word_id
            &&& new_entries[i].word.furigana == old_entries[i].word.furigana
            &&& new_entries[i].word.glossary == old_entries[i].word.glossary
            &&& new_entries[i].word.examples == old_entries[i].word.examples
            &&& strs_views(new_entries[i].word.frequency@).to_set() == strs_views(
                old_entries[i].word.frequency@,
            ).to_set().insert(tag)
            &&& (distinct_strs(old_entries[i].word.frequency@) ==> distinct_strs(
                new_entries[i].word.frequency@,
            ))
        },
        None => {
            &&& disp_synthesized(disp, kj, kn, t)
            &&& new_entries.len() == old_entries.len() + 1
            &&& (forall|j: int| 0 <= j < old_entries.len() ==> new_entries[j] == old_entries[j])
            &&& new_entries[old_entries.len() as int].kanji@ == kj
            &&& new_entries[old_entries.len() as int].kana@ == kn
            &&& new_entries[old_entries.len() as int].word.word_id == 0
            &&& new_entries[old_entries.len() as int].word.furigana@ == disp
            &&& new_entries[old_entries.len() as int].word.glossary@.len() == 0
            &&& new_entries[old_entries.len() as int].word.examples@.len() == 0
            &&& strs_views(new_entries[old_entries.len() as int].word.frequency@).to_set()
                == Set::<Seq<char>>::empty().insert(tag)
        },
    }
}

impl ConvertableJmnedicData for JmnedictFrequency {
    open spec fn is_unrecognized(&self) -> bool {
        false
    }

    open spec fn kanji_step(&self, before: Seq<Kanji>, after: Seq<Kanji>) -> bool {
        after == before
    }

    open spec fn word_step(
        &self,
        before: Seq<WordSlot>,
        after: Seq<WordSlot>,
        readings: Seq<(char, Seq<Seq<char>>)>,
    ) -> bool {
        exists|disp: Seq<char>| #[trigger] freq_effect(*self, before, after, readings, disp)
    }

    fn convert_kanji_data(&self, kanji: &mut KanjiTable) -> (r: Result<(), String>)
        ensures
            final(kanji).entries@ == old(kanji).entries@,
    {
        Ok(())
    }

    fn convert_word_data(
        &self,
        words: &mut WordTable,
        kanji_readings: &Vec<(char, Vec<String>)>,
    ) -> (r: Result<(), String>)
        ensures
            exists|disp: Seq<char>|
                #[trigger] freq_effect(
                    *self,
                    old(words).entries@,
                    final(words).entries@,
                    crate::furigana::table_views(kanji_readings@),
                    disp,
                ),
    {
        let ghost old_entries = words.entries@;
        match words.find(self.kanji(), self.kana()) {
            Some(idx) => {
                let slot = words.entries.remove(idx);
                let WordSlot { kanji: sk, kana: sn, word: w0 } = slot;
                let ghost w0g = w0;
                let Word { word_id, furigana, glossary, frequency: mut freq, examples } = w0;
                crate::strset::extend_unique(&mut freq, &self.tags());
                let w1 = Word::new(word_id, furigana, glossary, freq, examples);
                let slot2 = WordSlot { kanji: sk, kana: sn, word: w1 };
                words.entries.insert(idx, slot2);
                proof {
                    assert(words.entries@ =~= old_entries.update(idx as int, slot2));
                    assert(words.entries@[idx as int].word == w1);
                    assert(old_entries[idx as int].word == w0g);
                    assert(strs_views(w1.frequency@).to_set() =~= strs_views(
                        w0g.frequency@,
                    ).to_set().insert(spec_level_tag(self.2.frequency.value)));
                    assert(freq_effect(
                        *self,
                        old_entries,
                        words.entries@,
                        crate::furigana::table_views(kanji_readings@),
                        Seq::<char>::empty(),
                    ));
                }
                Ok(())
            },
            None => {
                let disp = synthesize_display(self.kanji(), self.kana(), kanji_readings);
                let ghost dispv = disp@;
                let w = Word::new(0, disp, Vec::new(), self.tags(), Vec::new());
                let slot = WordSlot {
                    kanji: self.0.clone(),
                    kana: self.2.reading.clone(),
                    word: w,
                };
                words.entries.push(slot);
                proof {
                    assert(forall|j: int|
                        0 <= j < old_entries.len() ==> words.entries@[j] == old_entries[j]);
                    assert(words.entries@[old_entries.len() as int] == slot);
                    assert(words.entries@[old_entries.len() as int].word == w);
                    assert(freq_effect(
                        *self,
                        old_entries,
                        words.entries@,
                        crate::furigana::table_views(kanji_readings@),
                        dispv,
                    ));
                }
                Ok(())
            },
        }
    }
}

} // verus!
