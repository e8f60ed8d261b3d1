//! Kanji character records: readings, meanings, stroke count, and the
//! classification level, contributed to the kanji table.

use vstd::prelude::*;
use crate::dict::dict_parser::{ConvertableJmnedicData, WordTable, KanjiTable, spec_find_kanji};
use crate::dict::jmnedict_frequency::{spec_level_tag, u8_to_dec};
use crate::entry::{Kanji, collect_readings, readings_to};
use crate::numeric::{parse_u8, is_u8_text, spec_u8_value};
use crate::strset::{distinct_strs, insert_unique, extend_unique};
use crate::furigana::strs_views;
use crate::text::{str_eq, spec_split, split_char, push_str_all};

verus! {

/// One raw kanji record: the character, its two space-separated reading
/// strings, a frequency string this pipeline does not read, its meanings,
/// and extra properties as key/value text pairs.
pub struct KanjidicEntry(
    pub char,
    pub String,
    pub String,
    pub String,
    pub Vec<String>,
    pub Vec<(String, String)>,
);

/// The value stored under `key`, if any: the first pair with that key.
pub open spec fn spec_prop(props: Seq<(String, String)>, key: Seq<char>) -> Option<Seq<char>>
    decreases props.len(),
{
    if props.len() == 0 {
        None
    } else if props[0].0@ == key {
        Some(props[0].1@)
    } else {
        spec_prop(props.drop_first(), key)
    }
}

/// Looks up a property value by key.
fn lookup_prop(props: &Vec<(String, String)>, key: &str) -> (r: Option<String>)
    ensures
        r is Some <==> spec_prop(props@, key@) is Some,
        r is Some ==> r->0@ == spec_prop(props@, key@)->0,
{
    let ghost pv = props@;
    let mut i: usize = 0;
    proof {
        assert(pv.skip(0) =~= pv);
    }
    while i < props.len()
        invariant
            i <= pv.len(),
            pv == props@,
            spec_prop(pv, key@) == spec_prop(pv.skip(i as int), key@),
        decreases pv.len() - i,
    {
        let ghost pre = pv.skip(i as int);
        if str_eq(props[i].0.as_str(), key) {
            proof {
                assert(pre[0] == pv[i as int]);
            }
            return Some(props[i].1.clone());
        }
        i = i + 1;
        proof {
            assert(pre.drop_first() =~= pv.skip(i as int));
        }
    }
    proof {
        assert(pv.skip(pv.len() as int) =~= Seq::<(String, String)>::empty());
    }
    None
}

/// The distinct fields of a space-separated string, as one set.
pub open spec fn split_set(s: Seq<char>) -> Set<Seq<char>> {
    split_set_to(spec_split(s, ' '), spec_split(s, ' ').len() as int)
}

pub open spec fn split_set_to(parts: Seq<Seq<char>>, i: int) -> Set<Seq<char>>
    decreases i,
{
    if i <= 0 {
        Set::<Seq<char>>::empty()
    } else {
        split_set_to(parts, i - 1).insert(parts[i - 1])
    }
}

/// Splits a space-separated string into its distinct fields.
fn collect_fields(s: &str) -> (r: Vec<String>)
    ensures
        distinct_strs(r@),
        strs_views(r@).to_set() == split_set(s@),
{
    let parts = split_char(s, ' ');
    let ghost pv = spec_split(s@, ' ');
    let mut out: Vec<String> = Vec::new();
    let mut i: usize = 0;
    proof {
        assert(strs_views(out@).to_set() =~= split_set_to(pv, 0));
    }
    while i < parts.len()
        invariant
            i <= parts@.len(),
            parts@.map_values(|t: String| t@) == pv,
            distinct_strs(out@),
            strs_views(out@).to_set() == split_set_to(pv, i as int),
        decreases parts@.len() - i,
    {
        assert(parts@[i as int]@ == pv[i as int]);
        let f = parts[i].clone();
        assert(f@ == pv[i as int]);
        insert_unique(&mut out, f);
        i = i + 1;
        proof {
            assert(strs_views(out@).to_set() =~= split_set_to(pv, i as int));
        }
    }
    out
}

impl KanjidicEntry {
    /// The character of the record.
    pub fn kanji(&self) -> (r: char)
        ensures
            r == self.0,
    {
        self.0
    }

    /// The distinct raw Chinese-derived readings.
    pub fn onyomi(&self) -> (r: Vec<String>)
        ensures
            distinct_strs(r@),
            strs_views(r@).to_set() == split_set(self.1@),
    {
        collect_fields(self.1.as_str())
    }

    /// The distinct raw native readings.
    pub fn kunyomi(&self) -> (r: Vec<String>)
        ensures
            distinct_strs(r@),
            strs_views(r@).to_set() == split_set(self.2@),
    {
        collect_fields(self.2.as_str())
    }

    /// Every plain-kana reading of the record: the main part of each
    /// parseable raw reading, folded to hiragana, without duplicates.
    pub fn readings(&self) -> (r: Vec<String>)
        ensures
            distinct_strs(r@),
            strs_views(r@).to_set() == readings_of_set(split_set(self.1@)) + readings_of_set(
                split_set(self.2@),
            ),
    {
        let on = self.onyomi();
        let kun = self.kunyomi();
        let mut out: Vec<String> = Vec::new();
        collect_readings(&mut out, &on);
        proof {
            lemma_readings_set(on@);
            assert(strs_views(out@).to_set() =~= Set::<Seq<char>>::empty() + readings_of_set(
                split_set(self.1@),
            ));
        }
        collect_readings(&mut out, &kun);
        proof {
            lemma_readings_set(kun@);
        }
        out
    }

    /// The distinct meanings of the record.
    pub fn meaning(&self) -> (r: Vec<String>)
        ensures
            distinct_strs(r@),
            strs_views(r@).to_set() == strs_views(self.4@).to_set(),
    {
        let mut out: Vec<String> = Vec::new();
        extend_unique(&mut out, &self.4);
        proof {
            assert(strs_views(out@).to_set() =~= strs_views(self.4@).to_set());
        }
        out
    }

    /// The stroke count, when the properties name one that parses.
    pub fn strokes(&self) -> (r: Option<u8>)
        ensures
            r is Some <==> (spec_prop(self.5@, "strokes"@) is Some && is_u8_text(
                spec_prop(self.5@, "strokes"@)->0,
            )),
            r is Some ==> r->0 as int == spec_u8_value(spec_prop(self.5@, "strokes"@)->0),
    {
        match lookup_prop(&self.5, "strokes") {
            Some(v) => parse_u8(v.as_str()),
            None => None,
        }
    }

    /// The classification level, when the properties name one that parses.
    pub fn jlpt(&self) -> (r: Option<u8>)
        ensures
            r is Some <==> (spec_prop(self.5@, "jlpt"@) is Some && is_u8_text(
                spec_prop(self.5@, "jlpt"@)->0,
            )),
            r is Some ==> r->0 as int == spec_u8_value(spec_prop(self.5@, "jlpt"@)->0),
    {
        match lookup_prop(&self.5, "jlpt") {
            Some(v) => parse_u8(v.as_str()),
            None => None,
        }
    }

    /// The record's tags: its classification level when present, else none.
    pub fn tags(&self) -> (r: Vec<String>)
        ensures
            distinct_strs(r@),
            self.jlpt_level() is Some ==> r@.len() == 1 && r@[0]@ == spec_level_tag(
                self.jlpt_level()->0,
            ),
            self.jlpt_level() is None ==> r@.len() == 0,
    {
        match self.jlpt() {
            Some(level) => {
                let digits = u8_to_dec(level);
                let mut tag = "JLPT-N".to_owned();
                push_str_all(&mut tag, crate::text::chars_to_string(&digits).as_str());
                proof {
                    crate::dict::jmnedict_frequency::lemma_dec_digits_canonical(digits@, level);
                }
                let mut r: Vec<String> = Vec::new();
                r.push(tag);
                r
            },
            None => {
                Vec::new()
            },
        }
    }

    /// The classification level of the record, as its tag function sees it.
    pub open spec fn jlpt_level(&self) -> Option<u8> {
        if spec_prop(self.5@, "jlpt"@) is Some && is_u8_text(spec_prop(self.5@, "jlpt"@)->0) {
            Some(spec_u8_value(spec_prop(self.5@, "jlpt"@)->0) as u8)
        } else {
            None
        }
    }
}

/// The plain readings named by a set of raw reading strings.
pub open spec fn readings_of_set(ts: Set<Seq<char>>) -> Set<Seq<char>> {
    Set::new(
        |y: Seq<char>|
            exists|t: Seq<char>| #[trigger] ts.contains(t) && readings_name(t, y),
    )
}

/// Whether the raw reading string `t` names the plain reading `y`.
pub open spec fn readings_name(t: Seq<char>, y: Seq<char>) -> bool {
    crate::entry::reading_of(t) == Some(y)
}

/// Folding a list of raw readings collects exactly the readings its
/// elements name.
proof fn lemma_readings_set(v: Seq<String>)
    ensures
        readings_to(v, v.len() as int) == readings_of_set(
            crate::furigana::strs_views(v).to_set(),
        ),
    decreases v.len(),
{
    lemma_readings_set_to(v, v.len() as int);
    assert(readings_to(v, v.len() as int) =~= readings_of_set(
        crate::furigana::strs_views(v).to_set(),
    )) by {
        assert forall|y: Seq<char>| #[trigger] readings_to(v, v.len() as int).contains(y)
            <==> readings_of_set(crate::furigana::strs_views(v).to_set()).contains(y) by {
            if readings_to(v, v.len() as int).contains(y) {
                let j = choose|j: int|
                    0 <= j < v.len() && readings_name((#[trigger] v[j])@, y);
                assert(crate::furigana::strs_views(v)[j] == v[j]@);
                assert(crate::furigana::strs_views(v).to_set().contains(v[j]@));
            }
            if readings_of_set(crate::furigana::strs_views(v).to_set()).contains(y) {
                let t = choose|t: Seq<char>|
                    #[trigger] crate::furigana::strs_views(v).to_set().contains(t)
                        && readings_name(t, y);
                let j = choose|j: int|
                    0 <= j < crate::furigana::strs_views(v).len()
                        && crate::furigana::strs_views(v)[j] == t;
                assert(v[j]@ == t);
                assert(readings_name(v[j]@, y));
            }
        };
    };
}

/// A reading is collected from the first `i` raw strings exactly when one
/// of them names it.
proof fn lemma_readings_set_to(v: Seq<String>, i: int)
    requires
        0 <= i <= v.len(),
    ensures
        forall|y: Seq<char>|
            #[trigger] readings_to(v, i).contains(y) <==> exists|j: int|
                0 <= j < i && readings_name((#[trigger] v[j])@, y),
    decreases i,
{
    if i > 0 {
        lemma_readings_set_to(v, i - 1);
        assert forall|y: Seq<char>| #[trigger] readings_to(v, i).contains(y) <==> exists|j: int|
            0 <= j < i && readings_name((#[trigger] v[j])@, y) by {
            if readings_to(v, i).contains(y) {
                if readings_to(v, i - 1).contains(y) {
                    let j = choose|j: int|
                        0 <= j < i - 1 && readings_name((#[trigger] v[j])@, y);
                    assert(readings_name(v[j]@, y));
                } else {
                    assert(readings_name(v[i - 1]@, y));
                }
            }
            if exists|j: int| 0 <= j < i && readings_name((#[trigger] v[j])@, y) {
                let j = choose|j: int| 0 <= j < i && readings_name((#[trigger] v[j])@, y);
                if j < i - 1 {
                    assert(readings_to(v, i - 1).contains(y));
                }
            }
        };
    }
}

/// How one kanji record changes the table: a fresh character gains a new
/// record; an existing one keeps its identity, unites its reading, meaning
/// and tag sets with the record's, and takes the record's stroke count.
pub open spec fn kanji_effect(
    e: KanjidicEntry,
    old_entries: Seq<Kanji>,
    new_entries: Seq<Kanji>,
) -> bool {
    match spec_find_kanji(old_entries, e.0) {
        Some(i) => {
            &&& new_entries.len() == old_entries.len()
            &&& (forall|j: int|
                0 <= j < old_entries.len() && j != i ==> new_entries[j] == old_entries[j])
            &&& new_entries[i].kanji == e.0
            &&& strs_views(new_entries[i].onyomi@).to_set() == strs_views(
                old_entries[i].onyomi@,
            ).to_set() + split_set(e.1@)
            &&& strs_views(new_entries[i].kunyomi@).to_set() == strs_views(
                old_entries[i].kunyomi@,
            ).to_set() + split_set(e.2@)
            &&& strs_views(new_entries[i].meaning@).to_set() == strs_views(
                old_entries[i].meaning@,
            ).to_set() + strs_views(e.4@).to_set()
            &&& (e.jlpt_level() is Some ==> strs_views(new_entries[i].tags@).to_set()
                == strs_views(old_entries[i].tags@).to_set().insert(
                spec_level_tag(e.jlpt_level()->0),
            ))
            &&& (e.jlpt_level() is None ==> strs_views(new_entries[i].tags@).to_set()
                == strs_views(old_entries[i].tags@).to_set())
            &&& (new_entries[i].strokes is Some <==> (spec_prop(e.5@, "strokes"@) is Some
                && is_u8_text(spec_prop(e.5@, "strokes"@)->0)))
            &&& (new_entries[i].strokes is Some ==> new_entries[i].strokes->0 as int
                == spec_u8_value(spec_prop(e.5@, "strokes"@)->0))
        },
        None => {
            &&& new_entries.len() == old_entries.len() + 1
            &&& (forall|j: int| 0 <= j < old_entries.len() ==> new_entries[j] == old_entries[j])
            &&& new_entries[old_entries.len() as int].kanji == e.0
            &&& strs_views(new_entries[old_entries.len() as int].onyomi@).to_set() == split_set(
                e.1@,
            )
            &&& strs_views(new_entries[old_entries.len() as int].kunyomi@).to_set()
                == split_set(e.2@)
            &&& strs_views(new_entries[old_entries.len() as int].meaning@).to_set()
                == strs_views(e.4@).to_set()
            &&& (new_entries[old_entries.len() as int].strokes is Some <==> (spec_prop(
                e.5@,
                "strokes"@,
            ) is Some && is_u8_text(spec_prop(e.5@, "strokes"@)->0)))
            &&& (new_entries[old_entries.len() as int].strokes is Some ==> new_entries[
                old_entries.len() as int].strokes->0 as int == spec_u8_value(
                spec_prop(e.5@, "strokes"@)->0,
            ))
            &&& (e.jlpt_level() is Some ==> strs_views(
                new_entries[old_entries.len() as int].tags@,
            ).to_set() == Set::<Seq<char>>::empty().insert(spec_level_tag(e.jlpt_level()->0)))
            &&& (e.jlpt_level() is None ==> new_entries[old_entries.len() as int].tags@.len()
                == 0)
        },
    }
}

impl ConvertableJmnedicData for KanjidicEntry {
    open spec fn is_unrecognized(&self) -> bool {
        false
    }

    open spec fn kanji_step(&self, before: Seq<Kanji>, after: Seq<Kanji>) -> bool {
        kanji_effect(*self, before, after)
    }

    open spec fn word_step(
        &self,
        before: Seq<crate::dict::dict_parser::WordSlot>,
        after: Seq<crate::dict::dict_parser::WordSlot>,
        readings: Seq<(char, Seq<Seq<char>>)>,
    ) -> bool {
        after == before
    }

    fn convert_kanji_data(&self, kanji: &mut KanjiTable) -> (r: Result<(), String>)
        ensures
            kanji_effect(*self, old(kanji).entries@, final(kanji).entries@),
    {
        let ghost old_entries = kanji.entries@;
        match kanji.find(self.kanji()) {
            Some(idx) => {
                let k0 = kanji.entries.remove(idx);
                let ghost k0g = k0;
                let Kanji {
                    kanji: c,
                    onyomi: mut on,
                    kunyomi: mut kun,
                    meaning: mut mean,
                    strokes: _,
                    tags: mut tags,
                } = k0;
                extend_unique(&mut on, &self.onyomi());
                extend_unique(&mut kun, &self.kunyomi());
                extend_unique(&mut mean, &self.meaning());
                let newtags = self.tags();
                extend_unique(&mut tags, &newtags);
                let k1 = Kanji::new(c, on, kun, mean, self.strokes(), tags);
                kanji.entries.insert(idx, k1);
                proof {
                    assert(kanji.entries@ =~= old_entries.update(idx as int, k1));
                    assert(kanji.entries@[idx as int] == k1);
                    assert(old_entries[idx as int] == k0g);
                    if self.jlpt_level() is Some {
                        let tag = spec_level_tag(self.jlpt_level()->0);
                        assert(strs_views(newtags@).to_set() =~= Set::<Seq<char>>::empty().insert(
                            tag,
                        )) by {
                            assert(strs_views(newtags@)[0] == tag);
                            assert forall|y: Seq<char>| #[trigger] strs_views(
                                newtags@,
                            ).to_set().contains(y) implies y == tag by {
                                let i = choose|i: int|
                                    0 <= i < strs_views(newtags@).len() && strs_views(
                                        newtags@,
                                    )[i] == y;
                            };
                        };
                        assert(strs_views(k1.tags@).to_set() =~= strs_views(
                            k0g.tags@,
                        ).to_set().insert(tag));
                    } else {
                        assert(strs_views(newtags@).to_set() =~= Set::<Seq<char>>::empty()) by {
                            assert forall|y: Seq<char>| !(#[trigger] strs_views(
                                newtags@,
                            ).to_set().contains(y)) by {
                                if strs_views(newtags@).to_set().contains(y) {
                                    let i = choose|i: int|
                                        0 <= i < strs_views(newtags@).len() && strs_views(
                                            newtags@,
                                        )[i] == y;
                                }
                            };
                        };
                        assert(strs_views(k1.tags@).to_set() =~= strs_views(k0g.tags@).to_set());
                    }
                    assert(kanji_effect(*self, old_entries, kanji.entries@));
                }
                Ok(())
            },
            None => {
                let newtags = self.tags();
                let k = Kanji::new(
                    self.kanji(),
                    self.onyomi(),
                    self.kunyomi(),
                    self.meaning(),
                    self.strokes(),
                    newtags,
                );
                kanji.entries.push(k);
                proof {
                    assert(forall|j: int|
                        0 <= j < old_entries.len() ==> kanji.entries@[j] == old_entries[j]);
                    assert(kanji.entries@[old_entries.len() as int] == k);
                    if self.jlpt_level() is Some {
                        let tag = spec_level_tag(self.jlpt_level()->0);
                        assert(strs_views(k.tags@).to_set() =~= Set::<Seq<char>>::empty().insert(
                            tag,
                        )) by {
                            assert(strs_views(k.tags@)[0] == tag);
                            assert forall|y: Seq<char>| #[trigger] strs_views(
                                k.tags@,
                            ).to_set().contains(y) implies y == tag by {
                                let i = choose|i: int|
                                    0 <= i < strs_views(k.tags@).len() && strs_views(
                                        k.tags@,
                                    )[i] == y;
                            };
                        };
                    }
                    assert(kanji_effect(*self, old_entries, kanji.entries@));
                }
                Ok(())
            },
        }
    }

    fn convert_word_data(
        &self,
        words: &mut WordTable,
        kanji_readings: &Vec<(char, Vec<String>)>,
    ) -> (r: Result<(), String>)
        ensures
            final(words).entries@ == old(words).entries@,
    {
        Ok(())
    }
}

} // verus!
