//! The merge engine: the accumulator tables every dictionary source feeds,
//! the adapter interface, and the fold that builds the lexicon from a list
//! of raw records, aborting on the first unrecognized one.

use vstd::prelude::*;
use crate::entry::{Word, Kanji, Glossary};
use crate::strset::distinct_strs;
use crate::furigana::strs_views;
use crate::text::str_eq;
use vstd::multiset::Multiset;

verus! {

/// One word accumulator slot: the raw spelling/reading key and the record.
pub struct WordSlot {
    pub kanji: String,
    pub kana: String,
    pub word: Word,
}

/// The word accumulator, keyed by the raw (spelling, reading) pair; a key
/// appears at most once.
pub struct WordTable {
    pub entries: Vec<WordSlot>,
}

/// Whether the slots hold pairwise different keys.
pub open spec fn word_keys_unique(entries: Seq<WordSlot>) -> bool {
    forall|i: int, j: int|
        0 <= i < j < entries.len() ==> !((#[trigger] entries[i]).kanji@ == (
        #[trigger] entries[j]).kanji@ && entries[i].kana@ == entries[j].kana@)
}

/// The index of the slot with the given key, if any.
pub open spec fn spec_find_word(entries: Seq<WordSlot>, kanji: Seq<char>, kana: Seq<char>) -> Option<
    int,
>
    decreases entries.len(),
{
    if entries.len() == 0 {
        None
    } else if entries[0].kanji@ == kanji && entries[0].kana@ == kana {
        Some(0)
    } else {
        match spec_find_word(entries.drop_first(), kanji, kana) {
            Some(i) => Some(i + 1),
            None => None,
        }
    }
}

impl WordTable {
    /// An empty accumulator.
    pub fn new() -> (r: Self)
        ensures
            r.entries@.len() == 0,
    {
        WordTable { entries: Vec::new() }
    }

    /// Finds the slot with the given key.
    pub fn find(&self, kanji: &str, kana: &str) -> (r: Option<usize>)
        ensures
            r is Some <==> spec_find_word(self.entries@, kanji@, kana@) is Some,
            r is Some ==> Some(r->0 as int) == spec_find_word(self.entries@, kanji@, kana@)
                && r->0 < self.entries@.len() && self.entries@[r->0 as int].kanji@ == kanji@
                && self.entries@[r->0 as int].kana@ == kana@,
    {
        let ghost es = self.entries@;
        let mut i: usize = 0;
        proof {
            assert(es.skip(0) =~= es);
        }
        while i < self.entries.len()
            invariant
                i <= es.len(),
                es == self.entries@,
                spec_find_word(es, kanji@, kana@) is Some <==> spec_find_word(
                    es.skip(i as int),
                    kanji@,
                    kana@,
                ) is Some,
                spec_find_word(es, kanji@, kana@) is Some ==> spec_find_word(
                    es,
                    kanji@,
                    kana@,
                )->0 == spec_find_word(es.skip(i as int), kanji@, kana@)->0 + i,
            decreases es.len() - i,
        {
            let ghost pre = es.skip(i as int);
            if str_eq(self.entries[i].kanji.as_str(), kanji) && str_eq(
                self.entries[i].kana.as_str(),
                kana,
            ) {
                proof {
                    assert(pre[0] == es[i as int]);
                }
                return Some(i);
            }
            i = i + 1;
            proof {
                assert(pre.drop_first() =~= es.skip(i as int));
            }
        }
        proof {
            assert(es.skip(es.len() as int) =~= Seq::<WordSlot>::empty());
        }
        None
    }
}

/// Ascending by ordering value.
pub open spec fn sorted_asc(gs: Seq<Glossary>) -> bool {
    forall|i: int, j: int|
        0 <= i < j < gs.len() ==> (#[trigger] gs[i]).order <= (#[trigger] gs[j]).order
}

/// Descending by ordering value.
pub open spec fn sorted_desc(gs: Seq<Glossary>) -> bool {
    forall|i: int, j: int|
        0 <= i < j < gs.len() ==> (#[trigger] gs[i]).order >= (#[trigger] gs[j]).order
}

/// Sorts sense blocks by their ordering value, ascending or descending;
/// the result is a permutation of the input.
pub fn sort_glossaries(v: Vec<Glossary>, ascending: bool) -> (r: Vec<Glossary>)
    ensures
        r@.to_multiset() == v@.to_multiset(),
        ascending ==> sorted_asc(r@),
        !ascending ==> sorted_desc(r@),
{
    broadcast use vstd::seq_lib::group_to_multiset_ensures;

    let mut input = v;
    let mut out: Vec<Glossary> = Vec::new();
    proof {
        assert(out@.to_multiset().add(input@.to_multiset()) =~= v@.to_multiset());
    }
    while input.len() > 0
        invariant
            out@.to_multiset().add(input@.to_multiset()) == v@.to_multiset(),
            ascending ==> sorted_asc(out@),
            !ascending ==> sorted_desc(out@),
            forall|i: int, j: int|
                0 <= i < out@.len() && 0 <= j < input@.len() ==> (ascending ==> (
                #[trigger] out@[i]).order <= (#[trigger] input@[j]).order) && (!ascending ==> out@[
                    i].order >= input@[j].order),
        decreases input@.len(),
    {
        let mut best: usize = 0;
        let mut k: usize = 1;
        while k < input.len()
            invariant
                input@.len() > 0,
                best < input@.len(),
                k <= input@.len(),
                forall|j: int|
                    0 <= j < k ==> (ascending ==> input@[best as int].order <= (
                    #[trigger] input@[j]).order) && (!ascending ==> input@[best as int].order
                        >= input@[j].order),
            decreases input@.len() - k,
        {
            if ascending {
                if input[k].order < input[best].order {
                    best = k;
                }
            } else {
                if input[k].order > input[best].order {
                    best = k;
                }
            }
            k = k + 1;
        }
        let ghost inprev = input@;
        let ghost outprev = out@;
        let g = input.remove(best);
        out.push(g);
        proof {
            broadcast use vstd::seq_lib::group_to_multiset_ensures;

            assert(inprev.remove(best as int).to_multiset() =~= inprev.to_multiset().remove(
                inprev[best as int],
            ));
            assert(out@.to_multiset() =~= outprev.to_multiset().insert(g));
            assert(out@.to_multiset().add(input@.to_multiset()) =~= v@.to_multiset()) by {
                assert(inprev.to_multiset().count(g) > 0) by {
                    assert(inprev[best as int] == g);
                };
            };
            assert(forall|j: int|
                0 <= j < input@.len() ==> input@[j] == inprev[j] || input@[j] == inprev[j + 1]);
            assert(forall|i: int| 0 <= i < outprev.len() ==> out@[i] == outprev[i]);
            assert(out@[outprev.len() as int] == g);
        }
    }
    proof {
        assert(input@.to_multiset() =~= Multiset::<Glossary>::empty());
        assert(out@.to_multiset().add(Multiset::<Glossary>::empty()) =~= out@.to_multiset());
    }
    out
}

/// The kanji accumulator, keyed by the character; a character appears at
/// most once.
pub struct KanjiTable {
    pub entries: Vec<Kanji>,
}

/// Whether the records hold pairwise different characters.
pub open spec fn kanji_keys_unique(entries: Seq<Kanji>) -> bool {
    forall|i: int, j: int|
        0 <= i < j < entries.len() ==> (#[trigger] entries[i]).kanji != (
        #[trigger] entries[j]).kanji
}

/// The index of the record for the given character, if any.
pub open spec fn spec_find_kanji(entries: Seq<Kanji>, c: char) -> Option<int>
    decreases entries.len(),
{
    if entries.len() == 0 {
        None
    } else if entries[0].kanji == c {
        Some(0)
    } else {
        match spec_find_kanji(entries.drop_first(), c) {
            Some(i) => Some(i + 1),
            None => None,
        }
    }
}

impl KanjiTable {
    /// An empty accumulator.
    pub fn new() -> (r: Self)
        ensures
            r.entries@.len() == 0,
    {
        KanjiTable { entries: Vec::new() }
    }

    /// Finds the record for the given character.
    pub fn find(&self, c: char) -> (r: Option<usize>)
        ensures
            r is Some <==> spec_find_kanji(self.entries@, c) is Some,
            r is Some ==> Some(r->0 as int) == spec_find_kanji(self.entries@, c) && r->0
                < self.entries@.len() && self.entries@[r->0 as int].kanji == c,
    {
        let ghost es = self.entries@;
        let mut i: usize = 0;
        proof {
            assert(es.skip(0) =~= es);
        }
        while i < self.entries.len()
            invariant
                i <= es.len(),
                es == self.entries@,
                spec_find_kanji(es, c) is Some <==> spec_find_kanji(es.skip(i as int), c)
                    is Some,
                spec_find_kanji(es, c) is Some ==> spec_find_kanji(es, c)->0 == spec_find_kanji(
                    es.skip(i as int),
                    c,
                )->0 + i,
            decreases es.len() - i,
        {
            let ghost pre = es.skip(i as int);
            if self.entries[i].kanji == c {
                proof {
                    assert(pre[0] == es[i as int]);
                }
                return Some(i);
            }
            i = i + 1;
            proof {
                assert(pre.drop_first() =~= es.skip(i as int));
            }
        }
        proof {
            assert(es.skip(es.len() as int) =~= Seq::<Kanji>::empty());
        }
        None
    }
}

/// What every dictionary source implements: contributing kanji data and
/// word data to the shared accumulators.  An unrecognized record reports an
/// error instead of contributing, and ingestion stops on it.
pub trait ConvertableJmnedicData: Sized {
    /// Whether the raw record matched none of the recognized shapes.
    spec fn is_unrecognized(&self) -> bool;

    /// How this record is allowed to change the kanji table.
    spec fn kanji_step(&self, before: Seq<Kanji>, after: Seq<Kanji>) -> bool;

    /// How this record is allowed to change the word table, given the
    /// readings the aligner may consult.
    spec fn word_step(
        &self,
        before: Seq<WordSlot>,
        after: Seq<WordSlot>,
        readings: Seq<(char, Seq<Seq<char>>)>,
    ) -> bool;

    /// Adds this record's kanji-character data to the table.
    fn convert_kanji_data(&self, kanji: &mut KanjiTable) -> (r: Result<(), String>)
        ensures
            r is Err <==> self.is_unrecognized(),
            self.kanji_step(old(kanji).entries@, final(kanji).entries@),
    ;

    /// Adds this record's word data to the table, synthesizing a display
    /// spelling through the reading aligner for a new key.
    fn convert_word_data(
        &self,
        words: &mut WordTable,
        kanji_readings: &Vec<(char, Vec<String>)>,
    ) -> (r: Result<(), String>)
        ensures
            r is Err <==> self.is_unrecognized(),
            r is Err ==> final(words).entries@ == old(words).entries@,
            r is Ok ==> self.word_step(
                old(words).entries@,
                final(words).entries@,
                crate::furigana::table_views(kanji_readings@),
            ),
    ;
}

/// The states a record list drives the kanji table through: one table per
/// position, each step licensed by its record.
pub open spec fn kanji_chain<T: ConvertableJmnedicData>(
    data: Seq<T>,
    states: Seq<Seq<Kanji>>,
) -> bool {
    &&& states.len() == data.len() + 1
    &&& forall|i: int|
        0 <= i < data.len() ==> (#[trigger] data[i]).kanji_step(states[i], states[i + 1])
}

/// The states a record list drives the word table through.
pub open spec fn word_chain<T: ConvertableJmnedicData>(
    data: Seq<T>,
    states: Seq<Seq<WordSlot>>,
    readings: Seq<(char, Seq<Seq<char>>)>,
) -> bool {
    &&& states.len() == data.len() + 1
    &&& forall|i: int|
        0 <= i < data.len() ==> (#[trigger] data[i]).word_step(
            states[i],
            states[i + 1],
            readings,
        )
}

/// Every snapshot entry is one accumulated slot's record with its sense
/// blocks reordered.
/// The keyed snapshot entries, as mathematical values.
pub open spec fn out_views(v: Seq<(String, Word)>) -> Seq<(Seq<char>, Word)> {
    v.map_values(|p: (String, Word)| (p.0@, p.1))
}

/// The index of the snapshot entry with the given key, if any.
pub open spec fn spec_find_out(acc: Seq<(Seq<char>, Word)>, key: Seq<char>) -> Option<int>
    decreases acc.len(),
{
    if acc.len() == 0 {
        None
    } else if acc[0].0 == key {
        Some(0)
    } else {
        match spec_find_out(acc.drop_first(), key) {
            Some(i) => Some(i + 1),
            None => None,
        }
    }
}

/// A found index is in range and carries the key.
proof fn lemma_find_out_bounds(acc: Seq<(Seq<char>, Word)>, key: Seq<char>)
    requires
        spec_find_out(acc, key) is Some,
    ensures
        0 <= spec_find_out(acc, key)->0 < acc.len(),
        acc[spec_find_out(acc, key)->0].0 == key,
    decreases acc.len(),
{
    if acc.len() > 0 && acc[0].0 != key {
        lemma_find_out_bounds(acc.drop_first(), key);
        assert(acc.drop_first()[spec_find_out(acc.drop_first(), key)->0] == acc[
            spec_find_out(acc, key)->0]);
    }
}

/// One word joins the snapshot under its display spelling: it replaces the
/// entry already keyed by that spelling, or is appended.
pub open spec fn rekey_step(acc: Seq<(Seq<char>, Word)>, w: Word) -> Seq<(Seq<char>, Word)> {
    let key = w.furigana@;
    match spec_find_out(acc, key) {
        Some(i) => acc.update(i, (key, w)),
        None => acc.push((key, w)),
    }
}

/// The words `k..` folded into the snapshot in order, the last word for a
/// display spelling winning.
pub open spec fn spec_rekey_words(ws: Seq<Word>, k: int, acc: Seq<(Seq<char>, Word)>) -> Seq<
    (Seq<char>, Word),
>
    decreases ws.len() - k,
{
    if k < 0 || k >= ws.len() {
        acc
    } else {
        spec_rekey_words(ws, k + 1, rekey_step(acc, ws[k]))
    }
}

/// Folding one more word is one more step on the folded prefix.
proof fn lemma_rekey_snoc(ws: Seq<Word>, x: Word, k: int, acc: Seq<(Seq<char>, Word)>)
    requires
        0 <= k <= ws.len(),
    ensures
        spec_rekey_words(ws.push(x), k, acc) == rekey_step(spec_rekey_words(ws, k, acc), x),
    decreases ws.len() - k,
{
    if k == ws.len() {
        assert(spec_rekey_words(ws.push(x), k, acc) == spec_rekey_words(
            ws.push(x),
            k + 1,
            rekey_step(acc, ws.push(x)[k]),
        ));
        assert(ws.push(x)[k] == x);
    } else {
        assert(ws.push(x)[k] == ws[k]);
        lemma_rekey_snoc(ws, x, k + 1, rekey_step(acc, ws[k]));
    }
}

/// The same record with its sense blocks reordered descending.
pub open spec fn sorted_variant(w2: Word, w: Word) -> bool {
    &&& w2.word_id == w.word_id
    &&& w2.furigana == w.furigana
    &&& w2.glossary@.to_multiset() == w.glossary@.to_multiset()
    &&& sorted_desc(w2.glossary@)
    &&& w2.frequency == w.frequency
    &&& w2.examples == w.examples
}

/// A readings table drawn from the kanji records: one row per record, its
/// character with that record's plain-kana reading set.
pub open spec fn readings_for(
    readings: Seq<(char, Seq<Seq<char>>)>,
    entries: Seq<Kanji>,
) -> bool {
    &&& readings.len() == entries.len()
    &&& forall|i: int|
        0 <= i < entries.len() ==> {
            &&& (#[trigger] readings[i]).0 == entries[i].kanji
            &&& readings[i].1.to_set() == crate::entry::readings_to(
                entries[i].onyomi@,
                entries[i].onyomi@.len() as int,
            ) + crate::entry::readings_to(
                entries[i].kunyomi@,
                entries[i].kunyomi@.len() as int,
            )
        }
}

/// The whole kanji ingestion: the table is driven from empty to its final
/// state by the records, in order.
pub open spec fn kanji_pipeline<T: ConvertableJmnedicData>(
    data: Seq<T>,
    states: Seq<Seq<Kanji>>,
    final_entries: Seq<Kanji>,
) -> bool {
    &&& kanji_chain(data, states)
    &&& states[0] == Seq::<Kanji>::empty()
    &&& states[states.len() - 1] == final_entries
}

/// The whole word ingestion: the accumulator is driven from empty to
/// `final_table` by the records over a readings table drawn from the kanji
/// records; the snapshot is exactly the re-keying, by display spelling with
/// the last entry winning, of the accumulated slots with their sense blocks
/// sorted descending.
pub open spec fn word_pipeline<T: ConvertableJmnedicData>(
    data: Seq<T>,
    kanji_entries: Seq<Kanji>,
    out: Seq<(String, Word)>,
    states: Seq<Seq<WordSlot>>,
    readings: Seq<(char, Seq<Seq<char>>)>,
    final_table: Seq<WordSlot>,
    sorted_ws: Seq<Word>,
) -> bool {
    &&& word_chain(data, states, readings)
    &&& readings_for(readings, kanji_entries)
    &&& states[0] == Seq::<WordSlot>::empty()
    &&& states[states.len() - 1] == final_table
    &&& sorted_ws.len() == final_table.len()
    &&& (forall|i: int|
        0 <= i < sorted_ws.len() ==> #[trigger] sorted_variant(
            sorted_ws[i],
            final_table[i].word,
        ))
    &&& out_views(out) == spec_rekey_words(sorted_ws, 0, Seq::empty())
}

/// Builds the kanji table: every record contributes its character data in
/// order; unrecognized records are passed over here (word conversion
/// rejects them).
pub fn convert_kanji_data<T: ConvertableJmnedicData>(data: &Vec<T>) -> (r: KanjiTable)
    ensures
        exists|states: Seq<Seq<Kanji>>| #[trigger] kanji_pipeline(data@, states, r.entries@),
{
    let mut kanji = KanjiTable::new();
    let ghost mut states: Seq<Seq<Kanji>> = seq![kanji.entries@];
    proof {
        assert(kanji.entries@ =~= Seq::<Kanji>::empty());
    }
    let mut i: usize = 0;
    while i < data.len()
        invariant
            i <= data@.len(),
            states.len() == i + 1,
            states[0] == Seq::<Kanji>::empty(),
            states[i as int] == kanji.entries@,
            forall|j: int|
                0 <= j < i ==> (#[trigger] data@[j]).kanji_step(states[j], states[j + 1]),
        decreases data@.len() - i,
    {
        let _ = data[i].convert_kanji_data(&mut kanji);
        proof {
            states = states.push(kanji.entries@);
        }
        i = i + 1;
    }
    proof {
        assert(kanji_pipeline(data@, states, kanji.entries@)) by {
            assert(kanji_chain(data@, states));
            assert(states[states.len() - 1] == kanji.entries@);
        };
    }
    kanji
}

/// The readings table the aligner consumes: each kanji character with its
/// plain-kana readings.
pub fn build_readings(kanji: &KanjiTable) -> (r: Vec<(char, Vec<String>)>)
    ensures
        readings_for(crate::furigana::table_views(r@), kanji.entries@),
{
    let mut out: Vec<(char, Vec<String>)> = Vec::new();
    let mut i: usize = 0;
    while i < kanji.entries.len()
        invariant
            i <= kanji.entries@.len(),
            out@.len() == i,
            forall|j: int|
                0 <= j < i ==> {
                    &&& (#[trigger] out@[j]).0 == kanji.entries@[j].kanji
                    &&& strs_views(out@[j].1@).to_set() == crate::entry::readings_to(
                        kanji.entries@[j].onyomi@,
                        kanji.entries@[j].onyomi@.len() as int,
                    ) + crate::entry::readings_to(
                        kanji.entries@[j].kunyomi@,
                        kanji.entries@[j].kunyomi@.len() as int,
                    )
                },
        decreases kanji.entries@.len() - i,
    {
        let c = kanji.entries[i].kanji;
        let rs = kanji.entries[i].readings();
        out.push((c, rs));
        i = i + 1;
    }
    proof {
        let tv = crate::furigana::table_views(out@);
        assert forall|j: int| 0 <= j < kanji.entries@.len() implies {
            &&& (#[trigger] tv[j]).0 == kanji.entries@[j].kanji
            &&& tv[j].1.to_set() == crate::entry::readings_to(
                kanji.entries@[j].onyomi@,
                kanji.entries@[j].onyomi@.len() as int,
            ) + crate::entry::readings_to(
                kanji.entries@[j].kunyomi@,
                kanji.entries@[j].kunyomi@.len() as int,
            )
        } by {
            assert(tv[j] == (out@[j].0, strs_views(out@[j].1@)));
        };
    }
    out
}

/// Builds the word table from every record, in order, and then sorts each
/// entry's sense blocks by descending ordering value and keys the result by
/// display spelling, the last record for a spelling winning.  The first
/// unrecognized record aborts the run with its error.
pub fn convert_word_data<T: ConvertableJmnedicData>(kanji: &KanjiTable, data: &Vec<T>) -> (r:
    Result<Vec<(String, Word)>, String>)
    ensures
        r is Ok <==> (forall|i: int|
            0 <= i < data@.len() ==> !(#[trigger] data@[i]).is_unrecognized()),
        r is Ok ==> forall|i: int|
            0 <= i < r->Ok_0@.len() ==> sorted_desc((#[trigger] r->Ok_0@[i]).1.glossary@),
        r is Ok ==> exists|
            states: Seq<Seq<WordSlot>>,
            readings: Seq<(char, Seq<Seq<char>>)>,
            final_table: Seq<WordSlot>,
            sorted_ws: Seq<Word>,
        |
            #[trigger] word_pipeline(
                data@,
                kanji.entries@,
                r->Ok_0@,
                states,
                readings,
                final_table,
                sorted_ws,
            ),
{
    let readings = build_readings(kanji);
    let ghost tv = crate::furigana::table_views(readings@);
    let mut words = WordTable::new();
    let ghost mut states: Seq<Seq<WordSlot>> = seq![words.entries@];
    proof {
        assert(words.entries@ =~= Seq::<WordSlot>::empty());
    }
    let mut i: usize = 0;
    while i < data.len()
        invariant
            i <= data@.len(),
            states.len() == i + 1,
            states[0] == Seq::<WordSlot>::empty(),
            states[i as int] == words.entries@,
            tv == crate::furigana::table_views(readings@),
            readings_for(tv, kanji.entries@),
            forall|j: int|
                0 <= j < i ==> (#[trigger] data@[j]).word_step(states[j], states[j + 1], tv),
            forall|j: int| 0 <= j < i ==> !(#[trigger] data@[j]).is_unrecognized(),
        decreases data@.len() - i,
    {
        match data[i].convert_word_data(&mut words, &readings) {
            Ok(()) => {},
            Err(message) => {
                return Err(message);
            },
        }
        proof {
            states = states.push(words.entries@);
        }
        i = i + 1;
    }
    proof {
        assert(word_chain(data@, states, tv));
    }
    // sort each entry's senses and key the result by display spelling
    let ghost table = words.entries@;
    let mut out: Vec<(String, Word)> = Vec::new();
    let mut entries = words.entries;
    let total: usize = entries.len();
    let mut k: usize = 0;
    let ghost n = table.len();
    let ghost mut sorted_ws: Seq<Word> = Seq::empty();
    proof {
        assert(out_views(out@) =~= spec_rekey_words(sorted_ws, 0, Seq::empty()));
    }
    while entries.len() > 0
        invariant
            entries@.len() + k == n,
            k <= total,
            n == total,
            forall|q: int| 0 <= q < entries@.len() ==> entries@[q] == table[q + k],
            n == table.len(),
            sorted_ws.len() == k,
            forall|q: int|
                0 <= q < k ==> #[trigger] sorted_variant(sorted_ws[q], table[q].word),
            out_views(out@) == spec_rekey_words(sorted_ws, 0, Seq::empty()),
            forall|j: int| 0 <= j < out@.len() ==> sorted_desc((#[trigger] out@[j]).1.glossary@),
        decreases entries@.len(),
    {
        let ghost entprev = entries@;
        let slot = entries.remove(0);
        proof {
            assert(slot == table[k as int]);
            assert(forall|q: int|
                0 <= q < entries@.len() ==> entries@[q] == entprev[q + 1]);
        }
        let w = slot.word;
        let sorted = sort_glossaries(w.glossary, false);
        let w2 = Word::new(w.word_id, w.furigana, sorted, w.frequency, w.examples);
        let key = w2.furigana.clone();
        let ghost outprev = out@;
        let ghost w2v = w2;
        let ghost sorted_prev = sorted_ws;
        replace_or_push(&mut out, key, w2);
        proof {
            sorted_ws = sorted_ws.push(w2v);
            assert(sorted_variant(w2v, table[k as int].word));
            lemma_rekey_snoc(sorted_prev, w2v, 0, Seq::empty());
            assert(out_views(out@) == rekey_step(out_views(outprev), w2v));
            assert(out_views(out@) == spec_rekey_words(sorted_ws, 0, Seq::empty()));
            assert forall|q: int|
                0 <= q < k + 1 implies #[trigger] sorted_variant(
                sorted_ws[q],
                table[q].word,
            ) by {
                if q < k {
                    assert(sorted_ws[q] == sorted_prev[q]);
                }
            };
            assert forall|q: int| 0 <= q < sorted_ws.len() implies sorted_desc(
                (#[trigger] sorted_ws[q]).glossary@,
            ) by {
                assert(sorted_variant(sorted_ws[q], table[q].word));
            };
            assert forall|j: int| 0 <= j < out@.len() implies sorted_desc(
                (#[trigger] out@[j]).1.glossary@,
            ) by {
                assert(out_views(out@)[j] == (out@[j].0@, out@[j].1));
                lemma_rekey_entries_sorted(sorted_ws, 0, Seq::empty(), out_views(out@), j);
            };
        }
        k = k + 1;
    }
    let result = Ok(out);
    proof {
        assert(states[states.len() - 1] == table);
        assert(word_pipeline(
            data@,
            kanji.entries@,
            result->Ok_0@,
            states,
            tv,
            table,
            sorted_ws,
        ));
    }
    result
}

/// Every entry of a fold over sorted words has sorted sense blocks.
proof fn lemma_rekey_entries_sorted(
    ws: Seq<Word>,
    k: int,
    acc: Seq<(Seq<char>, Word)>,
    out: Seq<(Seq<char>, Word)>,
    j: int,
)
    requires
        0 <= k <= ws.len(),
        forall|q: int| 0 <= q < ws.len() ==> sorted_desc((#[trigger] ws[q]).glossary@),
        forall|q: int| 0 <= q < acc.len() ==> sorted_desc((#[trigger] acc[q]).1.glossary@),
        out == spec_rekey_words(ws, k, acc),
        0 <= j < out.len(),
    ensures
        sorted_desc(out[j].1.glossary@),
    decreases ws.len() - k,
{
    if k < ws.len() {
        let next = rekey_step(acc, ws[k]);
        assert(forall|q: int|
            0 <= q < next.len() ==> sorted_desc((#[trigger] next[q]).1.glossary@)) by {
            match spec_find_out(acc, ws[k].furigana@) {
                Some(i) => {
                    lemma_find_out_bounds(acc, ws[k].furigana@);
                    assert(forall|q: int|
                        0 <= q < next.len() && q != i ==> next[q] == acc[q]);
                    assert(next[i].1 == ws[k]);
                },
                None => {
                    assert(forall|q: int| 0 <= q < acc.len() ==> next[q] == acc[q]);
                    assert(next[acc.len() as int].1 == ws[k]);
                },
            }
        };
        lemma_rekey_entries_sorted(ws, k + 1, next, out, j);
    }
}

/// Replaces the entry keyed by the word's display spelling, or appends a
/// new one: the last record for a display spelling wins.
fn replace_or_push(out: &mut Vec<(String, Word)>, key: String, w: Word)
    requires
        key@ == w.furigana@,
    ensures
        out_views(final(out)@) == rekey_step(out_views(old(out)@), w),
{
    let ghost acc = out_views(out@);
    let mut i: usize = 0;
    let n: usize = out.len();
    proof {
        assert(acc.skip(0) =~= acc);
    }
    while i < n
        invariant
            i <= n,
            n == out@.len(),
            out@ == old(out)@,
            acc == out_views(out@),
            key@ == w.furigana@,
            spec_find_out(acc, key@) is Some <==> spec_find_out(acc.skip(i as int), key@)
                is Some,
            spec_find_out(acc, key@) is Some ==> spec_find_out(acc, key@)->0 == spec_find_out(
                acc.skip(i as int),
                key@,
            )->0 + i,
        decreases n - i,
    {
        let ghost pre = acc.skip(i as int);
        if str_eq(out[i].0.as_str(), key.as_str()) {
            proof {
                assert(pre[0] == acc[i as int]);
                assert(spec_find_out(acc, key@) == Some(i as int));
            }
            out.set(i, (key, w));
            proof {
                assert(out_views(out@) =~= acc.update(i as int, (w.furigana@, w)));
            }
            return;
        }
        i = i + 1;
        proof {
            assert(pre.drop_first() =~= acc.skip(i as int));
        }
    }
    proof {
        assert(acc.skip(n as int) =~= Seq::<(Seq<char>, Word)>::empty());
        assert(spec_find_out(acc, key@) is None);
    }
    out.push((key, w));
    proof {
        assert(out_views(out@) =~= acc.push((w.furigana@, w)));
    }
}

/// Builds both accumulators from one record list: kanji first, then words
/// (whose display spellings need the kanji readings).
pub fn convert_data<T: ConvertableJmnedicData>(data: &Vec<T>) -> (r: Result<
    (KanjiTable, Vec<(String, Word)>),
    String,
>)
    ensures
        r is Ok <==> (forall|i: int|
            0 <= i < data@.len() ==> !(#[trigger] data@[i]).is_unrecognized()),
        r is Ok ==> exists|kstates: Seq<Seq<Kanji>>|
            #[trigger] kanji_pipeline(data@, kstates, r->Ok_0.0.entries@),
        r is Ok ==> forall|i: int|
            0 <= i < r->Ok_0.1@.len() ==> sorted_desc((#[trigger] r->Ok_0.1@[i]).1.glossary@),
        r is Ok ==> exists|
            states: Seq<Seq<WordSlot>>,
            readings: Seq<(char, Seq<Seq<char>>)>,
            final_table: Seq<WordSlot>,
            sorted_ws: Seq<Word>,
        |
            #[trigger] word_pipeline(
                data@,
                r->Ok_0.0.entries@,
                r->Ok_0.1@,
                states,
                readings,
                final_table,
                sorted_ws,
            ),
{
    let kanji = convert_kanji_data(data);
    match convert_word_data(&kanji, data) {
        Ok(words) => {
            let result = Ok((kanji, words));
            proof {
                let kstates = choose|kstates: Seq<Seq<Kanji>>|
                    #[trigger] kanji_pipeline(data@, kstates, result->Ok_0.0.entries@);
                let (states, readings, final_table, sorted_ws) = choose|
                    states: Seq<Seq<WordSlot>>,
                    readings: Seq<(char, Seq<Seq<char>>)>,
                    final_table: Seq<WordSlot>,
                    sorted_ws: Seq<Word>,
                |
                    #[trigger] word_pipeline(
                        data@,
                        result->Ok_0.0.entries@,
                        result->Ok_0.1@,
                        states,
                        readings,
                        final_table,
                        sorted_ws,
                    );
            }
            result
        },
        Err(message) => Err(message),
    }
}

/// How one word contribution changes the accumulator: an existing slot for
/// the raw key is updated in place (identifier overwritten, one sense
/// appended, tag and example sets united), and a missing key gains a fresh
/// slot whose display spelling `disp` the caller synthesized.
pub open spec fn merged_update(
    old_entries: Seq<WordSlot>,
    new_entries: Seq<WordSlot>,
    kj: Seq<char>,
    kn: Seq<char>,
    id: int,
    g: Glossary,
    sort_after: bool,
    freq: Set<Seq<char>>,
    exs: Seq<(Seq<char>, Seq<char>)>,
    idx: int,
) -> bool {
    &&& 0 <= idx < old_entries.len()
    &&& new_entries.len() == old_entries.len()
    &&& (forall|j: int|
        0 <= j < old_entries.len() && j != idx ==> new_entries[j] == old_entries[j])
    &&& new_entries[idx].kanji@ == kj
    &&& new_entries[idx].kana@ == kn
    &&& new_entries[idx].word.word_id == id
    &&& new_entries[idx].word.furigana == old_entries[idx].word.furigana
    &&& new_entries[idx].word.glossary@.to_multiset() == old_entries[
        idx].word.glossary@.to_multiset().insert(g)
    &&& (sort_after ==> sorted_asc(new_entries[idx].word.glossary@))
    &&& (!sort_after ==> new_entries[idx].word.glossary@ == old_entries[
        idx].word.glossary@.push(g))
    &&& strs_views(new_entries[idx].word.frequency@).to_set() == strs_views(
        old_entries[idx].word.frequency@,
    ).to_set() + freq
    &&& (distinct_strs(old_entries[idx].word.frequency@) ==> distinct_strs(
        new_entries[idx].word.frequency@,
    ))
    &&& (forall|y: (Seq<char>, Seq<char>)|
        #[trigger] crate::entry::contains_ex(new_entries[idx].word.examples@, y) <==> (
        crate::entry::contains_ex(old_entries[idx].word.examples@, y) || exs.contains(y)))
}

pub open spec fn merged_fresh(
    old_entries: Seq<WordSlot>,
    new_entries: Seq<WordSlot>,
    kj: Seq<char>,
    kn: Seq<char>,
    id: int,
    g: Glossary,
    freq: Set<Seq<char>>,
    exs: Seq<(Seq<char>, Seq<char>)>,
    disp: Seq<char>,
) -> bool {
    &&& new_entries.len() == old_entries.len() + 1
    &&& (forall|j: int| 0 <= j < old_entries.len() ==> new_entries[j] == old_entries[j])
    &&& new_entries[old_entries.len() as int].kanji@ == kj
    &&& new_entries[old_entries.len() as int].kana@ == kn
    &&& new_entries[old_entries.len() as int].word.word_id == id
    &&& new_entries[old_entries.len() as int].word.furigana@ == disp
    &&& new_entries[old_entries.len() as int].word.glossary@ == seq![g]
    &&& strs_views(new_entries[old_entries.len() as int].word.frequency@).to_set() == freq
    &&& (forall|y: (Seq<char>, Seq<char>)|
        #[trigger] crate::entry::contains_ex(
            new_entries[old_entries.len() as int].word.examples@,
            y,
        ) <==> exs.contains(y))
}

/// How one word contribution changes the accumulator: an existing slot for
/// the raw key is updated in place (identifier overwritten, one sense
/// appended, tag and example sets united), and a missing key gains a fresh
/// slot whose display spelling `disp` the caller synthesized.
pub open spec fn merged_into(
    old_entries: Seq<WordSlot>,
    new_entries: Seq<WordSlot>,
    kj: Seq<char>,
    kn: Seq<char>,
    id: int,
    g: Glossary,
    sort_after: bool,
    freq: Set<Seq<char>>,
    exs: Seq<(Seq<char>, Seq<char>)>,
    disp: Seq<char>,
) -> bool {
    match spec_find_word(old_entries, kj, kn) {
        Some(i) => merged_update(
            old_entries,
            new_entries,
            kj,
            kn,
            id,
            g,
            sort_after,
            freq,
            exs,
            i,
        ),
        None => merged_fresh(old_entries, new_entries, kj, kn, id, g, freq, exs, disp),
    }
}

/// The display spelling a fresh slot receives: exactly the aligner's
/// deterministic answer when one exists, else the whole reading bracketed
/// after the whole spelling.
pub open spec fn disp_synthesized(
    disp: Seq<char>,
    kj: Seq<char>,
    kn: Seq<char>,
    t: Seq<(char, Seq<Seq<char>>)>,
) -> bool {
    if crate::furigana::spec_alignable(kj, kn, t) {
        Some(disp) == crate::furigana::spec_to_furigana(kj, kn, t)
    } else {
        disp == kj + seq!['['] + kn + seq![']']
    }
}

proof fn lemma_exview_push(u: Seq<crate::entry::Example>, x: crate::entry::Example)
    ensures
        crate::entry::ex_views(u.push(x)) == crate::entry::ex_views(u).push(
            crate::entry::ex_view(x),
        ),
{
    assert forall|j: int| 0 <= j < u.len() + 1 implies crate::entry::ex_views(u.push(x))[j]
        == crate::entry::ex_views(u).push(crate::entry::ex_view(x))[j] by {
        if j < u.len() {
            assert(u.push(x)[j] == u[j]);
        } else {
            assert(u.push(x)[j] == x);
        }
    };
    assert(crate::entry::ex_views(u.push(x)) =~= crate::entry::ex_views(u).push(
        crate::entry::ex_view(x),
    ));
}

proof fn lemma_pairview_push(u: Seq<(String, String)>, x: (String, String))
    ensures
        crate::dict::jmnedict_word::pair_views(u.push(x)) == crate::dict::jmnedict_word::pair_views(
            u,
        ).push((x.0@, x.1@)),
{
    assert forall|j: int| 0 <= j < u.len() + 1 implies crate::dict::jmnedict_word::pair_views(
        u.push(x),
    )[j] == crate::dict::jmnedict_word::pair_views(u).push((x.0@, x.1@))[j] by {
        if j < u.len() {
            assert(u.push(x)[j] == u[j]);
        } else {
            assert(u.push(x)[j] == x);
        }
    };
    assert(crate::dict::jmnedict_word::pair_views(u.push(x))
        =~= crate::dict::jmnedict_word::pair_views(u).push((x.0@, x.1@)));
}

/// Converts rendered sentence pairs into example records.
pub fn pairs_to_examples(v: &Vec<(String, String)>) -> (r: Vec<crate::entry::Example>)
    ensures
        crate::entry::ex_views(r@) == crate::dict::jmnedict_word::pair_views(v@),
{
    let mut r: Vec<crate::entry::Example> = Vec::new();
    let mut i: usize = 0;
    while i < v.len()
        invariant
            i <= v@.len(),
            crate::entry::ex_views(r@) == crate::dict::jmnedict_word::pair_views(
                v@.subrange(0, i as int),
            ),
        decreases v@.len() - i,
    {
        let ghost rprev = r@;
        let e = crate::entry::Example::new(v[i].0.clone(), v[i].1.clone());
        r.push(e);
        i = i + 1;
        proof {
            lemma_exview_push(rprev, e);
            assert(v@.subrange(0, i as int) =~= v@.subrange(0, i as int - 1).push(
                v@[i as int - 1],
            ));
            lemma_pairview_push(v@.subrange(0, i as int - 1), v@[i as int - 1]);
            assert(crate::entry::ex_views(r@) =~= crate::dict::jmnedict_word::pair_views(
                v@.subrange(0, i as int),
            ));
        }
    }
    assert(v@.subrange(0, v@.len() as int) =~= v@);
    r
}

/// Membership carries across equal view sequences.
pub proof fn lemma_ex_member_bridge(
    conv: Seq<crate::entry::Example>,
    pairs: Seq<(Seq<char>, Seq<char>)>,
    y: (Seq<char>, Seq<char>),
)
    requires
        crate::entry::ex_views(conv) == pairs,
    ensures
        crate::entry::contains_ex(conv, y) <==> pairs.contains(y),
{
    if crate::entry::contains_ex(conv, y) {
        let i = choose|i: int|
            0 <= i < conv.len() && crate::entry::ex_view(#[trigger] conv[i]) == y;
        assert(pairs[i] == y);
    }
    if pairs.contains(y) {
        let i = choose|i: int| 0 <= i < pairs.len() && pairs[i] == y;
        assert(crate::entry::ex_view(conv[i]) == y);
    }
}

/// Builds the display spelling for a fresh slot: the aligner's rendering,
/// or the bracketed fallback.
pub fn synthesize_display(kanji: &str, kana: &str, readings: &Vec<(char, Vec<String>)>) -> (r:
    String)
    ensures
        disp_synthesized(r@, kanji@, kana@, crate::furigana::table_views(readings@)),
{
    match crate::furigana::to_furigana(kanji, kana, readings) {
        Some(f) => f,
        None => {
            let mut out = kanji.to_owned();
            crate::text::push_str_all(&mut out, "[");
            crate::text::push_str_all(&mut out, kana);
            crate::text::push_str_all(&mut out, "]");
            proof {
                reveal_strlit("[");
                reveal_strlit("]");
                assert(out@ =~= kanji@ + seq!['['] + kana@ + seq![']']);
            }
            out
        },
    }
}

/// Concludes the update-branch merge relation from its parts.
pub proof fn lemma_conclude_update(
    old_entries: Seq<WordSlot>,
    new_entries: Seq<WordSlot>,
    kj: Seq<char>,
    kn: Seq<char>,
    id: int,
    g: Glossary,
    sort_after: bool,
    freq: Set<Seq<char>>,
    exs_conv: Seq<crate::entry::Example>,
    pairs: Seq<(Seq<char>, Seq<char>)>,
    disp: Seq<char>,
    idx: int,
)
    requires
        spec_find_word(old_entries, kj, kn) == Some(idx),
        0 <= idx < old_entries.len(),
        new_entries.len() == old_entries.len(),
        forall|j: int| 0 <= j < old_entries.len() && j != idx ==> new_entries[j] == old_entries[j],
        new_entries[idx].kanji@ == kj,
        new_entries[idx].kana@ == kn,
        new_entries[idx].word.word_id == id,
        new_entries[idx].word.furigana == old_entries[idx].word.furigana,
        new_entries[idx].word.glossary@.to_multiset()
            == old_entries[idx].word.glossary@.to_multiset().insert(g),
        sort_after ==> sorted_asc(new_entries[idx].word.glossary@),
        !sort_after ==> new_entries[idx].word.glossary@ == old_entries[idx].word.glossary@.push(
            g,
        ),
        strs_views(new_entries[idx].word.frequency@).to_set() == strs_views(
            old_entries[idx].word.frequency@,
        ).to_set() + freq,
        distinct_strs(old_entries[idx].word.frequency@) ==> distinct_strs(
            new_entries[idx].word.frequency@,
        ),
        crate::entry::ex_views(exs_conv) == pairs,
        forall|y: (Seq<char>, Seq<char>)|
            #[trigger] crate::entry::contains_ex(new_entries[idx].word.examples@, y) <==> (
            crate::entry::contains_ex(old_entries[idx].word.examples@, y)
                || crate::entry::contains_ex(exs_conv, y)),
    ensures
        merged_into(old_entries, new_entries, kj, kn, id, g, sort_after, freq, pairs, disp),
{
    assert forall|y: (Seq<char>, Seq<char>)|
        crate::entry::contains_ex(new_entries[idx].word.examples@, y) <==> (
    crate::entry::contains_ex(old_entries[idx].word.examples@, y) || pairs.contains(y)) by {
        lemma_ex_member_bridge(exs_conv, pairs, y);
    };
    assert(merged_update(old_entries, new_entries, kj, kn, id, g, sort_after, freq, pairs, idx));
}

/// Concludes the fresh-slot merge relation from its parts.
pub proof fn lemma_conclude_insert(
    old_entries: Seq<WordSlot>,
    new_entries: Seq<WordSlot>,
    kj: Seq<char>,
    kn: Seq<char>,
    id: int,
    g: Glossary,
    sort_after: bool,
    freq: Set<Seq<char>>,
    exs_conv: Seq<crate::entry::Example>,
    pairs: Seq<(Seq<char>, Seq<char>)>,
    disp: Seq<char>,
)
    requires
        spec_find_word(old_entries, kj, kn) is None,
        new_entries.len() == old_entries.len() + 1,
        forall|j: int| 0 <= j < old_entries.len() ==> new_entries[j] == old_entries[j],
        new_entries[old_entries.len() as int].kanji@ == kj,
        new_entries[old_entries.len() as int].kana@ == kn,
        new_entries[old_entries.len() as int].word.word_id == id,
        new_entries[old_entries.len() as int].word.furigana@ == disp,
        new_entries[old_entries.len() as int].word.glossary@ == seq![g],
        strs_views(new_entries[old_entries.len() as int].word.frequency@).to_set() == freq,
        crate::entry::ex_views(exs_conv) == pairs,
        forall|y: (Seq<char>, Seq<char>)|
            #[trigger] crate::entry::contains_ex(
                new_entries[old_entries.len() as int].word.examples@,
                y,
            ) <==> crate::entry::contains_ex(exs_conv, y),
    ensures
        merged_into(old_entries, new_entries, kj, kn, id, g, sort_after, freq, pairs, disp),
{
    assert forall|y: (Seq<char>, Seq<char>)|
        crate::entry::contains_ex(new_entries[old_entries.len() as int].word.examples@, y)
            <==> pairs.contains(y) by {
        lemma_ex_member_bridge(exs_conv, pairs, y);
    };
    assert(merged_fresh(old_entries, new_entries, kj, kn, id, g, freq, pairs, disp));
}

/// The union parts of merging are order-independent: feeding two
/// contributions to the same slot in either order leaves the same tag set,
/// the same example set, and the same multiset of senses; only the
/// identifier (last write) depends on the order.
pub proof fn lemma_merge_order_independent(
    e0: Seq<WordSlot>,
    e1: Seq<WordSlot>,
    e2: Seq<WordSlot>,
    e1b: Seq<WordSlot>,
    e2b: Seq<WordSlot>,
    kj: Seq<char>,
    kn: Seq<char>,
    id1: int,
    id2: int,
    g1: Glossary,
    g2: Glossary,
    sa1: bool,
    sa2: bool,
    sb1: bool,
    sb2: bool,
    f1: Set<Seq<char>>,
    f2: Set<Seq<char>>,
    x1: Seq<(Seq<char>, Seq<char>)>,
    x2: Seq<(Seq<char>, Seq<char>)>,
    idx: int,
)
    requires
        merged_update(e0, e1, kj, kn, id1, g1, sa1, f1, x1, idx),
        merged_update(e1, e2, kj, kn, id2, g2, sa2, f2, x2, idx),
        merged_update(e0, e1b, kj, kn, id2, g2, sb1, f2, x2, idx),
        merged_update(e1b, e2b, kj, kn, id1, g1, sb2, f1, x1, idx),
    ensures
        strs_views(e2[idx].word.frequency@).to_set() == strs_views(
            e2b[idx].word.frequency@,
        ).to_set(),
        forall|y: (Seq<char>, Seq<char>)|
            #[trigger] crate::entry::contains_ex(e2[idx].word.examples@, y)
                <==> crate::entry::contains_ex(e2b[idx].word.examples@, y),
        e2[idx].word.glossary@.to_multiset() == e2b[idx].word.glossary@.to_multiset(),
{
    assert(strs_views(e2[idx].word.frequency@).to_set() =~= (strs_views(
        e0[idx].word.frequency@,
    ).to_set() + f1) + f2);
    assert(strs_views(e2b[idx].word.frequency@).to_set() =~= (strs_views(
        e0[idx].word.frequency@,
    ).to_set() + f2) + f1);
    assert((strs_views(e0[idx].word.frequency@).to_set() + f1) + f2 =~= (strs_views(
        e0[idx].word.frequency@,
    ).to_set() + f2) + f1);
    assert(e2[idx].word.glossary@.to_multiset() =~= e0[
        idx].word.glossary@.to_multiset().insert(g1).insert(g2));
    assert(e2b[idx].word.glossary@.to_multiset() =~= e0[
        idx].word.glossary@.to_multiset().insert(g2).insert(g1));
    assert(e0[idx].word.glossary@.to_multiset().insert(g1).insert(g2) =~= e0[
        idx].word.glossary@.to_multiset().insert(g2).insert(g1));
}

/// A key absent from the accumulator matches no slot.
proof fn lemma_find_none_no_match(entries: Seq<WordSlot>, kj: Seq<char>, kn: Seq<char>)
    requires
        spec_find_word(entries, kj, kn) is None,
    ensures
        forall|j: int|
            0 <= j < entries.len() ==> !((#[trigger] entries[j]).kanji@ == kj
                && entries[j].kana@ == kn),
    decreases entries.len(),
{
    if entries.len() > 0 {
        lemma_find_none_no_match(entries.drop_first(), kj, kn);
        assert(forall|j: int|
            1 <= j < entries.len() ==> entries[j] == entries.drop_first()[j - 1]);
    }
}

/// After a fresh insert for an absent key, that key is found at the end.
pub proof fn lemma_find_after_fresh(
    e0: Seq<WordSlot>,
    e1: Seq<WordSlot>,
    kj: Seq<char>,
    kn: Seq<char>,
)
    requires
        spec_find_word(e0, kj, kn) is None,
        e1.len() == e0.len() + 1,
        forall|j: int| 0 <= j < e0.len() ==> e1[j] == e0[j],
        e1[e0.len() as int].kanji@ == kj,
        e1[e0.len() as int].kana@ == kn,
    ensures
        spec_find_word(e1, kj, kn) == Some(e0.len() as int),
    decreases e0.len(),
{
    if e0.len() == 0 {
        assert(e1[0].kanji@ == kj && e1[0].kana@ == kn);
    } else {
        lemma_find_none_no_match(e0, kj, kn);
        assert(!(e1[0].kanji@ == kj && e1[0].kana@ == kn));
        lemma_find_after_fresh(e0.drop_first(), e1.drop_first(), kj, kn);
        assert(forall|j: int|
            0 <= j < e0.len() - 1 ==> e1.drop_first()[j] == e0.drop_first()[j]);
        assert(e1.drop_first()[e0.len() - 1] == e1[e0.len() as int]);
    }
}

/// The union parts of merging are order-independent from the very first
/// contribution too: two contributions arriving, in either order, at a key
/// the accumulator does not yet hold leave the same tag set, the same
/// example set, and the same multiset of senses; and since the display
/// spelling is pinned to the aligner, it too is the same.  Only the
/// identifier (last write) and the sense order depend on the order.
pub proof fn lemma_merge_fresh_order_independent(
    e0: Seq<WordSlot>,
    e1a: Seq<WordSlot>,
    e2a: Seq<WordSlot>,
    e1b: Seq<WordSlot>,
    e2b: Seq<WordSlot>,
    kj: Seq<char>,
    kn: Seq<char>,
    t: Seq<(char, Seq<Seq<char>>)>,
    id1: int,
    id2: int,
    g1: Glossary,
    g2: Glossary,
    sa: bool,
    sb: bool,
    f1: Set<Seq<char>>,
    f2: Set<Seq<char>>,
    x1: Seq<(Seq<char>, Seq<char>)>,
    x2: Seq<(Seq<char>, Seq<char>)>,
    disp1: Seq<char>,
    disp2: Seq<char>,
)
    requires
        spec_find_word(e0, kj, kn) is None,
        disp_synthesized(disp1, kj, kn, t),
        disp_synthesized(disp2, kj, kn, t),
        merged_fresh(e0, e1a, kj, kn, id1, g1, f1, x1, disp1),
        merged_update(e1a, e2a, kj, kn, id2, g2, sa, f2, x2, e0.len() as int),
        merged_fresh(e0, e1b, kj, kn, id2, g2, f2, x2, disp2),
        merged_update(e1b, e2b, kj, kn, id1, g1, sb, f1, x1, e0.len() as int),
    ensures
        strs_views(e2a[e0.len() as int].word.frequency@).to_set() == strs_views(
            e2b[e0.len() as int].word.frequency@,
        ).to_set(),
        forall|y: (Seq<char>, Seq<char>)|
            #[trigger] crate::entry::contains_ex(e2a[e0.len() as int].word.examples@, y)
                <==> crate::entry::contains_ex(e2b[e0.len() as int].word.examples@, y),
        e2a[e0.len() as int].word.glossary@.to_multiset() == e2b[
            e0.len() as int].word.glossary@.to_multiset(),
        e2a[e0.len() as int].word.furigana@ == e2b[e0.len() as int].word.furigana@,
{
    broadcast use vstd::seq_lib::group_to_multiset_ensures;

    let i = e0.len() as int;
    // frequency: both sides end at the union of the two contributed sets
    assert(strs_views(e2a[i].word.frequency@).to_set() =~= (f1 + f2));
    assert(strs_views(e2b[i].word.frequency@).to_set() =~= (f2 + f1));
    assert(f1 + f2 =~= f2 + f1);
    // examples: both sides hold exactly the contributed pairs
    assert forall|y: (Seq<char>, Seq<char>)|
        #[trigger] crate::entry::contains_ex(e2a[i].word.examples@, y)
            <==> crate::entry::contains_ex(e2b[i].word.examples@, y) by {
        assert(crate::entry::contains_ex(e2a[i].word.examples@, y) <==> (
        crate::entry::contains_ex(e1a[i].word.examples@, y) || x2.contains(y)));
        assert(crate::entry::contains_ex(e1a[i].word.examples@, y) <==> x1.contains(y));
        assert(crate::entry::contains_ex(e2b[i].word.examples@, y) <==> (
        crate::entry::contains_ex(e1b[i].word.examples@, y) || x1.contains(y)));
        assert(crate::entry::contains_ex(e1b[i].word.examples@, y) <==> x2.contains(y));
    };
    // senses: both sides hold the two senses, as a multiset
    assert(seq![g1].to_multiset() =~= Multiset::<Glossary>::empty().insert(g1)) by {
        assert(seq![g1] =~= Seq::<Glossary>::empty().push(g1));
        assert(Seq::<Glossary>::empty().to_multiset() =~= Multiset::<Glossary>::empty());
    };
    assert(seq![g2].to_multiset() =~= Multiset::<Glossary>::empty().insert(g2)) by {
        assert(seq![g2] =~= Seq::<Glossary>::empty().push(g2));
        assert(Seq::<Glossary>::empty().to_multiset() =~= Multiset::<Glossary>::empty());
    };
    assert(e2a[i].word.glossary@.to_multiset() =~= Multiset::<Glossary>::empty().insert(
        g1,
    ).insert(g2));
    assert(e2b[i].word.glossary@.to_multiset() =~= Multiset::<Glossary>::empty().insert(
        g2,
    ).insert(g1));
    assert(Multiset::<Glossary>::empty().insert(g1).insert(g2)
        =~= Multiset::<Glossary>::empty().insert(g2).insert(g1));
    // display: the pinned synthesis makes both spellings the same value
    assert(disp1 == disp2);
    assert(e2a[i].word.furigana@ == e1a[i].word.furigana@);
    assert(e1a[i].word.furigana@ == disp1);
    assert(e2b[i].word.furigana@ == e1b[i].word.furigana@);
    assert(e1b[i].word.furigana@ == disp2);
}

} // verus!
