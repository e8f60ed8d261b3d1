//! One raw record of the example-sentence dictionary source: a word, a
//! frequency entry, a kanji entry, or an unrecognized value, which aborts
//! ingestion.

use vstd::prelude::*;
use crate::dict::dict_parser::{ConvertableJmnedicData, WordTable, KanjiTable};
use crate::dict::jitendex_word::JitendexWord;
use crate::dict::jmnedict_frequency::JmnedictFrequency;
use crate::dict::kanjidic_kanji::KanjidicEntry;
use crate::json::Json;
use crate::dict::jmnedict_entry::unknown_record_message;

verus! {

/// One raw record, already matched against the recognized shapes; a value
/// matching none of them is kept raw.
pub enum JitendexEntry {
    Word(JitendexWord),
    Frequency(JmnedictFrequency),
    Kanji(KanjidicEntry),
    Unknown(Json),
}

impl ConvertableJmnedicData for JitendexEntry {
    open spec fn is_unrecognized(&self) -> bool {
        self is Unknown
    }

    open spec fn kanji_step(
        &self,
        before: Seq<crate::entry::Kanji>,
        after: Seq<crate::entry::Kanji>,
    ) -> bool {
        match *self {
            JitendexEntry::Word(w) => w.kanji_step(before, after),
            JitendexEntry::Frequency(f) => f.kanji_step(before, after),
            JitendexEntry::Kanji(k) => k.kanji_step(before, after),
            JitendexEntry::Unknown(_) => after == before,
        }
    }

    open spec fn word_step(
        &self,
        before: Seq<crate::dict::dict_parser::WordSlot>,
        after: Seq<crate::dict::dict_parser::WordSlot>,
        readings: Seq<(char, Seq<Seq<char>>)>,
    ) -> bool {
        match *self {
            JitendexEntry::Word(w) => w.word_step(before, after, readings),
            JitendexEntry::Frequency(f) => f.word_step(before, after, readings),
            JitendexEntry::Kanji(k) => k.word_step(before, after, readings),
            JitendexEntry::Unknown(_) => after == before,
        }
    }

    fn convert_kanji_data(&self, kanji: &mut KanjiTable) -> (r: Result<(), String>) {
        match self {
            JitendexEntry::Word(w) => w.convert_kanji_data(kanji),
            JitendexEntry::Frequency(f) => f.convert_kanji_data(kanji),
            JitendexEntry::Kanji(k) => k.convert_kanji_data(kanji),
            JitendexEntry::Unknown(_) => Err("Unknown value".to_owned()),
        }
    }

    fn convert_word_data(
        &self,
        words: &mut WordTable,
        kanji_readings: &Vec<(char, Vec<String>)>,
    ) -> (r: Result<(), String>)
        ensures
            self is Unknown ==> r->Err_0@ == "Failed to convert: "@
                + crate::json::spec_render_json(self->Unknown_0),
    {
        match self {
            JitendexEntry::Word(w) => w.convert_word_data(words, kanji_readings),
            JitendexEntry::Frequency(f) => f.convert_word_data(words, kanji_readings),
            JitendexEntry::Kanji(k) => k.convert_word_data(words, kanji_readings),
            JitendexEntry::Unknown(data) => Err(unknown_record_message(data)),
        }
    }
}

} // verus!
