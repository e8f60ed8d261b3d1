//! One raw record of the primary dictionary source: a word, a frequency
//! entry, a kanji entry, or an unrecognized value, which aborts ingestion.

use vstd::prelude::*;
use crate::dict::dict_parser::{ConvertableJmnedicData, WordTable, KanjiTable};
use crate::dict::jmnedict_word::JmnedictWord;
use crate::dict::jmnedict_frequency::JmnedictFrequency;
use crate::dict::kanjidic_kanji::KanjidicEntry;
use crate::json::{Json, render_json};
use crate::text::push_str_all;

verus! {

/// One raw record, already matched against the recognized shapes; a value
/// matching none of them is kept raw.
pub enum JmnedictEntry {
    Word(JmnedictWord),
    Frequency(JmnedictFrequency),
    Kanji(KanjidicEntry),
    Unknown(Json),
}

/// The error text an unrecognized record reports: the offending raw value,
/// printed after a fixed preamble.
pub fn unknown_record_message(data: &Json) -> (r: String)
    ensures
        r@ == "Failed to convert: "@ + crate::json::spec_render_json(*data),
{
    let mut out = "Failed to convert: ".to_owned();
    push_str_all(&mut out, render_json(data).as_str());
    out
}

impl ConvertableJmnedicData for JmnedictEntry {
    open spec fn is_unrecognized(&self) -> bool {
        self is Unknown
    }

    open spec fn kanji_step(
        &self,
        before: Seq<crate::entry::Kanji>,
        after: Seq<crate::entry::Kanji>,
    ) -> bool {
        match *self {
            JmnedictEntry::Word(w) => w.kanji_step(before, after),
            JmnedictEntry::Frequency(f) => f.kanji_step(before, after),
            JmnedictEntry::Kanji(k) => k.kanji_step(before, after),
            JmnedictEntry::Unknown(_) => after == before,
        }
    }

    open spec fn word_step(
        &self,
        before: Seq<crate::dict::dict_parser::WordSlot>,
        after: Seq<crate::dict::dict_parser::WordSlot>,
        readings: Seq<(char, Seq<Seq<char>>)>,
    ) -> bool {
        match *self {
            JmnedictEntry::Word(w) => w.word_step(before, after, readings),
            JmnedictEntry::Frequency(f) => f.word_step(before, after, readings),
            JmnedictEntry::Kanji(k) => k.word_step(before, after, readings),
            JmnedictEntry::Unknown(_) => after == before,
        }
    }

    fn convert_kanji_data(&self, kanji: &mut KanjiTable) -> (r: Result<(), String>) {
        match self {
            JmnedictEntry::Word(w) => w.convert_kanji_data(kanji),
            JmnedictEntry::Frequency(f) => f.convert_kanji_data(kanji),
            JmnedictEntry::Kanji(k) => k.convert_kanji_data(kanji),
            JmnedictEntry::Unknown(_) => Err("Unknown value".to_owned()),
        }
    }

    fn convert_word_data(
        &self,
        words: &mut WordTable,
        kanji_readings: &Vec<(char, Vec<String>)>,
    ) -> (r: Result<(), String>)
        ensures
            self is Unknown ==> r->Err_0@ == "Failed to convert: "@
                + crate::json::spec_render_json(self->Unknown_0),
    {
        match self {
            JmnedictEntry::Word(w) => w.convert_word_data(words, kanji_readings),
            JmnedictEntry::Frequency(f) => f.convert_word_data(words, kanji_readings),
            JmnedictEntry::Kanji(k) => k.convert_word_data(words, kanji_readings),
            JmnedictEntry::Unknown(data) => Err(unknown_record_message(data)),
        }
    }
}

} // verus!
