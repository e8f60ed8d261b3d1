//! A lexicon builder for Japanese vocabulary: it aligns kanji spellings
//! with their kana readings, folds heterogeneous dictionary records into
//! one entry per word, reduces entries that share a kanji-only spelling to
//! a single canonical one, and derives the pattern matching a word's
//! inflected surface forms.  The clients that feed and drain it only move
//! bytes; everything that decides or computes lives here.

pub mod anki;
pub mod canonical;
pub mod dict;
pub mod entry;
pub mod furigana;
pub mod inflection;
pub mod japanese;
pub mod json;
pub mod markup;
pub mod numeric;
pub mod strset;
pub mod tatoeba;
pub mod text;
