pub mod dict_parser;
pub mod jitendex_entry;
pub mod jitendex_word;
pub mod jmnedict_entry;
pub mod jmnedict_frequency;
pub mod jmnedict_word;
pub mod kanjidic_kanji;
