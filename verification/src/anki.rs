pub mod anki_connect;
pub mod anki_note;
