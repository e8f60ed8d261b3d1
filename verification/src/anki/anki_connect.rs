//! The flashcard application's request texts: every action this pipeline
//! uses, serialized exactly; sending them and reading the answers happens
//! outside the library, which also interprets the answer envelope.

use vstd::prelude::*;
use crate::json::{spec_quoted, push_quoted, Json};
use crate::anki::anki_note::{AnkiNote, ID, spec_note_json, spec_id_list, push_id_list};
use crate::text::{push_all, str_to_chars, chars_to_string};

verus! {

/// The protocol version every request names.
pub open spec fn payload_version() -> int {
    5
}

/// The protocol version the application must report before any other
/// request is sent.
pub open spec fn expected_version() -> int {
    6
}

/// The connection settings: where to send requests and the key, if any,
/// they must carry.
pub struct AnkiConnect {
    pub url: String,
    pub api_key: Option<String>,
}

/// One request's text: its action, the fixed protocol version, the key
/// when one is set, and the action's parameters when it has any.
pub open spec fn spec_payload(
    action: Seq<char>,
    api_key: Option<String>,
    params: Option<Seq<char>>,
) -> Seq<char> {
    "{\"action\":"@ + spec_quoted(action) + ",\"version\":5"@ + (match api_key {
        Some(k) => ",\"apiKey\":"@ + spec_quoted(k@),
        None => Seq::<char>::empty(),
    }) + (match params {
        Some(p) => ",\"params\":"@ + p,
        None => Seq::<char>::empty(),
    }) + seq!['}']
}

impl AnkiConnect {
    /// A connection description; the version handshake happens with the
    /// first request, checked by [`AnkiConnect::check_version`].
    pub fn new(url: String, api_key: Option<String>) -> (r: Self)
        ensures
            r.url == url,
            r.api_key == api_key,
    {
        AnkiConnect { url, api_key }
    }

    /// The request address.
    pub fn get_url(&self) -> (r: &str)
        ensures
            r@ == self.url@,
    {
        self.url.as_str()
    }

    /// The configured key, if any.
    pub fn get_api_key(&self) -> (r: Option<&str>)
        ensures
            r is Some <==> self.api_key is Some,
            r is Some ==> r->0@ == self.api_key->0@,
    {
        match &self.api_key {
            Some(k) => Some(k.as_str()),
            None => None,
        }
    }

    /// Accepts the version the application reported exactly when it is the
    /// expected one; the error names both versions.
    pub fn check_version(&self, reported: u8) -> (r: Result<(), String>)
        ensures
            r is Ok <==> reported as int == expected_version(),
            r is Err ==> r->Err_0@ == "expected protocol version 6 but the application reported "@
                + crate::json::spec_nat_digits(reported as int),
    {
        if reported == 6 {
            Ok(())
        } else {
            let mut message = "expected protocol version 6 but the application reported "
                .to_owned();
            let digits = crate::numeric::u64_to_dec(reported as u64);
            proof {
                crate::json::lemma_nat_digits_canonical(digits@, reported as int);
            }
            crate::text::push_str_all(
                &mut message,
                crate::text::chars_to_string(&digits).as_str(),
            );
            Err(message)
        }
    }

    /// The request text of an action, with its parameters' text if it has
    /// any.
    fn payload(&self, action: &str, params: Option<&Vec<char>>) -> (r: String)
        ensures
            r@ == spec_payload(
                action@,
                self.api_key,
                match params {
                    Some(p) => Some(p@),
                    None => None,
                },
            ),
    {
        let mut out: Vec<char> = Vec::new();
        push_all(&mut out, &str_to_chars("{\"action\":"));
        push_quoted(&mut out, action);
        push_all(&mut out, &str_to_chars(",\"version\":5"));
        match &self.api_key {
            Some(k) => {
                push_all(&mut out, &str_to_chars(",\"apiKey\":"));
                push_quoted(&mut out, k.as_str());
            },
            None => {},
        }
        match params {
            Some(p) => {
                push_all(&mut out, &str_to_chars(",\"params\":"));
                push_all(&mut out, p);
            },
            None => {},
        }
        out.push('}');
        proof {
            assert(out@ =~= spec_payload(
                action@,
                self.api_key,
                match params {
                    Some(p) => Some(p@),
                    None => None,
                },
            ));
        }
        chars_to_string(&out)
    }

    /// The version-query request.
    pub fn version(&self) -> (r: String)
        ensures
            r@ == spec_payload("version"@, self.api_key, None),
    {
        self.payload("version", None)
    }

    /// The upgrade request.
    pub fn upgrade(&self) -> (r: String)
        ensures
            r@ == spec_payload("upgrade"@, self.api_key, None),
    {
        self.payload("upgrade", None)
    }

    /// The deck-name listing request.
    pub fn deck_names(&self) -> (r: String)
        ensures
            r@ == spec_payload("deckNames"@, self.api_key, None),
    {
        self.payload("deckNames", None)
    }

    /// The deck-name and identifier listing request.
    pub fn deck_names_and_ids(&self) -> (r: String)
        ensures
            r@ == spec_payload("deckNamesAndIds"@, self.api_key, None),
    {
        self.payload("deckNamesAndIds", None)
    }

    /// The model-name listing request.
    pub fn model_names(&self) -> (r: String)
        ensures
            r@ == spec_payload("modelNames"@, self.api_key, None),
    {
        self.payload("modelNames", None)
    }

    /// The model-name and identifier listing request.
    pub fn model_names_and_ids(&self) -> (r: String)
        ensures
            r@ == spec_payload("modelNamesAndIds"@, self.api_key, None),
    {
        self.payload("modelNamesAndIds", None)
    }

    /// The tag listing request; its parameter member is present and empty.
    pub fn get_tags(&self) -> (r: String)
        ensures
            r@ == spec_payload("getTags"@, self.api_key, Some("null"@)),
    {
        let p = str_to_chars("null");
        self.payload("getTags", Some(&p))
    }

    /// The request opening the note-adding dialog.
    pub fn gui_add_cards(&self) -> (r: String)
        ensures
            r@ == spec_payload("guiAddCards"@, self.api_key, Some("null"@)),
    {
        let p = str_to_chars("null");
        self.payload("guiAddCards", Some(&p))
    }

    /// The request opening the deck browser.
    pub fn gui_deck_browser(&self) -> (r: String)
        ensures
            r@ == spec_payload("guiDeckBrowser"@, self.api_key, Some("null"@)),
    {
        let p = str_to_chars("null");
        self.payload("guiDeckBrowser", Some(&p))
    }

    /// The request scheduling the application to close.
    pub fn gui_exit_anki(&self) -> (r: String)
        ensures
            r@ == spec_payload("guiExitAnki"@, self.api_key, Some("null"@)),
    {
        let p = str_to_chars("null");
        self.payload("guiExitAnki", Some(&p))
    }

    /// The request grouping the given cards by their decks.
    pub fn get_decks(&self, cards: &Vec<ID>) -> (r: String)
        ensures
            r@ == spec_payload(
                "getDecks"@,
                self.api_key,
                Some("{\"cards\":["@ + spec_id_list(cards@, 0) + "]}"@),
            ),
    {
        let mut p: Vec<char> = Vec::new();
        push_all(&mut p, &str_to_chars("{\"cards\":["));
        push_id_list(&mut p, cards, 0);
        push_all(&mut p, &str_to_chars("]}"));
        proof {
            assert(p@ =~= "{\"cards\":["@ + spec_id_list(cards@, 0) + "]}"@);
        }
        self.payload("getDecks", Some(&p))
    }

    /// The request creating one note.
    pub fn add_note(&self, note: &AnkiNote) -> (r: String)
        ensures
            r@ == spec_payload(
                "addNote"@,
                self.api_key,
                Some("{\"note\":"@ + spec_note_json(*note) + seq!['}']),
            ),
    {
        let mut p: Vec<char> = Vec::new();
        push_all(&mut p, &str_to_chars("{\"note\":"));
        note.push_json(&mut p);
        p.push('}');
        proof {
            assert(p@ =~= "{\"note\":"@ + spec_note_json(*note) + seq!['}']);
        }
        self.payload("addNote", Some(&p))
    }

    /// The request creating several notes.
    pub fn add_notes(&self, notes: &Vec<AnkiNote>) -> (r: String)
        ensures
            r@ == spec_payload(
                "addNotes"@,
                self.api_key,
                Some("{\"notes\":["@ + spec_note_list(notes@, 0) + "]}"@),
            ),
    {
        let mut p: Vec<char> = Vec::new();
        push_all(&mut p, &str_to_chars("{\"notes\":["));
        push_note_list(&mut p, notes, 0);
        push_all(&mut p, &str_to_chars("]}"));
        proof {
            assert(p@ =~= "{\"notes\":["@ + spec_note_list(notes@, 0) + "]}"@);
        }
        self.payload("addNotes", Some(&p))
    }

    /// The request asking which of several notes could be created.
    pub fn can_add_notes(&self, notes: &Vec<AnkiNote>) -> (r: String)
        ensures
            r@ == spec_payload(
                "canAddNotes"@,
                self.api_key,
                Some("{\"notes\":["@ + spec_note_list(notes@, 0) + "]}"@),
            ),
    {
        let mut p: Vec<char> = Vec::new();
        push_all(&mut p, &str_to_chars("{\"notes\":["));
        push_note_list(&mut p, notes, 0);
        push_all(&mut p, &str_to_chars("]}"));
        proof {
            assert(p@ =~= "{\"notes\":["@ + spec_note_list(notes@, 0) + "]}"@);
        }
        self.payload("canAddNotes", Some(&p))
    }
}

/// A list of notes' request texts.
pub open spec fn spec_note_list(v: Seq<AnkiNote>, i: int) -> Seq<char>
    decreases v.len() - i,
{
    if i < 0 || i >= v.len() {
        Seq::<char>::empty()
    } else if i + 1 == v.len() {
        spec_note_json(v[i])
    } else {
        spec_note_json(v[i]) + seq![','] + spec_note_list(v, i + 1)
    }
}

fn push_note_list(out: &mut Vec<char>, v: &Vec<AnkiNote>, i: usize)
    requires
        i <= v@.len(),
    ensures
        final(out)@ == old(out)@ + spec_note_list(v@, i as int),
    decreases v@.len() - i,
{
    let ghost out0 = out@;
    if i == v.len() {
        proof {
            assert(out@ =~= out0 + spec_note_list(v@, i as int));
        }
        return;
    }
    v[i].push_json(out);
    if i + 1 < v.len() {
        out.push(',');
        push_note_list(out, v, i + 1);
        proof {
            assert(out@ =~= out0 + spec_note_list(v@, i as int));
        }
    } else {
        proof {
            assert(out@ =~= out0 + spec_note_list(v@, i as int));
        }
    }
}

/// Reads the application's answer envelope: an error message means
/// failure, a present result means success, and an answer with neither is
/// itself an error.
pub fn interpret_response(result: Option<Json>, error: Option<String>) -> (r: Result<
    Json,
    String,
>)
    ensures
        error is Some ==> r is Err && r->Err_0 == error->0,
        error is None && result is Some ==> r is Ok && r->Ok_0 == result->0,
        error is None && result is None ==> r is Err,
{
    match error {
        Some(e) => Err(e),
        None => match result {
            Some(v) => Ok(v),
            None => Err("the application answered with neither a result nor an error".to_owned()),
        },
    }
}

/// The parameter text `{"key":"value"}`.
fn obj1_str(key: &str, value: &str) -> (p: Vec<char>)
    ensures
        p@ == seq!['{'] + spec_quoted(key@) + seq![':'] + spec_quoted(value@) + seq!['}'],
{
    let mut p: Vec<char> = Vec::new();
    p.push('{');
    push_quoted(&mut p, key);
    p.push(':');
    push_quoted(&mut p, value);
    p.push('}');
    proof {
        assert(p@ =~= seq!['{'] + spec_quoted(key@) + seq![':'] + spec_quoted(value@)
            + seq!['}']);
    }
    p
}

/// The parameter text `{"key":[id,…]}`.
fn obj1_ids(key: &str, ids: &Vec<ID>) -> (p: Vec<char>)
    ensures
        p@ == seq!['{'] + spec_quoted(key@) + seq![':', '['] + spec_id_list(ids@, 0) + seq![
            ']',
            '}',
        ],
{
    let mut p: Vec<char> = Vec::new();
    p.push('{');
    push_quoted(&mut p, key);
    p.push(':');
    p.push('[');
    push_id_list(&mut p, ids, 0);
    p.push(']');
    p.push('}');
    proof {
        assert(p@ =~= seq!['{'] + spec_quoted(key@) + seq![':', '['] + spec_id_list(ids@, 0)
            + seq![']', '}']);
    }
    p
}

impl AnkiConnect {
    /// The request moving cards into a deck, creating it if needed.
    pub fn change_deck(&self, deck: &str, cards: &Vec<ID>) -> (r: String)
        ensures
            r@ == spec_payload(
                "changeDeck"@,
                self.api_key,
                Some(
                    "{\"deck\":"@ + spec_quoted(deck@) + ",\"cards\":["@ + spec_id_list(
                        cards@,
                        0,
                    ) + "]}"@,
                ),
            ),
    {
        let mut p: Vec<char> = Vec::new();
        push_all(&mut p, &str_to_chars("{\"deck\":"));
        push_quoted(&mut p, deck);
        push_all(&mut p, &str_to_chars(",\"cards\":["));
        push_id_list(&mut p, cards, 0);
        push_all(&mut p, &str_to_chars("]}"));
        proof {
            assert(p@ =~= "{\"deck\":"@ + spec_quoted(deck@) + ",\"cards\":["@ + spec_id_list(
                cards@,
                0,
            ) + "]}"@);
        }
        self.payload("changeDeck", Some(&p))
    }

    /// The request deleting decks, with or without their cards.
    pub fn delete_decks(&self, decks: &Vec<String>, cards_too: bool) -> (r: String)
        ensures
            r@ == spec_payload(
                "deleteDecks"@,
                self.api_key,
                Some(
                    "{\"decks\":["@ + crate::anki::anki_note::spec_str_list(decks@, 0)
                        + "],\"cards_too\":"@ + (if cards_too {
                        "true"@
                    } else {
                        "false"@
                    }) + seq!['}'],
                ),
            ),
    {
        let mut p: Vec<char> = Vec::new();
        push_all(&mut p, &str_to_chars("{\"decks\":["));
        crate::anki::anki_note::push_str_list(&mut p, decks, 0);
        push_all(&mut p, &str_to_chars("],\"cards_too\":"));
        if cards_too {
            push_all(&mut p, &str_to_chars("true"));
        } else {
            push_all(&mut p, &str_to_chars("false"));
        }
        p.push('}');
        proof {
            assert(p@ =~= "{\"decks\":["@ + crate::anki::anki_note::spec_str_list(decks@, 0)
                + "],\"cards_too\":"@ + (if cards_too {
                "true"@
            } else {
                "false"@
            }) + seq!['}']);
        }
        self.payload("deleteDecks", Some(&p))
    }

    /// The request listing a note type's field names.
    pub fn model_field_names(&self, model_name: &str) -> (r: String)
        ensures
            r@ == spec_payload(
                "modelFieldNames"@,
                self.api_key,
                Some(
                    seq!['{'] + spec_quoted("modelName"@) + seq![':'] + spec_quoted(
                        model_name@,
                    ) + seq!['}'],
                ),
            ),
    {
        let p = obj1_str("modelName", model_name);
        self.payload("modelFieldNames", Some(&p))
    }

    /// The request listing the fields on each side of a note type's cards.
    pub fn model_fields_on_templates(&self, model_name: &str) -> (r: String)
        ensures
            r@ == spec_payload(
                "modelFieldsOnTemplates"@,
                self.api_key,
                Some(
                    seq!['{'] + spec_quoted("modelName"@) + seq![':'] + spec_quoted(
                        model_name@,
                    ) + seq!['}'],
                ),
            ),
    {
        let p = obj1_str("modelName", model_name);
        self.payload("modelFieldsOnTemplates", Some(&p))
    }

    /// The request overwriting fields of an existing note.
    pub fn update_note_fields(&self, id: ID, fields: &Vec<(String, String)>) -> (r: String)
        ensures
            r@ == spec_payload(
                "updateNoteFields"@,
                self.api_key,
                Some(
                    "{\"note\":{\"id\":"@ + crate::json::spec_int_text(id as int)
                        + ",\"fields\":{"@ + crate::anki::anki_note::spec_str_obj(fields@, 0)
                        + "}}}"@,
                ),
            ),
    {
        let mut p: Vec<char> = Vec::new();
        push_all(&mut p, &str_to_chars("{\"note\":{\"id\":"));
        crate::json::push_int(&mut p, id);
        push_all(&mut p, &str_to_chars(",\"fields\":{"));
        crate::anki::anki_note::push_str_obj(&mut p, fields, 0);
        push_all(&mut p, &str_to_chars("}}}"));
        proof {
            assert(p@ =~= "{\"note\":{\"id\":"@ + crate::json::spec_int_text(id as int)
                + ",\"fields\":{"@ + crate::anki::anki_note::spec_str_obj(fields@, 0)
                + "}}}"@);
        }
        self.payload("updateNoteFields", Some(&p))
    }

    /// The request attaching a downloaded recording to a note's fields; it
    /// rides on the field-update action.
    pub fn add_note_audio(
        &self,
        id: ID,
        url: &str,
        filename: &str,
        fields: &Vec<String>,
        skip_hash: Option<&str>,
    ) -> (r: String)
        ensures
            r@ == spec_payload(
                "updateNoteFields"@,
                self.api_key,
                Some(
                    "{\"note\":{\"id\":"@ + crate::json::spec_int_text(id as int)
                        + ",\"fields\":{},\"audio\":{\"url\":"@ + spec_quoted(url@)
                        + ",\"filename\":"@ + spec_quoted(filename@) + ",\"fields\":["@
                        + crate::anki::anki_note::spec_str_list(fields@, 0) + seq![']'] + (
                    match skip_hash {
                        Some(h) => ",\"skipHash\":"@ + spec_quoted(h@),
                        None => Seq::<char>::empty(),
                    }) + "}}}"@,
                ),
            ),
    {
        let mut p: Vec<char> = Vec::new();
        push_all(&mut p, &str_to_chars("{\"note\":{\"id\":"));
        crate::json::push_int(&mut p, id);
        push_all(&mut p, &str_to_chars(",\"fields\":{},\"audio\":{\"url\":"));
        push_quoted(&mut p, url);
        push_all(&mut p, &str_to_chars(",\"filename\":"));
        push_quoted(&mut p, filename);
        push_all(&mut p, &str_to_chars(",\"fields\":["));
        crate::anki::anki_note::push_str_list(&mut p, fields, 0);
        p.push(']');
        let ghost p0 = p@;
        match skip_hash {
            Some(h) => {
                push_all(&mut p, &str_to_chars(",\"skipHash\":"));
                push_quoted(&mut p, h);
            },
            None => {},
        }
        push_all(&mut p, &str_to_chars("}}}"));
        proof {
            assert(p@ =~= "{\"note\":{\"id\":"@ + crate::json::spec_int_text(id as int)
                + ",\"fields\":{},\"audio\":{\"url\":"@ + spec_quoted(url@)
                + ",\"filename\":"@ + spec_quoted(filename@) + ",\"fields\":["@
                + crate::anki::anki_note::spec_str_list(fields@, 0) + seq![']'] + (
            match skip_hash {
                Some(h) => ",\"skipHash\":"@ + spec_quoted(h@),
                None => Seq::<char>::empty(),
            }) + "}}}"@);
        }
        self.payload("updateNoteFields", Some(&p))
    }

    /// The request adding a tag to notes.
    pub fn add_tags(&self, notes: &Vec<ID>, tags: &str) -> (r: String)
        ensures
            r@ == spec_payload(
                "addTags"@,
                self.api_key,
                Some(
                    "{\"notes\":["@ + spec_id_list(notes@, 0) + "],\"tags\":"@ + spec_quoted(
                        tags@,
                    ) + seq!['}'],
                ),
            ),
    {
        let p = self.notes_and_tags(notes, tags);
        self.payload("addTags", Some(&p))
    }

    /// The request removing a tag from notes.
    pub fn remove_tags(&self, notes: &Vec<ID>, tags: &str) -> (r: String)
        ensures
            r@ == spec_payload(
                "removeTags"@,
                self.api_key,
                Some(
                    "{\"notes\":["@ + spec_id_list(notes@, 0) + "],\"tags\":"@ + spec_quoted(
                        tags@,
                    ) + seq!['}'],
                ),
            ),
    {
        let p = self.notes_and_tags(notes, tags);
        self.payload("removeTags", Some(&p))
    }

    /// The parameter text naming notes and a tag.
    fn notes_and_tags(&self, notes: &Vec<ID>, tags: &str) -> (p: Vec<char>)
        ensures
            p@ == "{\"notes\":["@ + spec_id_list(notes@, 0) + "],\"tags\":"@ + spec_quoted(
                tags@,
            ) + seq!['}'],
    {
        let mut p: Vec<char> = Vec::new();
        push_all(&mut p, &str_to_chars("{\"notes\":["));
        push_id_list(&mut p, notes, 0);
        push_all(&mut p, &str_to_chars("],\"tags\":"));
        push_quoted(&mut p, tags);
        p.push('}');
        proof {
            assert(p@ =~= "{\"notes\":["@ + spec_id_list(notes@, 0) + "],\"tags\":"@
                + spec_quoted(tags@) + seq!['}']);
        }
        p
    }

    /// The request listing the notes a query matches.
    pub fn find_notes(&self, query: &str) -> (r: String)
        ensures
            r@ == spec_payload(
                "findNotes"@,
                self.api_key,
                Some(
                    seq!['{'] + spec_quoted("query"@) + seq![':'] + spec_quoted(query@)
                        + seq!['}'],
                ),
            ),
    {
        let p = obj1_str("query", query);
        self.payload("findNotes", Some(&p))
    }

    /// The request reading the fields, tags and cards of notes.
    pub fn notes_info(&self, notes: &Vec<ID>) -> (r: String)
        ensures
            r@ == spec_payload(
                "notesInfo"@,
                self.api_key,
                Some(
                    seq!['{'] + spec_quoted("notes"@) + seq![':', '['] + spec_id_list(
                        notes@,
                        0,
                    ) + seq![']', '}'],
                ),
            ),
    {
        let p = obj1_ids("notes", notes);
        self.payload("notesInfo", Some(&p))
    }

    /// The request writing raw card values by key.
    pub fn set_specific_value_of_card(&self, card: ID, properties: &Vec<(String, Json)>) -> (r:
        String)
        ensures
            r@ == spec_payload(
                "setSpecificValueOfCard"@,
                self.api_key,
                Some(
                    "{\"card\":"@ + crate::json::spec_int_text(card as int) + ",\"keys\":["@
                        + spec_prop_keys(properties@, 0) + "],\"newValues\":["@
                        + spec_prop_values(properties@, 0) + "]}"@,
                ),
            ),
    {
        let mut p: Vec<char> = Vec::new();
        push_all(&mut p, &str_to_chars("{\"card\":"));
        crate::json::push_int(&mut p, card);
        push_all(&mut p, &str_to_chars(",\"keys\":["));
        push_prop_keys(&mut p, properties, 0);
        push_all(&mut p, &str_to_chars("],\"newValues\":["));
        push_prop_values(&mut p, properties, 0);
        push_all(&mut p, &str_to_chars("]}"));
        proof {
            assert(p@ =~= "{\"card\":"@ + crate::json::spec_int_text(card as int)
                + ",\"keys\":["@ + spec_prop_keys(properties@, 0) + "],\"newValues\":["@
                + spec_prop_values(properties@, 0) + "]}"@);
        }
        self.payload("setSpecificValueOfCard", Some(&p))
    }

    /// The request suspending cards.
    pub fn suspend(&self, cards: &Vec<ID>) -> (r: String)
        ensures
            r@ == spec_payload(
                "suspend"@,
                self.api_key,
                Some(
                    seq!['{'] + spec_quoted("cards"@) + seq![':', '['] + spec_id_list(
                        cards@,
                        0,
                    ) + seq![']', '}'],
                ),
            ),
    {
        let p = obj1_ids("cards", cards);
        self.payload("suspend", Some(&p))
    }

    /// The request releasing suspended cards.
    pub fn unsuspend(&self, cards: &Vec<ID>) -> (r: String)
        ensures
            r@ == spec_payload(
                "unsuspend"@,
                self.api_key,
                Some(
                    seq!['{'] + spec_quoted("cards"@) + seq![':', '['] + spec_id_list(
                        cards@,
                        0,
                    ) + seq![']', '}'],
                ),
            ),
    {
        let p = obj1_ids("cards", cards);
        self.payload("unsuspend", Some(&p))
    }

    /// The request asking which cards are suspended.
    pub fn are_suspended(&self, cards: &Vec<ID>) -> (r: String)
        ensures
            r@ == spec_payload(
                "areSuspended"@,
                self.api_key,
                Some(
                    seq!['{'] + spec_quoted("cards"@) + seq![':', '['] + spec_id_list(
                        cards@,
                        0,
                    ) + seq![']', '}'],
                ),
            ),
    {
        let p = obj1_ids("cards", cards);
        self.payload("areSuspended", Some(&p))
    }

    /// The request asking which cards are due.
    pub fn are_due(&self, cards: &Vec<ID>) -> (r: String)
        ensures
            r@ == spec_payload(
                "areDue"@,
                self.api_key,
                Some(
                    seq!['{'] + spec_quoted("cards"@) + seq![':', '['] + spec_id_list(
                        cards@,
                        0,
                    ) + seq![']', '}'],
                ),
            ),
    {
        let p = obj1_ids("cards", cards);
        self.payload("areDue", Some(&p))
    }

    /// The request reading cards' review intervals.
    pub fn get_intervals(&self, cards: &Vec<ID>) -> (r: String)
        ensures
            r@ == spec_payload(
                "getIntervals"@,
                self.api_key,
                Some(
                    seq!['{'] + spec_quoted("cards"@) + seq![':', '['] + spec_id_list(
                        cards@,
                        0,
                    ) + seq![']', '}'],
                ),
            ),
    {
        let p = obj1_ids("cards", cards);
        self.payload("getIntervals", Some(&p))
    }

    /// The request listing the cards a query matches.
    pub fn find_cards(&self, query: &str) -> (r: String)
        ensures
            r@ == spec_payload(
                "findCards"@,
                self.api_key,
                Some(
                    seq!['{'] + spec_quoted("query"@) + seq![':'] + spec_quoted(query@)
                        + seq!['}'],
                ),
            ),
    {
        let p = obj1_str("query", query);
        self.payload("findCards", Some(&p))
    }

    /// The request mapping cards to their notes.
    pub fn cards_to_notes(&self, cards: &Vec<ID>) -> (r: String)
        ensures
            r@ == spec_payload(
                "cardsToNotes"@,
                self.api_key,
                Some(
                    seq!['{'] + spec_quoted("cards"@) + seq![':', '['] + spec_id_list(
                        cards@,
                        0,
                    ) + seq![']', '}'],
                ),
            ),
    {
        let p = obj1_ids("cards", cards);
        self.payload("cardsToNotes", Some(&p))
    }

    /// The request scheduling cards for a due date.
    pub fn set_due_date(&self, cards: &Vec<ID>, days: &str) -> (r: String)
        ensures
            r@ == spec_payload(
                "setDueDate"@,
                self.api_key,
                Some(
                    "{\"cards\":["@ + spec_id_list(cards@, 0) + "],\"days\":"@ + spec_quoted(
                        days@,
                    ) + seq!['}'],
                ),
            ),
    {
        let mut p: Vec<char> = Vec::new();
        push_all(&mut p, &str_to_chars("{\"cards\":["));
        push_id_list(&mut p, cards, 0);
        push_all(&mut p, &str_to_chars("],\"days\":"));
        push_quoted(&mut p, days);
        p.push('}');
        proof {
            assert(p@ =~= "{\"cards\":["@ + spec_id_list(cards@, 0) + "],\"days\":"@
                + spec_quoted(days@) + seq!['}']);
        }
        self.payload("setDueDate", Some(&p))
    }

    /// The request opening the card browser on a query.
    pub fn gui_browse(&self, query: &str) -> (r: String)
        ensures
            r@ == spec_payload(
                "guiBrowse"@,
                self.api_key,
                Some(
                    seq!['{'] + spec_quoted("query"@) + seq![':'] + spec_quoted(query@)
                        + seq!['}'],
                ),
            ),
    {
        let p = obj1_str("query", query);
        self.payload("guiBrowse", Some(&p))
    }

    /// The request opening a deck's overview.
    pub fn gui_deck_overview(&self, name: &str) -> (r: String)
        ensures
            r@ == spec_payload(
                "guiDeckOverview"@,
                self.api_key,
                Some(
                    seq!['{'] + spec_quoted("name"@) + seq![':'] + spec_quoted(name@)
                        + seq!['}'],
                ),
            ),
    {
        let p = obj1_str("name", name);
        self.payload("guiDeckOverview", Some(&p))
    }

    /// The request starting a deck's review.
    pub fn gui_deck_review(&self, name: &str) -> (r: String)
        ensures
            r@ == spec_payload(
                "guiDeckReview"@,
                self.api_key,
                Some(
                    seq!['{'] + spec_quoted("name"@) + seq![':'] + spec_quoted(name@)
                        + seq!['}'],
                ),
            ),
    {
        let p = obj1_str("name", name);
        self.payload("guiDeckReview", Some(&p))
    }
}

/// The quoted keys of raw card properties, comma separated.
pub open spec fn spec_prop_keys(ps: Seq<(String, Json)>, i: int) -> Seq<char>
    decreases ps.len() - i,
{
    if i < 0 || i >= ps.len() {
        Seq::<char>::empty()
    } else if i + 1 == ps.len() {
        spec_quoted(ps[i].0@)
    } else {
        spec_quoted(ps[i].0@) + seq![','] + spec_prop_keys(ps, i + 1)
    }
}

/// The rendered values of raw card properties, comma separated.
pub open spec fn spec_prop_values(ps: Seq<(String, Json)>, i: int) -> Seq<char>
    decreases ps.len() - i,
{
    if i < 0 || i >= ps.len() {
        Seq::<char>::empty()
    } else if i + 1 == ps.len() {
        crate::json::spec_render_json(ps[i].1)
    } else {
        crate::json::spec_render_json(ps[i].1) + seq![','] + spec_prop_values(ps, i + 1)
    }
}

fn push_prop_keys(out: &mut Vec<char>, ps: &Vec<(String, Json)>, i: usize)
    requires
        i <= ps@.len(),
    ensures
        final(out)@ == old(out)@ + spec_prop_keys(ps@, i as int),
    decreases ps@.len() - i,
{
    let ghost out0 = out@;
    if i == ps.len() {
        proof {
            assert(out@ =~= out0 + spec_prop_keys(ps@, i as int));
        }
        return;
    }
    push_quoted(out, ps[i].0.as_str());
    if i + 1 < ps.len() {
        out.push(',');
        push_prop_keys(out, ps, i + 1);
        proof {
            assert(out@ =~= out0 + spec_prop_keys(ps@, i as int));
        }
    } else {
        proof {
            assert(out@ =~= out0 + spec_prop_keys(ps@, i as int));
        }
    }
}

fn push_prop_values(out: &mut Vec<char>, ps: &Vec<(String, Json)>, i: usize)
    requires
        i <= ps@.len(),
    ensures
        final(out)@ == old(out)@ + spec_prop_values(ps@, i as int),
    decreases ps@.len() - i,
{
    let ghost out0 = out@;
    if i == ps.len() {
        proof {
            assert(out@ =~= out0 + spec_prop_values(ps@, i as int));
        }
        return;
    }
    crate::json::push_json(out, &ps[i].1);
    if i + 1 < ps.len() {
        out.push(',');
        push_prop_values(out, ps, i + 1);
        proof {
            assert(out@ =~= out0 + spec_prop_values(ps@, i as int));
        }
    } else {
        proof {
            assert(out@ =~= out0 + spec_prop_values(ps@, i as int));
        }
    }
}

} // verus!
