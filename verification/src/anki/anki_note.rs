//! One flashcard note: its deck and model names, its tags and fields, and
//! the exact request text it serializes to.

use vstd::prelude::*;
use crate::json::{spec_quoted, spec_int_text, push_quoted, push_int};
use crate::text::{push_all, chars_to_string, str_to_chars};

verus! {

/// A note identifier.
pub type ID = i64;

/// One note of the flashcard application.
pub struct AnkiNote {
    /// Identifier of the note, once the application assigned one.
    pub note_id: Option<ID>,
    /// Profile the note belongs to, when known.
    pub profile: Option<String>,
    /// Deck the note belongs to, when known.
    pub deck_name: Option<String>,
    /// The note type.
    pub model_name: String,
    /// The note's tags.
    pub tags: Vec<String>,
    /// The note's fields, in order, as name and value.
    pub fields: Vec<(String, String)>,
    /// Modification time, when known.
    pub modified: Option<ID>,
    /// The cards of the note, when known.
    pub cards: Option<Vec<ID>>,
}

/// A list of strings as JSON text.
pub open spec fn spec_str_list(v: Seq<String>, i: int) -> Seq<char>
    decreases v.len() - i,
{
    if i < 0 || i >= v.len() {
        Seq::<char>::empty()
    } else if i + 1 == v.len() {
        spec_quoted(v[i]@)
    } else {
        spec_quoted(v[i]@) + seq![','] + spec_str_list(v, i + 1)
    }
}

/// An object of string pairs as JSON text.
pub open spec fn spec_str_obj(v: Seq<(String, String)>, i: int) -> Seq<char>
    decreases v.len() - i,
{
    if i < 0 || i >= v.len() {
        Seq::<char>::empty()
    } else if i + 1 == v.len() {
        spec_quoted(v[i].0@) + seq![':'] + spec_quoted(v[i].1@)
    } else {
        spec_quoted(v[i].0@) + seq![':'] + spec_quoted(v[i].1@) + seq![','] + spec_str_obj(
            v,
            i + 1,
        )
    }
}

/// A list of identifiers as JSON text.
pub open spec fn spec_id_list(v: Seq<ID>, i: int) -> Seq<char>
    decreases v.len() - i,
{
    if i < 0 || i >= v.len() {
        Seq::<char>::empty()
    } else if i + 1 == v.len() {
        spec_int_text(v[i] as int)
    } else {
        spec_int_text(v[i] as int) + seq![','] + spec_id_list(v, i + 1)
    }
}

/// The leading members of a note's request text.
pub open spec fn spec_note_head(n: AnkiNote) -> Seq<char> {
    seq!['{'] + (match n.note_id {
        Some(id) => "\"noteId\":"@ + spec_int_text(id as int) + seq![','],
        None => Seq::<char>::empty(),
    }) + (match n.profile {
        Some(p) => "\"profile\":"@ + spec_quoted(p@) + seq![','],
        None => Seq::<char>::empty(),
    }) + (match n.deck_name {
        Some(d) => "\"deckName\":"@ + spec_quoted(d@) + seq![','],
        None => Seq::<char>::empty(),
    })
}

/// The required members of a note's request text.
pub open spec fn spec_note_mid(n: AnkiNote) -> Seq<char> {
    "\"modelName\":"@ + spec_quoted(n.model_name@) + ",\"tags\":["@ + spec_str_list(n.tags@, 0)
        + "],\"fields\":{"@ + spec_str_obj(n.fields@, 0) + seq!['}']
}

/// The trailing members of a note's request text.
pub open spec fn spec_note_tail(n: AnkiNote) -> Seq<char> {
    (match n.modified {
        Some(m) => ",\"mod\":"@ + spec_int_text(m as int),
        None => Seq::<char>::empty(),
    }) + (match n.cards {
        Some(cs) => ",\"cards\":["@ + spec_id_list(cs@, 0) + seq![']'],
        None => Seq::<char>::empty(),
    }) + seq!['}']
}

/// The request text of a note: set identifiers and names first, then the
/// note type, tags and fields, each unset member left out.
pub open spec fn spec_note_json(n: AnkiNote) -> Seq<char> {
    spec_note_head(n) + spec_note_mid(n) + spec_note_tail(n)
}

/// Appends a JSON list of strings' members.
pub fn push_str_list(out: &mut Vec<char>, v: &Vec<String>, i: usize)
    requires
        i <= v@.len(),
    ensures
        final(out)@ == old(out)@ + spec_str_list(v@, i as int),
    decreases v@.len() - i,
{
    let ghost out0 = out@;
    if i == v.len() {
        proof {
            assert(out@ =~= out0 + spec_str_list(v@, i as int));
        }
        return;
    }
    push_quoted(out, v[i].as_str());
    if i + 1 < v.len() {
        out.push(',');
        push_str_list(out, v, i + 1);
        proof {
            assert(out@ =~= out0 + spec_str_list(v@, i as int));
        }
    } else {
        proof {
            assert(out@ =~= out0 + spec_str_list(v@, i as int));
        }
    }
}

/// Appends a JSON object of string pairs' members.
pub fn push_str_obj(out: &mut Vec<char>, v: &Vec<(String, String)>, i: usize)
    requires
        i <= v@.len(),
    ensures
        final(out)@ == old(out)@ + spec_str_obj(v@, i as int),
    decreases v@.len() - i,
{
    let ghost out0 = out@;
    if i == v.len() {
        proof {
            assert(out@ =~= out0 + spec_str_obj(v@, i as int));
        }
        return;
    }
    push_quoted(out, v[i].0.as_str());
    out.push(':');
    push_quoted(out, v[i].1.as_str());
    if i + 1 < v.len() {
        out.push(',');
        push_str_obj(out, v, i + 1);
        proof {
            assert(out@ =~= out0 + spec_str_obj(v@, i as int));
        }
    } else {
        proof {
            assert(out@ =~= out0 + spec_str_obj(v@, i as int));
        }
    }
}

/// Appends a JSON list of identifiers' members.
pub fn push_id_list(out: &mut Vec<char>, v: &Vec<ID>, i: usize)
    requires
        i <= v@.len(),
    ensures
        final(out)@ == old(out)@ + spec_id_list(v@, i as int),
    decreases v@.len() - i,
{
    let ghost out0 = out@;
    if i == v.len() {
        proof {
            assert(out@ =~= out0 + spec_id_list(v@, i as int));
        }
        return;
    }
    push_int(out, v[i]);
    if i + 1 < v.len() {
        out.push(',');
        push_id_list(out, v, i + 1);
        proof {
            assert(out@ =~= out0 + spec_id_list(v@, i as int));
        }
    } else {
        proof {
            assert(out@ =~= out0 + spec_id_list(v@, i as int));
        }
    }
}

impl AnkiNote {
    /// The leading members of the note's request text: the optional
    /// identifier, profile and deck name.
    fn push_json_head(&self, out: &mut Vec<char>)
        ensures
            final(out)@ == old(out)@ + spec_note_head(*self),
    {
        let ghost out0 = out@;
        out.push('{');
        match &self.note_id {
            Some(id) => {
                push_all(out, &str_to_chars("\"noteId\":"));
                push_int(out, *id);
                out.push(',');
            },
            None => {},
        }
        let ghost p1 = out@;
        match &self.profile {
            Some(p) => {
                push_all(out, &str_to_chars("\"profile\":"));
                push_quoted(out, p.as_str());
                out.push(',');
            },
            None => {},
        }
        let ghost p2 = out@;
        match &self.deck_name {
            Some(d) => {
                push_all(out, &str_to_chars("\"deckName\":"));
                push_quoted(out, d.as_str());
                out.push(',');
            },
            None => {},
        }
        proof {
            assert(p1 =~= out0 + seq!['{'] + (match self.note_id {
                Some(id) => "\"noteId\":"@ + spec_int_text(id as int) + seq![','],
                None => Seq::<char>::empty(),
            }));
            assert(p2 =~= p1 + (match self.profile {
                Some(p) => "\"profile\":"@ + spec_quoted(p@) + seq![','],
                None => Seq::<char>::empty(),
            }));
            assert(out@ =~= p2 + (match self.deck_name {
                Some(d) => "\"deckName\":"@ + spec_quoted(d@) + seq![','],
                None => Seq::<char>::empty(),
            }));
            assert(out@ =~= out0 + spec_note_head(*self));
        }
    }

    /// The trailing members of the note's request text: the optional
    /// modification time and card list, and the closing brace.
    fn push_json_tail(&self, out: &mut Vec<char>)
        ensures
            final(out)@ == old(out)@ + spec_note_tail(*self),
    {
        let ghost out0 = out@;
        match &self.modified {
            Some(m) => {
                push_all(out, &str_to_chars(",\"mod\":"));
                push_int(out, *m);
            },
            None => {},
        }
        let ghost p1 = out@;
        match &self.cards {
            Some(cs) => {
                push_all(out, &str_to_chars(",\"cards\":["));
                push_id_list(out, cs, 0);
                out.push(']');
            },
            None => {},
        }
        out.push('}');
        proof {
            assert(p1 =~= out0 + (match self.modified {
                Some(m) => ",\"mod\":"@ + spec_int_text(m as int),
                None => Seq::<char>::empty(),
            }));
            assert(out@ =~= p1 + (match self.cards {
                Some(cs) => ",\"cards\":["@ + spec_id_list(cs@, 0) + seq![']'],
                None => Seq::<char>::empty(),
            }) + seq!['}']);
            assert(out@ =~= out0 + spec_note_tail(*self));
        }
    }

    /// The required members of the note's request text: the note type, the
    /// tags, and the fields.
    fn push_json_mid(&self, out: &mut Vec<char>)
        ensures
            final(out)@ == old(out)@ + spec_note_mid(*self),
    {
        let ghost p0 = out@;
        push_all(out, &str_to_chars("\"modelName\":"));
        push_quoted(out, self.model_name.as_str());
        push_all(out, &str_to_chars(",\"tags\":["));
        push_str_list(out, &self.tags, 0);
        push_all(out, &str_to_chars("],\"fields\":{"));
        push_str_obj(out, &self.fields, 0);
        out.push('}');
        proof {
            assert(out@ =~= p0 + ("\"modelName\":"@ + spec_quoted(self.model_name@)
                + ",\"tags\":["@ + spec_str_list(self.tags@, 0) + "],\"fields\":{"@
                + spec_str_obj(self.fields@, 0) + seq!['}']));
        }
    }

    /// Appends the request text of the note.
    pub fn push_json(&self, out: &mut Vec<char>)
        ensures
            final(out)@ == old(out)@ + spec_note_json(*self),
    {
        let ghost out0 = out@;
        self.push_json_head(out);
        self.push_json_mid(out);
        self.push_json_tail(out);
        proof {
            vstd::seq_lib::lemma_concat_associative(
                out0,
                spec_note_head(*self),
                spec_note_mid(*self),
            );
            vstd::seq_lib::lemma_concat_associative(
                out0,
                spec_note_head(*self) + spec_note_mid(*self),
                spec_note_tail(*self),
            );
        }
    }

    /// The request text of the note.
    pub fn to_json_text(&self) -> (r: String)
        ensures
            r@ == spec_note_json(*self),
    {
        let mut out: Vec<char> = Vec::new();
        self.push_json(&mut out);
        proof {
            assert(Seq::<char>::empty() + spec_note_json(*self) =~= spec_note_json(*self));
        }
        chars_to_string(&out)
    }
}

} // verus!
