//! A plain JSON value tree: what raw dictionary records and API payloads
//! hold, together with a verified writer producing compact JSON text.

use vstd::prelude::*;
use crate::text::{str_to_chars, chars_to_string, push_all};

verus! {

/// One JSON value.  Integer numbers are held exactly; any other number
/// keeps its source text.
pub enum Json {
    Null,
    Bool(bool),
    Int(i64),
    Num(String),
    Text(String),
    Arr(Vec<Json>),
    Obj(Vec<(String, Json)>),
}

/// The value stored under `key` in an object's members, if any.
pub open spec fn spec_member(ms: Seq<(String, Json)>, key: Seq<char>) -> Option<Json>
    decreases ms.len(),
{
    if ms.len() == 0 {
        None
    } else if ms[0].0@ == key {
        Some(ms[0].1)
    } else {
        spec_member(ms.drop_first(), key)
    }
}

impl Json {
    /// Looks up an object member by key; `None` on other values or a
    /// missing key.
    pub fn get<'a>(&'a self, key: &str) -> (r: Option<&'a Json>)
        ensures
            self is Obj ==> (r is Some <==> spec_member(self->Obj_0@, key@) is Some),
            self is Obj && r is Some ==> *r->0 == spec_member(self->Obj_0@, key@)->0,
            !(self is Obj) ==> r is None,
    {
        match self {
            Json::Obj(ms) => {
                let ghost mv = ms@;
                proof {
                    assert(mv == self->Obj_0@);
                }
                let mut i: usize = 0;
                proof {
                    assert(mv.skip(0) =~= mv);
                }
                while i < ms.len()
                    invariant
                        i <= mv.len(),
                        mv == ms@,
                        self is Obj,
                        mv == self->Obj_0@,
                        spec_member(mv, key@) == spec_member(mv.skip(i as int), key@),
                    decreases mv.len() - i,
                {
                    let ghost pre = mv.skip(i as int);
                    if crate::text::str_eq(ms[i].0.as_str(), key) {
                        proof {
                            assert(pre[0] == mv[i as int]);
                            assert(spec_member(pre, key@) == Some(pre[0].1));
                            assert(spec_member(mv, key@) == Some(mv[i as int].1));
                        }
                        return Some(&ms[i].1);
                    }
                    i = i + 1;
                    proof {
                        assert(pre.drop_first() =~= mv.skip(i as int));
                    }
                }
                proof {
                    assert(mv.skip(mv.len() as int) =~= Seq::<(String, Json)>::empty());
                }
                None
            },
            _ => None,
        }
    }
}

/// One hexadecimal digit, lower case.
pub open spec fn hex_digit(d: int) -> char {
    if d == 0 {
        '0'
    } else if d == 1 {
        '1'
    } else if d == 2 {
        '2'
    } else if d == 3 {
        '3'
    } else if d == 4 {
        '4'
    } else if d == 5 {
        '5'
    } else if d == 6 {
        '6'
    } else if d == 7 {
        '7'
    } else if d == 8 {
        '8'
    } else if d == 9 {
        '9'
    } else if d == 10 {
        'a'
    } else if d == 11 {
        'b'
    } else if d == 12 {
        'c'
    } else if d == 13 {
        'd'
    } else if d == 14 {
        'e'
    } else {
        'f'
    }
}

/// How one character appears inside a JSON string literal: quotes and
/// backslashes escaped, control characters as short escapes or hexadecimal.
pub open spec fn spec_escape_char(c: char) -> Seq<char> {
    if c == '"' {
        seq!['\\', '"']
    } else if c == '\\' {
        seq!['\\', '\\']
    } else if c == '\n' {
        seq!['\\', 'n']
    } else if c == '\r' {
        seq!['\\', 'r']
    } else if c == '\t' {
        seq!['\\', 't']
    } else if c == '\u{0008}' {
        seq!['\\', 'b']
    } else if c == '\u{000C}' {
        seq!['\\', 'f']
    } else if (c as u32) < 0x20 {
        seq!['\\', 'u', '0', '0', hex_digit(c as u32 as int / 16), hex_digit(c as u32 as int % 16)]
    } else {
        seq![c]
    }
}

/// A string's characters escaped for a JSON string literal.
pub open spec fn spec_escape(s: Seq<char>) -> Seq<char>
    decreases s.len(),
{
    if s.len() == 0 {
        Seq::<char>::empty()
    } else {
        spec_escape_char(s[0]) + spec_escape(s.drop_first())
    }
}

/// A quoted JSON string literal.
pub open spec fn spec_quoted(s: Seq<char>) -> Seq<char> {
    seq!['"'] + spec_escape(s) + seq!['"']
}

fn hex_digit_exec(d: u32) -> (r: char)
    requires
        d < 16,
    ensures
        r == hex_digit(d as int),
{
    if d == 0 {
        '0'
    } else if d == 1 {
        '1'
    } else if d == 2 {
        '2'
    } else if d == 3 {
        '3'
    } else if d == 4 {
        '4'
    } else if d == 5 {
        '5'
    } else if d == 6 {
        '6'
    } else if d == 7 {
        '7'
    } else if d == 8 {
        '8'
    } else if d == 9 {
        '9'
    } else if d == 10 {
        'a'
    } else if d == 11 {
        'b'
    } else if d == 12 {
        'c'
    } else if d == 13 {
        'd'
    } else if d == 14 {
        'e'
    } else {
        'f'
    }
}

/// Appends the escaped form of one character.
fn push_escaped(out: &mut Vec<char>, c: char)
    ensures
        final(out)@ == old(out)@ + spec_escape_char(c),
{
    let ghost out0 = out@;
    if c == '"' {
        out.push('\\');
        out.push('"');
    } else if c == '\\' {
        out.push('\\');
        out.push('\\');
    } else if c == '\n' {
        out.push('\\');
        out.push('n');
    } else if c == '\r' {
        out.push('\\');
        out.push('r');
    } else if c == '\t' {
        out.push('\\');
        out.push('t');
    } else if c == '\u{0008}' {
        out.push('\\');
        out.push('b');
    } else if c == '\u{000C}' {
        out.push('\\');
        out.push('f');
    } else if (c as u32) < 0x20 {
        out.push('\\');
        out.push('u');
        out.push('0');
        out.push('0');
        out.push(hex_digit_exec(c as u32 / 16));
        out.push(hex_digit_exec(c as u32 % 16));
    } else {
        out.push(c);
    }
    proof {
        assert(out@ =~= out0 + spec_escape_char(c));
    }
}

/// Appends a quoted JSON string literal.
pub fn push_quoted(out: &mut Vec<char>, s: &str)
    ensures
        final(out)@ == old(out)@ + spec_quoted(s@),
{
    let ghost out0 = out@;
    let v = str_to_chars(s);
    out.push('"');
    let mut i: usize = 0;
    while i < v.len()
        invariant
            i <= v@.len(),
            v@ == s@,
            out@ == out0 + seq!['"'] + spec_escape(s@.take(i as int)),
        decreases v@.len() - i,
    {
        push_escaped(out, v[i]);
        i = i + 1;
        proof {
            lemma_escape_snoc(s@, i as int);
        }
    }
    out.push('"');
    proof {
        assert(s@.take(s@.len() as int) =~= s@);
        assert(out@ =~= out0 + spec_quoted(s@));
    }
}

/// Escaping a prefix extends by the escape of the next character.
proof fn lemma_escape_snoc(s: Seq<char>, i: int)
    requires
        1 <= i <= s.len(),
    ensures
        spec_escape(s.take(i)) == spec_escape(s.take(i - 1)) + spec_escape_char(s[i - 1]),
    decreases i,
{
    if i == 1 {
        assert(s.take(1).drop_first() =~= Seq::<char>::empty());
        assert(spec_escape(Seq::<char>::empty()) == Seq::<char>::empty());
        assert(spec_escape(s.take(1)) == spec_escape_char(s.take(1)[0]) + spec_escape(
            s.take(1).drop_first(),
        ));
        assert(spec_escape_char(s[0]) + Seq::<char>::empty() =~= spec_escape_char(s[0]));
        assert(s.take(0) =~= Seq::<char>::empty());
        assert(Seq::<char>::empty() + spec_escape_char(s[0]) =~= spec_escape_char(s[0]));
    } else {
        assert(s.take(i).drop_first() =~= s.drop_first().take(i - 1));
        assert(s.take(i - 1).drop_first() =~= s.drop_first().take(i - 2));
        lemma_escape_snoc(s.drop_first(), i - 1);
        assert(spec_escape(s.take(i)) == spec_escape_char(s[0]) + spec_escape(
            s.drop_first().take(i - 1),
        ));
        assert(spec_escape(s.take(i - 1)) == spec_escape_char(s[0]) + spec_escape(
            s.drop_first().take(i - 2),
        ));
        assert(s.drop_first()[i - 2] == s[i - 1]);
        assert(spec_escape_char(s[0]) + (spec_escape(s.drop_first().take(i - 2))
            + spec_escape_char(s[i - 1])) =~= (spec_escape_char(s[0]) + spec_escape(
            s.drop_first().take(i - 2),
        )) + spec_escape_char(s[i - 1]));
    }
}

/// The decimal text of an integer, with a leading minus sign when negative.
pub open spec fn spec_int_text(n: int) -> Seq<char> {
    if n < 0 {
        seq!['-'] + spec_nat_digits(-n)
    } else {
        spec_nat_digits(n)
    }
}

/// Some decimal spelling of a nonnegative value: nonempty digits naming it
/// without a leading zero.
pub open spec fn spec_nat_digits(n: int) -> Seq<char> {
    choose|s: Seq<char>|
        {
            &&& s.len() >= 1
            &&& (forall|q: int|
                0 <= q < s.len() ==> crate::numeric::is_digit(#[trigger] s[q]))
            &&& crate::numeric::digits_value(s) == n
            &&& (s[0] != '0' || s.len() == 1)
        }
}

/// The compact JSON text of a value: no spaces, object members in stored
/// order, strings escaped.
pub open spec fn spec_render_json(v: Json) -> Seq<char>
    decreases v,
{
    match v {
        Json::Null => "null"@,
        Json::Bool(b) => if b {
            "true"@
        } else {
            "false"@
        },
        Json::Int(n) => spec_int_text(n as int),
        Json::Num(s) => s@,
        Json::Text(s) => spec_quoted(s@),
        Json::Arr(items) => seq!['['] + spec_render_items(items@, 0) + seq![']'],
        Json::Obj(ms) => seq!['{'] + spec_render_members(ms@, 0) + seq!['}'],
    }
}

pub open spec fn spec_render_items(items: Seq<Json>, i: int) -> Seq<char>
    decreases items, items.len() - i,
{
    if i < 0 || i >= items.len() {
        Seq::<char>::empty()
    } else if i + 1 == items.len() {
        spec_render_json(items[i])
    } else {
        spec_render_json(items[i]) + seq![','] + spec_render_items(items, i + 1)
    }
}

pub open spec fn spec_render_members(ms: Seq<(String, Json)>, i: int) -> Seq<char>
    decreases ms, ms.len() - i,
{
    if i < 0 || i >= ms.len() {
        Seq::<char>::empty()
    } else if i + 1 == ms.len() {
        spec_quoted(ms[i].0@) + seq![':'] + spec_render_json(ms[i].1)
    } else {
        spec_quoted(ms[i].0@) + seq![':'] + spec_render_json(ms[i].1) + seq![',']
            + spec_render_members(ms, i + 1)
    }
}

/// A concrete digit string without a leading zero is the canonical decimal
/// spelling of its value.
pub proof fn lemma_nat_digits_canonical(s: Seq<char>, n: int)
    requires
        s.len() >= 1,
        forall|q: int| 0 <= q < s.len() ==> crate::numeric::is_digit(#[trigger] s[q]),
        crate::numeric::digits_value(s) == n,
        s[0] != '0' || s.len() == 1,
    ensures
        s == spec_nat_digits(n),
{
    let picked = spec_nat_digits(n);
    assert(picked.len() >= 1 && (forall|q: int|
        0 <= q < picked.len() ==> crate::numeric::is_digit(#[trigger] picked[q]))
        && crate::numeric::digits_value(picked) == n && (picked[0] != '0' || picked.len()
        == 1)) by {
        assert({
            &&& s.len() >= 1
            &&& (forall|q: int|
                0 <= q < s.len() ==> crate::numeric::is_digit(#[trigger] s[q]))
            &&& crate::numeric::digits_value(s) == n
            &&& (s[0] != '0' || s.len() == 1)
        });
    };
    crate::numeric::lemma_canonical_digits_unique(s, picked);
}

/// Appends the decimal text of a signed integer.
pub fn push_int(out: &mut Vec<char>, n: i64)
    ensures
        final(out)@ == old(out)@ + spec_int_text(n as int),
{
    let ghost out0 = out@;
    if n < 0 {
        out.push('-');
        let mag: u64 = if n == i64::MIN {
            9223372036854775808u64
        } else {
            (-n) as u64
        };
        proof {
            assert(mag as int == -(n as int));
        }
        let mut digits = crate::numeric::u64_to_dec(mag);
        proof {
            lemma_nat_digits_canonical(digits@, mag as int);
        }
        push_all(out, &digits);
        proof {
            assert(out@ =~= out0 + spec_int_text(n as int));
        }
    } else {
        let mut digits = crate::numeric::u64_to_dec(n as u64);
        proof {
            lemma_nat_digits_canonical(digits@, n as int);
        }
        push_all(out, &digits);
        proof {
            assert(out@ =~= out0 + spec_int_text(n as int));
        }
    }
}

/// Appends the compact JSON text of a value.
pub fn push_json(out: &mut Vec<char>, v: &Json)
    ensures
        final(out)@ == old(out)@ + spec_render_json(*v),
    decreases *v,
{
    let ghost out0 = out@;
    match v {
        Json::Null => {
            crate::text::push_all(out, &str_to_chars("null"));
        },
        Json::Bool(b) => {
            if *b {
                crate::text::push_all(out, &str_to_chars("true"));
            } else {
                crate::text::push_all(out, &str_to_chars("false"));
            }
        },
        Json::Int(n) => {
            push_int(out, *n);
        },
        Json::Num(s) => {
            crate::text::push_all(out, &str_to_chars(s.as_str()));
        },
        Json::Text(s) => {
            push_quoted(out, s.as_str());
        },
        Json::Arr(items) => {
            out.push('[');
            push_items(out, items, 0);
            out.push(']');
            proof {
                assert(out@ =~= out0 + spec_render_json(*v));
            }
        },
        Json::Obj(ms) => {
            out.push('{');
            push_members(out, ms, 0);
            out.push('}');
            proof {
                assert(out@ =~= out0 + spec_render_json(*v));
            }
        },
    }
}

pub fn push_items(out: &mut Vec<char>, items: &Vec<Json>, i: usize)
    requires
        i <= items@.len(),
    ensures
        final(out)@ == old(out)@ + spec_render_items(items@, i as int),
    decreases items@, items@.len() - i,
{
    let ghost out0 = out@;
    if i == items.len() {
        proof {
            assert(out@ =~= out0 + spec_render_items(items@, i as int));
        }
        return;
    }
    push_json(out, &items[i]);
    if i + 1 < items.len() {
        out.push(',');
        push_items(out, items, i + 1);
        proof {
            assert(out@ =~= out0 + spec_render_items(items@, i as int));
        }
    } else {
        proof {
            assert(out@ =~= out0 + spec_render_items(items@, i as int));
        }
    }
}

fn push_members(out: &mut Vec<char>, ms: &Vec<(String, Json)>, i: usize)
    requires
        i <= ms@.len(),
    ensures
        final(out)@ == old(out)@ + spec_render_members(ms@, i as int),
    decreases ms@, ms@.len() - i,
{
    let ghost out0 = out@;
    if i == ms.len() {
        proof {
            assert(out@ =~= out0 + spec_render_members(ms@, i as int));
        }
        return;
    }
    push_quoted(out, ms[i].0.as_str());
    out.push(':');
    push_json(out, &ms[i].1);
    if i + 1 < ms.len() {
        out.push(',');
        push_members(out, ms, i + 1);
        proof {
            assert(out@ =~= out0 + spec_render_members(ms@, i as int));
        }
    } else {
        proof {
            assert(out@ =~= out0 + spec_render_members(ms@, i as int));
        }
    }
}

/// The compact JSON text of a value.
pub fn render_json(v: &Json) -> (r: String)
    ensures
        r@ == spec_render_json(*v),
{
    let mut out: Vec<char> = Vec::new();
    push_json(&mut out, v);
    proof {
        assert(Seq::<char>::empty() + spec_render_json(*v) =~= spec_render_json(*v));
    }
    chars_to_string(&out)
}

} // verus!
