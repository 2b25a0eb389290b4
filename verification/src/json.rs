//! Structured bodies for selectors: a JSON value model, a decoder
//! backed by serde_json, and a canonical stringifier.
//!
//! A number keeps its literal text, so no floating point enters the
//! library and stringification reproduces serde_json's text.

use vstd::prelude::*;
use crate::text::chars_to_string;

verus! {

/// The content types a selector can decode. JSON is the one decoder
/// built in; the set is extensible.
#[derive(Clone, Copy, Debug, PartialEq, Eq, Structural)]
pub enum ContentType {
    /// `application/json` bodies.
    Json,
}

/// A structured body value. Arrays and objects are ordered as the
/// decoder produced them; object keys are unique.
#[derive(Debug, PartialEq, Eq)]
pub enum JsonValue {
    /// JSON `null`.
    Null,
    /// A JSON boolean.
    Bool(bool),
    /// A JSON number, kept as its literal text.
    Number(String),
    /// A JSON string.
    Str(String),
    /// A JSON array.
    Array(Vec<JsonValue>),
    /// A JSON object, in decoder order.
    Object(Vec<(String, JsonValue)>),
}

#[verifier::external_type_specification]
#[verifier::external_body]
pub struct ExJsonValue(serde_json::Value);

/// What JSON decoding yields on given bytes: `None` where the bytes
/// are not a JSON document. The result depends on the bytes alone.
pub uninterp spec fn json_decoded(bytes: Seq<u8>) -> Option<JsonValue>;

/// Relies on `serde_json::Value`'s tree: converts each variant of the
/// decoded value, one for one, into the library's own value. Numbers
/// keep serde_json's literal text; object order is serde_json's.
#[verifier::external_body]
fn value_to_json(v: &serde_json::Value) -> JsonValue {
    match v {
        serde_json::Value::Null => JsonValue::Null,
        serde_json::Value::Bool(b) => JsonValue::Bool(*b),
        serde_json::Value::Number(n) => JsonValue::Number(n.to_string()),
        serde_json::Value::String(s) => JsonValue::Str(s.clone()),
        serde_json::Value::Array(a) => JsonValue::Array(a.iter().map(value_to_json).collect()),
        serde_json::Value::Object(m) => JsonValue::Object(
            m.iter().map(|(k, x)| (k.clone(), value_to_json(x))).collect(),
        ),
    }
}

/// Relies on `serde_json::from_slice`: succeeds exactly on JSON text
/// and yields its value; the error value carries serde_json's report.
#[verifier::external_body]
pub fn decode_json(bytes: &Vec<u8>) -> (r: Result<JsonValue, String>)
    ensures
        r is Ok <==> json_decoded(bytes@) is Some,
        r is Ok ==> json_decoded(bytes@) == Option::Some(r->Ok_0),
{
    match serde_json::from_slice::<serde_json::Value>(bytes.as_slice()) {
        Ok(v) => Ok(value_to_json(&v)),
        Err(e) => Err(e.to_string()),
    }
}

/// The hexadecimal digit for `d`.
pub open spec fn hex_digit(d: nat) -> char
    recommends
        d < 16,
{
    [
        '0', '1', '2', '3', '4', '5', '6', '7', '8', '9', 'a', 'b', 'c', 'd', 'e', 'f',
    ][d as int]
}

/// How one character appears inside a JSON string literal.
pub open spec fn json_escape_char(c: char) -> Seq<char> {
    if c == '"' {
        seq!['\\', '"']
    } else if c == '\\' {
        seq!['\\', '\\']
    } else if c == '\n' {
        seq!['\\', 'n']
    } else if c == '\r' {
        seq!['\\', 'r']
    } else if c == '\t' {
        seq!['\\', 't']
    } else if c == '\u{8}' {
        seq!['\\', 'b']
    } else if c == '\u{c}' {
        seq!['\\', 'f']
    } else if (c as u32) < 32 {
        seq!['\\', 'u', '0', '0', hex_digit(((c as u32) / 16) as nat), hex_digit(
            ((c as u32) % 16) as nat,
        )]
    } else {
        seq![c]
    }
}

/// The body of a JSON string literal for `s`.
pub open spec fn json_escape(s: Seq<char>) -> Seq<char>
    decreases s.len(),
{
    if s.len() == 0 {
        Seq::empty()
    } else {
        json_escape_char(s[0]) + json_escape(s.drop_first())
    }
}

/// The compact JSON text of a value.
pub open spec fn json_compact(v: JsonValue) -> Seq<char>
    decreases v, 0int,
{
    match v {
        JsonValue::Null => seq!['n', 'u', 'l', 'l'],
        JsonValue::Bool(b) => if b {
            seq!['t', 'r', 'u', 'e']
        } else {
            seq!['f', 'a', 'l', 's', 'e']
        },
        JsonValue::Number(text) => text@,
        JsonValue::Str(s) => seq!['"'] + json_escape(s@) + seq!['"'],
        JsonValue::Array(items) => seq!['['] + json_items_to(items@, items@.len() as int)
            + seq![']'],
        JsonValue::Object(members) => seq!['{'] + json_members_to(
            members@,
            members@.len() as int,
        ) + seq!['}'],
    }
}

/// The comma-joined compact text of the first `i` items.
pub open spec fn json_items_to(items: Seq<JsonValue>, i: int) -> Seq<char>
    decreases items, i,
{
    if i <= 0 || i > items.len() {
        Seq::empty()
    } else if i == 1 {
        json_compact(items[0])
    } else {
        json_items_to(items, i - 1) + seq![','] + json_compact(items[i - 1])
    }
}

/// The comma-joined compact text of the first `i` members. Each
/// member is its quoted escaped key, a colon, and its value.
pub open spec fn json_members_to(members: Seq<(String, JsonValue)>, i: int) -> Seq<char>
    decreases members, i,
{
    if i <= 0 || i > members.len() {
        Seq::empty()
    } else if i == 1 {
        seq!['"'] + json_escape(members[0].0@) + seq!['"', ':'] + json_compact(members[0].1)
    } else {
        json_members_to(members, i - 1) + seq![','] + (seq!['"'] + json_escape(
            members[i - 1].0@,
        ) + seq!['"', ':'] + json_compact(members[i - 1].1))
    }
}

/// The canonical text of a selector result: strings stringify without
/// quotes, everything else as its compact JSON text.
pub open spec fn json_canonical_text(v: JsonValue) -> Seq<char> {
    match v {
        JsonValue::Str(s) => s@,
        _ => json_compact(v),
    }
}

/// Append the escaped form of one character.
fn push_escape_char(out: &mut Vec<char>, c: char)
    ensures
        final(out)@ == old(out)@ + json_escape_char(c),
{
    let hex: [char; 16] = [
        '0', '1', '2', '3', '4', '5', '6', '7', '8', '9', 'a', 'b', 'c', 'd', 'e', 'f',
    ];
    if c == '"' {
        out.push('\\');
        out.push('"');
    } else if c == '\\' {
        out.push('\\');
        out.push('\\');
    } else if c == '\n' {
        out.push('\\');
        out.push('n');
    } else if c == '\r' {
        out.push('\\');
        out.push('r');
    } else if c == '\t' {
        out.push('\\');
        out.push('t');
    } else if c == '\u{8}' {
        out.push('\\');
        out.push('b');
    } else if c == '\u{c}' {
        out.push('\\');
        out.push('f');
    } else if (c as u32) < 32 {
        let u = c as u32;
        out.push('\\');
        out.push('u');
        out.push('0');
        out.push('0');
        out.push(hex[(u / 16) as usize]);
        out.push(hex[(u % 16) as usize]);
    } else {
        out.push(c);
    }
    proof {
        assert(final(out)@ =~= old(out)@ + json_escape_char(c));
    }
}

/// Append the escaped body of a JSON string literal.
fn push_escape(out: &mut Vec<char>, s: &Vec<char>)
    ensures
        final(out)@ == old(out)@ + json_escape(s@),
{
    let mut i: usize = 0;
    proof {
        assert(s@.skip(0) =~= s@);
    }
    while i < s.len()
        invariant
            0 <= i <= s@.len(),
            out@ + json_escape(s@.skip(i as int)) == old(out)@ + json_escape(s@),
        decreases s@.len() - i,
    {
        push_escape_char(out, s[i]);
        proof {
            let t = s@.skip(i as int);
            assert(t[0] == s@[i as int]);
            assert(t.drop_first() =~= s@.skip(i + 1));
            assert(json_escape(t) == json_escape_char(t[0]) + json_escape(t.drop_first()));
        }
        i += 1;
    }
    proof {
        assert(s@.skip(s@.len() as int).len() == 0);
    }
}

/// Append the compact JSON text of `v`.
pub fn push_compact(v: &JsonValue, out: &mut Vec<char>)
    ensures
        final(out)@ == old(out)@ + json_compact(*v),
    decreases *v,
{
    match v {
        JsonValue::Null => {
            out.push('n');
            out.push('u');
            out.push('l');
            out.push('l');
            proof {
                assert(final(out)@ =~= old(out)@ + json_compact(*v));
            }
        },
        JsonValue::Bool(b) => {
            if *b {
                out.push('t');
                out.push('r');
                out.push('u');
                out.push('e');
            } else {
                out.push('f');
                out.push('a');
                out.push('l');
                out.push('s');
                out.push('e');
            }
            proof {
                assert(final(out)@ =~= old(out)@ + json_compact(*v));
            }
        },
        JsonValue::Number(text) => {
            let cs = crate::text::str_chars(text.as_str());
            crate::text::push_chars(out, &cs);
            proof {
                assert(final(out)@ =~= old(out)@ + json_compact(*v));
            }
        },
        JsonValue::Str(s) => {
            let cs = crate::text::str_chars(s.as_str());
            out.push('"');
            push_escape(out, &cs);
            out.push('"');
            proof {
                assert(final(out)@ =~= old(out)@ + json_compact(*v));
            }
        },
        JsonValue::Array(items) => {
            out.push('[');
            let mut i: usize = 0;
            while i < items.len()
                invariant
                    0 <= i <= items@.len(),
                    *v is Array,
                    v->Array_0 == *items,
                    out@ == old(out)@ + seq!['['] + json_items_to(items@, i as int),
                decreases items@.len() - i,
            {
                let ghost pre = out@;
                if i > 0 {
                    out.push(',');
                }
                proof {
                    assert(decreases_to!(*v => v->Array_0));
                    assert(decreases_to!(*items => items@));
                    assert(decreases_to!(items@ => items@[i as int]));
                    assert(decreases_to!(*v => items@[i as int]));
                }
                push_compact(&items[i], out);
                proof {
                    if i == 0 {
                        assert(json_items_to(items@, 1) == json_compact(items@[0]));
                        assert(out@ =~= old(out)@ + seq!['['] + json_items_to(items@, 1));
                    } else {
                        assert(json_items_to(items@, i + 1) == json_items_to(items@, i as int)
                            + seq![','] + json_compact(items@[i as int]));
                        assert(out@ =~= old(out)@ + seq!['['] + json_items_to(items@, i + 1));
                    }
                }
                i += 1;
            }
            out.push(']');
            proof {
                assert(json_compact(*v) == seq!['['] + json_items_to(
                    items@,
                    items@.len() as int,
                ) + seq![']']);
                assert(final(out)@ =~= old(out)@ + json_compact(*v));
            }
        },
        JsonValue::Object(members) => {
            out.push('{');
            let mut i: usize = 0;
            while i < members.len()
                invariant
                    0 <= i <= members@.len(),
                    *v is Object,
                    v->Object_0 == *members,
                    out@ == old(out)@ + seq!['{'] + json_members_to(members@, i as int),
                decreases members@.len() - i,
            {
                if i > 0 {
                    out.push(',');
                }
                let cs = crate::text::str_chars(members[i].0.as_str());
                out.push('"');
                push_escape(out, &cs);
                out.push('"');
                out.push(':');
                proof {
                    assert(decreases_to!(*v => v->Object_0));
                    assert(decreases_to!(*members => members@));
                    assert(decreases_to!(members@ => members@[i as int]));
                    assert(decreases_to!(members@[i as int] => members@[i as int].1));
                    assert(decreases_to!(*v => members@[i as int].1));
                }
                push_compact(&members[i].1, out);
                proof {
                    let one = seq!['"'] + json_escape(members@[i as int].0@) + seq!['"', ':']
                        + json_compact(members@[i as int].1);
                    if i == 0 {
                        assert(json_members_to(members@, 1) == one);
                        assert(out@ =~= old(out)@ + seq!['{'] + json_members_to(members@, 1));
                    } else {
                        assert(json_members_to(members@, i + 1) == json_members_to(
                            members@,
                            i as int,
                        ) + seq![','] + one);
                        assert(out@ =~= old(out)@ + seq!['{'] + json_members_to(members@, i + 1));
                    }
                }
                i += 1;
            }
            out.push('}');
            proof {
                assert(json_compact(*v) == seq!['{'] + json_members_to(
                    members@,
                    members@.len() as int,
                ) + seq!['}']);
                assert(final(out)@ =~= old(out)@ + json_compact(*v));
            }
        },
    }
}

/// The canonical text of a selector result, as a string.
pub fn canonical_text(v: &JsonValue) -> (r: String)
    ensures
        r@ == json_canonical_text(*v),
{
    match v {
        JsonValue::Str(s) => s.clone(),
        _ => {
            let mut out: Vec<char> = Vec::new();
            push_compact(v, &mut out);
            proof {
                assert(out@ =~= json_compact(*v));
            }
            chars_to_string(&out)
        },
    }
}

/// Does the content-type text name JSON? The check looks for the
/// substring `json`, so `application/json` and vendor suffixes match.
pub open spec fn names_json(s: Seq<char>) -> bool {
    exists|i: int|
        0 <= i && i + 4 <= s.len() && #[trigger] s.subrange(i, i + 4) == seq!['j', 's', 'o', 'n']
}

/// Infer a content type from a Content-Type header value.
pub fn content_type_of(header: &Vec<char>) -> (r: Option<ContentType>)
    ensures
        r is Some <==> names_json(header@),
        r is Some ==> r->0 == ContentType::Json,
{
    if header.len() < 4 {
        proof {
            assert(!names_json(header@));
        }
        return Option::None;
    }
    let mut i: usize = 0;
    while i <= header.len() - 4
        invariant
            header@.len() >= 4,
            0 <= i,
            i <= header@.len() - 4 + 1,
            forall|j: int| 0 <= j < i ==> #[trigger] header@.subrange(j, j + 4) != seq![
                'j',
                's',
                'o',
                'n',
            ],
        decreases header@.len() - i,
    {
        if header[i] == 'j' && header[i + 1] == 's' && header[i + 2] == 'o' && header[i + 3]
            == 'n' {
            proof {
                assert(header@.subrange(i as int, i + 4) =~= seq!['j', 's', 'o', 'n']);
            }
            return Option::Some(ContentType::Json);
        }
        proof {
            assert(header@.subrange(i as int, i + 4) != seq!['j', 's', 'o', 'n']) by {
                if header@.subrange(i as int, i + 4) == seq!['j', 's', 'o', 'n'] {
                    assert(header@.subrange(i as int, i + 4)[0] == header@[i as int]);
                    assert(header@.subrange(i as int, i + 4)[1] == header@[i + 1]);
                    assert(header@.subrange(i as int, i + 4)[2] == header@[i + 2]);
                    assert(header@.subrange(i as int, i + 4)[3] == header@[i + 3]);
                }
            }
        }
        i += 1;
    }
    proof {
        assert(!names_json(header@));
    }
    Option::None
}

} // verus!
