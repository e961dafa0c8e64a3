//! Flat JSON objects, written by `serde_json`.

use crate::order::increasing;
use crate::text::{decimal, joined};
use serde_json::Value;
use vstd::prelude::*;

verus! {

/// A value in an object.
#[derive(Debug, Clone, PartialEq, Eq)]
pub enum Json {
    Bool(bool),
    Uint(u64),
    Int(i64),
    Text(String),
}

/// A hexadecimal digit.
pub open spec fn hex_digit(n: nat) -> char {
    if n < 10 {
        (48 + n) as char
    } else {
        (87 + n) as char
    }
}

/// A character in a JSON string.
pub open spec fn json_char(c: char) -> Seq<char> {
    if c == '"' {
        seq!['\\', '"']
    } else if c == '\\' {
        seq!['\\', '\\']
    } else if c == '\u{8}' {
        seq!['\\', 'b']
    } else if c == '\t' {
        seq!['\\', 't']
    } else if c == '\n' {
        seq!['\\', 'n']
    } else if c == '\u{c}' {
        seq!['\\', 'f']
    } else if c == '\r' {
        seq!['\\', 'r']
    } else if (c as u32) < 32 {
        seq!['\\', 'u', '0', '0', hex_digit((c as nat) / 16), hex_digit((c as nat) % 16)]
    } else {
        seq![c]
    }
}

/// The characters of a text in a JSON string.
pub open spec fn json_escaped(s: Seq<char>) -> Seq<char>
    decreases s.len(),
{
    if s.len() == 0 {
        Seq::empty()
    } else {
        json_escaped(s.drop_last()) + json_char(s.last())
    }
}

/// A JSON string.
pub open spec fn json_string(s: Seq<char>) -> Seq<char> {
    seq!['"'] + json_escaped(s) + seq!['"']
}

/// A value as it is written.
pub open spec fn json_value(v: Json) -> Seq<char> {
    match v {
        Json::Bool(true) => "true"@,
        Json::Bool(false) => "false"@,
        Json::Uint(n) => decimal(n as nat),
        Json::Int(n) => if n < 0 {
            seq!['-'] + decimal((-n) as nat)
        } else {
            decimal(n as nat)
        },
        Json::Text(t) => json_string(t@),
    }
}

/// The names of the fields and their values as they are written.
pub open spec fn field_texts(fields: Seq<(String, Json)>) -> Seq<(Seq<char>, Seq<char>)> {
    fields.map_values(|f: (String, Json)| (f.0@, json_value(f.1)))
}

/// The names of the fields.
pub open spec fn field_names(fields: Seq<(String, Json)>) -> Seq<Seq<char>> {
    fields.map_values(|f: (String, Json)| f.0@)
}

/// An object with the given names and values, as it is written: without spaces.
pub open spec fn json_object(fields: Seq<(Seq<char>, Seq<char>)>) -> Seq<char> {
    seq!['{'] + joined(
        fields.map_values(|f: (Seq<char>, Seq<char>)| json_string(f.0) + seq![':'] + f.1),
        seq![','],
    ) + seq!['}']
}

/// `serde_json::Map::from_iter` and `<serde_json::Value as Display>::fmt`: the object is written
/// without spaces, with the fields in the order of their names, strings escaped as JSON asks for,
/// and numbers in decimal.
#[verifier::external_body]
pub(crate) fn write_object(fields: Vec<(String, Json)>) -> (text: String)
    requires
        increasing(field_names(fields@)),
    ensures
        text@ == json_object(field_texts(fields@)),
{
    Value::Object(fields.into_iter().map(|(name, value)| (name, match value {
        Json::Bool(b) => Value::from(b),
        Json::Uint(n) => Value::from(n),
        Json::Int(n) => Value::from(n),
        Json::Text(t) => Value::from(t),
    })).collect()).to_string()
}

/// Text of printable ASCII characters other than quotes and backslashes stands in a JSON string
/// as it is.
pub proof fn law_plain_text_is_not_escaped(s: Seq<char>)
    requires
        forall|i: int|
            0 <= i < s.len() ==> ' ' <= #[trigger] s[i] && s[i] <= '~' && s[i] != '"' && s[i] != '\\',
    ensures
        json_string(s) == seq!['"'] + s + seq!['"'],
    decreases s.len(),
{
    if s.len() > 0 {
        let rest = s.drop_last();
        assert forall|i: int| 0 <= i < rest.len() implies ' ' <= #[trigger] rest[i] && rest[i] <= '~'
            && rest[i] != '"' && rest[i] != '\\' by {
            assert(s[i] == rest[i]);
        }
        law_plain_text_is_not_escaped(rest);
        assert(s[s.len() - 1] == s.last());
        let a = seq!['"'] + json_escaped(rest) + seq!['"'];
        let b = seq!['"'] + rest + seq!['"'];
        assert(json_escaped(rest) =~= a.subrange(1, a.len() - 1));
        assert(rest =~= b.subrange(1, b.len() - 1));
        assert(s =~= rest + seq![s.last()]);
    } else {
        assert(json_escaped(s) =~= s);
    }
}

/// The characters of a text are escaped one by one, in order.
pub proof fn law_characters_are_escaped_one_by_one(a: Seq<char>, b: Seq<char>, c: char)
    ensures
        json_escaped(seq![c]) == json_char(c),
        json_escaped(a + b) == json_escaped(a) + json_escaped(b),
    decreases b.len(),
{
    assert(seq![c].drop_last() =~= Seq::empty());
    assert(json_escaped(seq![c].drop_last()) =~= Seq::empty());
    assert(json_escaped(seq![c]) =~= json_char(c));
    if b.len() == 0 {
        assert(a + b =~= a);
        assert(json_escaped(a) + json_escaped(b) =~= json_escaped(a));
    } else {
        law_characters_are_escaped_one_by_one(a, b.drop_last(), c);
        assert((a + b).drop_last() =~= a + b.drop_last());
        assert(json_escaped(a + b) =~= json_escaped(a) + json_escaped(b));
    }
}

} // verus!
