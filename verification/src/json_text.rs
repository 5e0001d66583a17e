//! Reading JSON values from text and writing them.

use crate::json::{Json, JsonField, JsonNumber, JsonView};
use crate::text::slice_of;
use vstd::prelude::*;

verus! {

/// What `serde_json::from_str` reads from a text; nothing where it refuses the text.
pub uninterp spec fn parsed_json(text: Seq<char>) -> Option<JsonView>;

/// What `serde_json::to_string` writes for a value.
pub uninterp spec fn json_text(value: JsonView) -> Seq<char>;

/// A JSON value as the outside crate holds it.
#[verifier::external_type_specification]
#[verifier::external_body]
pub struct ExValue(serde_json::Value);

/// A number as the outside crate holds it.
#[verifier::external_type_specification]
#[verifier::external_body]
pub struct ExNumber(serde_json::Number);

/// `serde_json::Number` in the library's form: an integer where it is one, else its text.
#[verifier::external_body]
fn number_of(n: serde_json::Number) -> (r: JsonNumber) {
    match (n.as_u64(), n.as_i64()) {
        (Some(u), _) => JsonNumber::Unsigned(u),
        (None, Some(i)) => JsonNumber::Negative(i),
        (None, None) => JsonNumber::Float(n.to_string()),
    }
}

/// `serde_json::Value` in the library's form, variant for variant.
#[verifier::external_body]
fn json_of(value: serde_json::Value) -> (r: Json) {
    match value {
        serde_json::Value::Null => Json::Null,
        serde_json::Value::Bool(b) => Json::Bool(b),
        serde_json::Value::Number(n) => Json::Number(number_of(n)),
        serde_json::Value::String(s) => Json::Text(s),
        serde_json::Value::Array(items) => Json::Array(items.into_iter().map(json_of).collect()),
        serde_json::Value::Object(map) => Json::Object(
            map.into_iter().map(|(key, v)| JsonField { key, value: json_of(v) }).collect(),
        ),
    }
}

/// `serde_json::Number::from_f64` of the number that `str::parse` reads from its text: it
/// gives back the number that `serde_json` wrote as that text.
#[verifier::external_body]
fn value_of_text(text: &str) -> (r: serde_json::Value) {
    text.parse().ok().and_then(serde_json::Number::from_f64).into()
}

/// The library's form as a `serde_json::Value`, variant for variant.
#[verifier::external_body]
fn value_of(json: &Json) -> (r: serde_json::Value) {
    match json {
        Json::Null => serde_json::Value::Null,
        Json::Bool(b) => (*b).into(),
        Json::Number(JsonNumber::Unsigned(u)) => (*u).into(),
        Json::Number(JsonNumber::Negative(i)) => (*i).into(),
        Json::Number(JsonNumber::Float(t)) => value_of_text(t.as_str()),
        Json::Text(s) => s.as_str().into(),
        Json::Array(items) => serde_json::Value::Array(items.iter().map(value_of).collect()),
        Json::Object(fields) =>
            fields.iter().map(|f| (f.key.clone(), value_of(&f.value))).collect(),
    }
}

/// `serde_json::from_str` for a value of any kind: the result depends on the
/// text alone. Where the crate refuses the text there is no value.
#[verifier::external_body]
fn read_value(text: &str) -> (r: Option<Json>)
    ensures
        r.deep_view() == parsed_json(text@),
{
    serde_json::from_str::<serde_json::Value>(text).ok().map(json_of)
}

/// `serde_json::to_string` for a value of any kind, which does not fail: the
/// text depends on the value alone, object members being written in the order
/// of their keys.
#[verifier::external_body]
fn write_value(value: &Json) -> (r: String)
    ensures
        r@ == json_text(value@),
{
    serde_json::to_string(&value_of(value)).unwrap_or_default()
}

impl Json {
    /// Reads a value from its text.
    pub fn parse(text: &str) -> (r: Option<Json>)
        ensures
            r.deep_view() == parsed_json(text@),
    {
        read_value(text)
    }

    /// The text of the value.
    pub fn to_text(&self) -> (r: String)
        ensures
            r@ == json_text(self@),
    {
        write_value(self)
    }
}

/// The hexadecimal digit for `n`.
pub open spec fn hex_digit(n: int) -> char {
    if n < 10 {
        (('0' as int) + n) as char
    } else {
        (('a' as int) + n - 10) as char
    }
}

/// How a character is written inside a JSON string.
pub open spec fn escaped_char(c: char) -> Seq<char> {
    if c == '"' {
        seq!['\\', '"']
    } else if c == '\\' {
        seq!['\\', '\\']
    } else if c == '\n' {
        seq!['\\', 'n']
    } else if c == '\r' {
        seq!['\\', 'r']
    } else if c == '\t' {
        seq!['\\', 't']
    } else if c == '\u{8}' {
        seq!['\\', 'b']
    } else if c == '\u{c}' {
        seq!['\\', 'f']
    } else if ' ' > c {
        seq!['\\', 'u', '0', '0', hex_digit(c as int / 16), hex_digit(c as int % 16)]
    } else {
        seq![c]
    }
}

/// How a text is written inside a JSON string, without the quotes.
pub open spec fn json_escaped(s: Seq<char>) -> Seq<char>
    decreases s.len(),
{
    if s.len() == 0 {
        Seq::empty()
    } else {
        json_escaped(s.subrange(0, s.len() - 1)) + escaped_char(s[s.len() - 1])
    }
}

/// A text as a JSON string.
pub open spec fn json_quoted(s: Seq<char>) -> Seq<char> {
    seq!['"'] + json_escaped(s) + seq!['"']
}

/// `serde_json::to_string` for a text, which does not fail: the text between
/// quotes, with quotes, backslashes and control characters below the space escaped.
#[verifier::external_body]
fn write_string(s: &str) -> (r: String)
    ensures
        r@ == json_quoted(s@),
{
    serde_json::to_string(s).unwrap_or_default()
}

/// A text as a JSON string.
pub fn quote(s: &str) -> (r: String)
    ensures
        r@ == json_quoted(s@),
{
    write_string(s)
}

/// A text as it stands between the quotes of a JSON string.
pub fn json_escape_string_content(value: &str) -> (r: String)
    ensures
        r@ == json_escaped(value@),
{
    let encoded: String = write_string(value);
    let n: usize = encoded.as_str().unicode_len();
    let out: String = slice_of(encoded.as_str(), 1, n - 1);
    assert(out@ =~= json_escaped(value@));
    out
}

/// Escaping a joined text is joining the escaped texts.
pub proof fn lemma_escaped_join(a: Seq<char>, b: Seq<char>)
    ensures
        json_escaped(a + b) == json_escaped(a) + json_escaped(b),
    decreases b.len(),
{
    if b.len() == 0 {
        assert(a + b =~= a);
        assert(json_escaped(a) + Seq::<char>::empty() =~= json_escaped(a));
    } else {
        let n = b.len() - 1;
        let ab = a + b;
        assert(ab.subrange(0, ab.len() - 1) =~= a + b.subrange(0, n));
        lemma_escaped_join(a, b.subrange(0, n));
        assert(json_escaped(ab) =~= json_escaped(a) + json_escaped(b));
    }
}

} // verus!
