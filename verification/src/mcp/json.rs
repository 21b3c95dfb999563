//! The JSON text the listings produce, and the calls into serde_json that
//! write it.
use vstd::prelude::*;

verus! {

/// A lower-case hexadecimal digit, for `0 <= d < 16`.
pub open spec fn hex_digit(d: int) -> char {
    seq!['0', '1', '2', '3', '4', '5', '6', '7', '8', '9', 'a', 'b', 'c', 'd', 'e', 'f'][d]
}

/// How one character of a string appears inside a JSON string literal: the
/// quote and the backslash are escaped, the five control characters with a
/// short escape take it, every other control character below 0x20 becomes
/// `\u00XX`, and any other character stands for itself.
pub open spec fn json_escaped_char(c: char) -> Seq<char> {
    if c == '"' {
        seq!['\\', '"']
    } else if c == '\\' {
        seq!['\\', '\\']
    } else if c == '\u{8}' {
        seq!['\\', 'b']
    } else if c == '\t' {
        seq!['\\', 't']
    } else if c == '\n' {
        seq!['\\', 'n']
    } else if c == '\u{c}' {
        seq!['\\', 'f']
    } else if c == '\r' {
        seq!['\\', 'r']
    } else if (c as int) < 0x20 {
        seq!['\\', 'u', '0', '0', hex_digit(c as int / 16), hex_digit(c as int % 16)]
    } else {
        seq![c]
    }
}

/// The characters of `s`, each escaped for a JSON string literal.
pub open spec fn json_escaped(s: Seq<char>) -> Seq<char>
    decreases s.len(),
{
    if s.len() == 0 {
        Seq::empty()
    } else {
        json_escaped(s.drop_last()) + json_escaped_char(s.last())
    }
}

/// `s` as a JSON string literal.
pub open spec fn json_quoted(s: Seq<char>) -> Seq<char> {
    seq!['"'] + json_escaped(s) + seq!['"']
}

/// `elems`, already written as JSON, separated by commas.
pub open spec fn json_joined(elems: Seq<Seq<char>>) -> Seq<char>
    decreases elems.len(),
{
    if elems.len() == 0 {
        Seq::empty()
    } else if elems.len() == 1 {
        elems[0]
    } else {
        json_joined(elems.drop_last()) + seq![','] + elems.last()
    }
}

/// A compact JSON array of `elems`, already written as JSON.
pub open spec fn json_array(elems: Seq<Seq<char>>) -> Seq<char> {
    seq!['['] + json_joined(elems) + seq![']']
}

/// `items` as a compact JSON array of strings.
pub open spec fn json_string_array(items: Seq<Seq<char>>) -> Seq<char> {
    json_array(items.map_values(|s: Seq<char>| json_quoted(s)))
}

/// The second value of a two-key JSON object row: a string or a count.
pub enum JsonField {
    Text(String),
    Count(u64),
}

/// A [`JsonField`] with its text as characters.
pub enum FieldView {
    Text(Seq<char>),
    Count(u64),
}

impl View for JsonField {
    type V = FieldView;

    open spec fn view(&self) -> FieldView {
        match self {
            JsonField::Text(t) => FieldView::Text(t@),
            JsonField::Count(n) => FieldView::Count(*n),
        }
    }
}

/// The views of object rows.
pub open spec fn row_views(rows: Seq<(String, JsonField)>) -> Seq<(Seq<char>, FieldView)> {
    rows.map_values(|r: (String, JsonField)| (r.0@, r.1@))
}

/// A field value as JSON: a string literal, or a count in decimal.
pub open spec fn json_field(f: FieldView) -> Seq<char> {
    match f {
        FieldView::Text(t) => json_quoted(t),
        FieldView::Count(n) => crate::text::decimal(n as nat),
    }
}

/// One row as a compact JSON object `{key_a: <first>, key_b: <second>}`,
/// the keys in that order.
pub open spec fn json_object_row(key_a: Seq<char>, key_b: Seq<char>, row: (Seq<char>, FieldView)) -> Seq<char> {
    seq!['{'] + json_quoted(key_a) + seq![':'] + json_quoted(row.0) + seq![','] + json_quoted(key_b)
        + seq![':'] + json_field(row.1) + seq!['}']
}

/// `rows` as a compact JSON array of two-key objects.
pub open spec fn json_object_rows(key_a: Seq<char>, key_b: Seq<char>, rows: Seq<(Seq<char>, FieldView)>) -> Seq<char> {
    json_array(rows.map_values(|row: (Seq<char>, FieldView)| json_object_row(key_a, key_b, row)))
}

/// Calls `serde_json::to_string` on the array of two-key objects built one
/// for one from `rows`. serde_json writes compact JSON, strings escaped as
/// `json_escaped_char` says and counts in decimal; with its `preserve_order`
/// feature, which a dependency of this crate (objectiveai-sdk) turns on, an
/// object's keys come out in the order they were inserted. Serializing
/// strings and integers into memory cannot fail, so the result is always
/// `Some`. The keys must differ (a second insert of one key would replace
/// the first).
#[verifier::external_body]
pub(crate) fn encode_object_rows(key_a: &str, key_b: &str, rows: &Vec<(String, JsonField)>) -> (r: Option<String>)
    requires
        key_a@ != key_b@,
    ensures
        r is Some,
        r matches Some(s) ==> s@ == json_object_rows(key_a@, key_b@, row_views(rows@)),
{
    let values: Vec<serde_json::Value> = rows.iter().map(|(a, b)| {
        let mut m = serde_json::Map::new();
        m.insert(key_a.to_string(), serde_json::Value::String(a.clone()));
        let second = match b {
            JsonField::Text(t) => serde_json::Value::String(t.clone()),
            JsonField::Count(n) => serde_json::Value::from(*n),
        };
        m.insert(key_b.to_string(), second);
        serde_json::Value::Object(m)
    }).collect();
    serde_json::to_string(&values).ok()
}

} // verus!
