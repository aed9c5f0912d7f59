//! JSON text, delegated to the `serde_json` crate.

use vstd::prelude::*;

verus! {

/// The hexadecimal digit for `d`, in lower case, for `d` below sixteen.
pub open spec fn hex_digit(d: nat) -> char {
    if d < 10 {
        ((d + 48) as u8) as char
    } else {
        ((d + 87) as u8) as char
    }
}

/// How one character stands in a JSON string literal. The quotation mark and the
/// reverse solidus stand behind a reverse solidus; backspace, tab, line feed, form
/// feed and carriage return stand as `\b`, `\t`, `\n`, `\f`, `\r`; the other
/// characters below the space stand as `\u00` and two hexadecimal digits; every
/// other character stands for itself.
pub open spec fn escaped(c: char) -> Seq<char> {
    if c == '"' {
        seq!['\\', '"']
    } else if c == '\\' {
        seq!['\\', '\\']
    } else if c == '\u{8}' {
        seq!['\\', 'b']
    } else if c == '\t' {
        seq!['\\', 't']
    } else if c == '\n' {
        seq!['\\', 'n']
    } else if c == '\u{c}' {
        seq!['\\', 'f']
    } else if c == '\r' {
        seq!['\\', 'r']
    } else if (c as u32) < 32 {
        seq!['\\', 'u', '0', '0', hex_digit((c as u32 / 16) as nat), hex_digit((c as u32 % 16) as nat)]
    } else {
        seq![c]
    }
}

/// The characters of `text`, each as it stands in a JSON string literal.
pub open spec fn escaped_text(text: Seq<char>) -> Seq<char>
    decreases text.len(),
{
    if text.len() == 0 {
        Seq::empty()
    } else {
        escaped_text(text.drop_last()) + escaped(text.last())
    }
}

/// The JSON string literal for `text`: its characters, escaped, between quotation
/// marks.
pub open spec fn json_string(text: Seq<char>) -> Seq<char> {
    seq!['"'] + escaped_text(text) + seq!['"']
}

/// The text under the key `field` of the JSON object `document`; `None` where
/// `document` is no JSON, no object, has no such key, or holds no string there.
pub uninterp spec fn json_field(document: Seq<char>, field: Seq<char>) -> Option<Seq<char>>;

/// Encodes `text` as a JSON string literal with `serde_json::to_string`.
///
/// The encoder writes a string into memory, which cannot fail, and escapes it by a
/// fixed table: the contract claims that it always answers, and that the answer is
/// [`json_string`] of the text.
#[verifier::external_body]
pub(crate) fn quote(text: &str) -> (quoted: Option<String>)
    ensures
        quoted.deep_view() == Some(json_string(text@)),
{
    serde_json::to_string(text).ok()
}

/// Parses `document` with `serde_json::from_str` into a `serde_json::Value` and reads
/// the string under `field` with `serde_json::Value::get` and
/// `serde_json::Value::as_str`.
///
/// Nothing is claimed about JSON: the result is only given the name [`json_field`],
/// which makes it a function of the two texts.
#[verifier::external_body]
pub(crate) fn text_field(document: &str, field: &str) -> (text: Option<String>)
    ensures
        text.deep_view() == json_field(document@, field@),
{
    let value: serde_json::Value = serde_json::from_str(document).ok()?;
    value.get(field)?.as_str().map(|s| s.to_string())
}

} // verus!
