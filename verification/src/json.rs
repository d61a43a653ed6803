//! What a JSON writer makes of an integer, of a string and of a list of
//! objects, as `serde_json` writes them.

use crate::text::{decimal_text, digit_char};
use crate::textmap::ascending;
use vstd::prelude::*;

verus! {

/// The character that writes a number below sixteen in base sixteen, with
/// small letters.
pub open spec fn hex_digit_char(d: int) -> char {
    if d < 10 {
        digit_char(d)
    } else {
        (d - 10 + 'a' as int) as u8 as char
    }
}

/// How one character of a string stands between the quotes: the quote and the
/// backslash behind a backslash, a control character of ASCII by its short
/// name or by its number in base sixteen, every other character as it is.
pub open spec fn escaped_char(c: char) -> Seq<char> {
    let code = c as int;
    if code == 0x22 {
        seq!['\\', '"']
    } else if code == 0x5c {
        seq!['\\', '\\']
    } else if code == 0x08 {
        seq!['\\', 'b']
    } else if code == 0x09 {
        seq!['\\', 't']
    } else if code == 0x0a {
        seq!['\\', 'n']
    } else if code == 0x0c {
        seq!['\\', 'f']
    } else if code == 0x0d {
        seq!['\\', 'r']
    } else if code < 0x20 {
        seq!['\\', 'u', '0', '0', hex_digit_char(code / 16), hex_digit_char(code % 16)]
    } else {
        seq![c]
    }
}

/// The characters of `s`, each as it stands between the quotes.
pub open spec fn escaped_text(s: Seq<char>) -> Seq<char>
    decreases s.len(),
{
    if s.len() == 0 {
        Seq::empty()
    } else {
        escaped_text(s.drop_last()) + escaped_char(s.last())
    }
}

/// The string `s` as JSON writes it: between double quotes.
pub open spec fn quoted_text(s: Seq<char>) -> Seq<char> {
    seq!['"'] + escaped_text(s) + seq!['"']
}

/// Writes `i` as `serde_json` writes a number made from a 64-bit signed
/// integer (`Number::from`, then its `Display`): in base ten, with `-` before
/// a negative one and no other sign, blank or leading zero.
#[verifier::external_body]
pub(crate) fn integer_text(i: i64) -> (r: String)
    ensures
        r@ == decimal_text(i as int),
{
    serde_json::Number::from(i).to_string()
}

/// Writes `s` as `serde_json` writes a string value (`Value::String`, then its
/// `Display`): between double quotes, with the quote, the backslash and the
/// control characters of ASCII escaped and everything else as it is.
#[verifier::external_body]
pub(crate) fn string_text(s: &str) -> (r: String)
    ensures
        r@ == quoted_text(s@),
{
    serde_json::Value::String(s.to_owned()).to_string()
}

/// The error of `serde_json`.
#[verifier::external_type_specification]
#[verifier::external_body]
pub struct ExJsonError(serde_json::Error);

/// What a list of objects is, where each object is a list of names, each with
/// the text of a JSON value.
pub open spec fn objects_view(objects: Seq<Vec<(String, String)>>) -> Seq<
    Seq<(Seq<char>, Seq<char>)>,
> {
    Seq::new(
        objects.len(),
        |i: int| Seq::new(objects[i].len() as nat, |j: int| (objects[i][j].0@, objects[i][j].1@)),
    )
}

/// The names of an object.
pub open spec fn object_names(object: Seq<(Seq<char>, Seq<char>)>) -> Seq<Seq<char>> {
    Seq::new(object.len(), |j: int| object[j].0)
}

/// Whether `serde_json` takes a text as one JSON value.
pub uninterp spec fn is_json_value(text: Seq<char>) -> bool;

/// Whether `text` is one JSON value, as `RawValue::from_string` of
/// `serde_json` decides it: that function reads the text as JSON and fails
/// where it is none.
#[verifier::external_body]
pub(crate) fn is_json(text: &str) -> (r: bool)
    ensures
        r == is_json_value(text@),
{
    serde_json::value::RawValue::from_string(text.to_owned()).is_ok()
}

/// The text of every value of every object is one JSON value.
pub open spec fn all_json(objects: Seq<Seq<(Seq<char>, Seq<char>)>>) -> bool {
    forall|i: int, j: int|
        0 <= i < objects.len() && 0 <= j < objects[i].len() ==> is_json_value(
            (#[trigger] objects[i][j]).1,
        )
}

/// The JSON text that `serde_json` writes over several lines for a list of
/// objects whose values are JSON.
pub uninterp spec fn pretty_json(objects: Seq<Seq<(Seq<char>, Seq<char>)>>) -> Seq<char>;

/// Writes a list of objects as `serde_json` writes a list of maps
/// (`to_string_pretty`), each value taken as JSON text that is already written.
/// The names of each object come in the order of strings, each once, which is
/// the order in which a map holds and writes its keys, and the text of each
/// value is one JSON value, so that turning it into a `RawValue` does not
/// fail. Writing does not fail either: it goes into a vector in memory, the
/// keys are strings and each value is written as it stands.
#[verifier::external_body]
pub(crate) fn pretty_text(objects: &Vec<Vec<(String, String)>>) -> (r: Result<
    String,
    serde_json::Error,
>)
    requires
        forall|i: int|
            0 <= i < objects.len() ==> ascending(
                object_names(#[trigger] objects_view(objects@)[i]),
            ),
        all_json(objects_view(objects@)),
    ensures
        r is Ok,
        r matches Ok(text) ==> text@ == pretty_json(objects_view(objects@)),
{
    let mut maps = Vec::new();
    for object in objects {
        let mut map = std::collections::BTreeMap::new();
        for (name, value) in object {
            map.insert(name.clone(), serde_json::value::RawValue::from_string(value.clone())?);
        }
        maps.push(map);
    }
    serde_json::to_string_pretty(&maps)
}

} // verus!
