//! The values that a cell or a literal can have, and how raw text becomes one.

use crate::json::{integer_text, quoted_text, string_text};
use crate::number::{integer_pattern, number_of_integer, Number, NumberView};
use crate::text::{
    chars_of, decimal_text, integer_value, is_digit, lemma_decimal_text_reads_back,
    lemma_natural_text, natural_text, parse_integer, str_eq,
};
use vstd::prelude::*;

verus! {

/// A typed value.
#[derive(Debug, PartialEq)]
pub enum Value {
    Null,
    Bool(bool),
    Number(Number),
    String(String),
}

/// What a value is.
pub enum ValueView {
    Null,
    Bool(bool),
    Number(NumberView),
    String(Seq<char>),
}

impl View for Value {
    type V = ValueView;

    open spec fn view(&self) -> ValueView {
        match self {
            Value::Null => ValueView::Null,
            Value::Bool(b) => ValueView::Bool(*b),
            Value::Number(n) => ValueView::Number(n@),
            Value::String(s) => ValueView::String(s@),
        }
    }
}

impl Clone for Value {
    fn clone(&self) -> (r: Self)
        ensures
            r@ == self@,
    {
        match self {
            Value::Null => Value::Null,
            Value::Bool(b) => Value::Bool(*b),
            Value::Number(n) => Value::Number(n.clone()),
            Value::String(s) => Value::String(s.clone()),
        }
    }
}

/// What an optional number is.
pub open spec fn reading_view(reading: Option<Number>) -> Option<NumberView> {
    match reading {
        Some(n) => Some(n@),
        None => None,
    }
}

/// The value that the raw text `raw` stands for, where `reading` is what `raw`
/// is when read as a finite number of double precision, if it can be read so.
/// The first that applies decides: empty text is null; `true` and `false` are
/// the two booleans; `null` is null; text that writes a 64-bit integer is that
/// number; text with a reading is that reading; any other text is itself.
pub open spec fn coerced(raw: Seq<char>, reading: Option<NumberView>) -> ValueView {
    if raw.len() == 0 {
        ValueView::Null
    } else if raw == "true"@ {
        ValueView::Bool(true)
    } else if raw == "false"@ {
        ValueView::Bool(false)
    } else if raw == "null"@ {
        ValueView::Null
    } else if let Some(i) = integer_value(raw) {
        ValueView::Number(number_of_integer(i))
    } else if let Some(n) = reading {
        ValueView::Number(n)
    } else {
        ValueView::String(raw)
    }
}

/// The text that stands for a value where values are compared as text: what
/// JSON writes for it on one line.
pub open spec fn rendered(v: ValueView) -> Seq<char> {
    match v {
        ValueView::Null => "null"@,
        ValueView::Bool(true) => "true"@,
        ValueView::Bool(false) => "false"@,
        ValueView::Number(n) => n.text,
        ValueView::String(s) => quoted_text(s),
    }
}

impl Number {
    /// The number that stands for the integer `i`: the double nearest to it,
    /// written as the integer.
    pub fn from_i64(i: i64) -> (r: Number)
        ensures
            r@ == number_of_integer(i as int),
    {
        let made = Number::from_double(integer_pattern(i), integer_text(i));
        made.unwrap()
    }
}

/// Turns raw text into a value. Reading text as a number of double precision
/// takes floating-point arithmetic, which is the caller's part: `reading` is
/// what `value` is when read so, and `None` where it cannot be read so or is
/// not finite.
pub fn str_to_json_value(value: &str, reading: Option<Number>) -> (r: Value)
    ensures
        r@ == coerced(value@, reading_view(reading)),
{
    if value.is_empty() {
        return Value::Null;
    }
    if str_eq(value, "true") {
        return Value::Bool(true);
    }
    if str_eq(value, "false") {
        return Value::Bool(false);
    }
    if str_eq(value, "null") {
        return Value::Null;
    }
    let chars = chars_of(value);
    match parse_integer(chars.as_slice()) {
        Some(i) => Value::Number(Number::from_i64(i)),
        None => match reading {
            Some(n) => Value::Number(n),
            None => Value::String(value.to_owned()),
        },
    }
}

impl Value {
    /// The text that stands for this value where values are compared as text.
    pub fn render(&self) -> (r: String)
        ensures
            r@ == rendered(self@),
    {
        match self {
            Value::Null => "null".to_owned(),
            Value::Bool(true) => "true".to_owned(),
            Value::Bool(false) => "false".to_owned(),
            Value::Number(n) => n.text().clone(),
            Value::String(s) => string_text(s.as_str()),
        }
    }
}

/// The text of an integer stands for the number of that integer, whatever the
/// reading: what is written out as an integer is read in as the same number.
pub proof fn lemma_integer_text_is_coerced(i: int, reading: Option<NumberView>)
    requires
        i64::MIN <= i <= i64::MAX,
    ensures
        coerced(decimal_text(i), reading) == ValueView::Number(number_of_integer(i)),
{
    reveal_strlit("true");
    reveal_strlit("false");
    reveal_strlit("null");
    lemma_decimal_text_reads_back(i);
    let text = decimal_text(i);
    if i < 0 {
        lemma_natural_text((-i) as nat);
        assert(text[0] == '-');
    } else {
        lemma_natural_text(i as nat);
        assert(is_digit(natural_text(i as nat)[0]));
    }
}

} // verus!
