use sheet_query::number::Number;
use sheet_query::text::Order;
use sheet_query::value::{str_to_json_value, Value};

fn value_reading(raw: &str) -> Option<Number> {
    let parsed: f64 = raw.parse().ok()?;
    let text = serde_json::Number::from_f64(parsed)?.to_string();
    Number::from_double(parsed.to_bits(), text)
}

fn value_coerce(raw: &str) -> Value {
    str_to_json_value(raw, value_reading(raw))
}

fn value_double(f: f64) -> Number {
    let text = serde_json::Number::from_f64(f).unwrap().to_string();
    Number::from_double(f.to_bits(), text).unwrap()
}

fn value_order_of(a: f64, b: f64) -> Order {
    if a < b {
        Order::Less
    } else if a == b {
        Order::Equal
    } else {
        Order::Greater
    }
}

#[test]
fn coerce_empty_is_null() {
    assert_eq!(value_coerce(""), Value::Null);
}

#[test]
fn coerce_true_and_false_are_booleans() {
    assert_eq!(value_coerce("true"), Value::Bool(true));
    assert_eq!(value_coerce("false"), Value::Bool(false));
}

#[test]
fn coerce_is_exact_about_case() {
    assert_eq!(value_coerce("True"), Value::String("True".to_string()));
    assert_eq!(value_coerce("NULL"), Value::String("NULL".to_string()));
}

#[test]
fn coerce_integer_is_number() {
    assert_eq!(value_coerce("42"), Value::Number(Number::from_i64(42)));
    let n = Number::from_i64(42);
    assert_eq!(n.bits(), 42f64.to_bits());
    assert_eq!(n.text(), "42");
}

#[test]
fn coerce_decimal_is_number() {
    let expected = Number::from_double(3.14f64.to_bits(), "3.14".to_string()).unwrap();
    assert_eq!(value_coerce("3.14"), Value::Number(expected));
}

#[test]
fn coerce_other_text_is_string() {
    assert_eq!(value_coerce("abc"), Value::String("abc".to_string()));
}

#[test]
fn coerce_null_is_null() {
    assert_eq!(value_coerce("null"), Value::Null);
}

#[test]
fn coerce_signed_and_padded_integers() {
    assert_eq!(value_coerce("+42"), Value::Number(Number::from_i64(42)));
    assert_eq!(value_coerce("-42"), Value::Number(Number::from_i64(-42)));
    assert_eq!(value_coerce("007"), Value::Number(Number::from_i64(7)));
    assert_eq!(value_coerce("-0"), Value::Number(Number::from_i64(0)));
    assert_eq!(Number::from_i64(0).text(), "0");
}

#[test]
fn coerce_integer_limits() {
    assert_eq!(
        value_coerce("9223372036854775807"),
        Value::Number(Number::from_i64(i64::MAX))
    );
    assert_eq!(
        value_coerce("-9223372036854775808"),
        Value::Number(Number::from_i64(i64::MIN))
    );
    assert_eq!(
        value_coerce("9223372036854775808"),
        Value::Number(value_double(9223372036854775808.0))
    );
}

#[test]
fn coerce_text_that_is_not_finite_is_string() {
    assert_eq!(value_coerce("inf"), Value::String("inf".to_string()));
    assert_eq!(value_coerce("NaN"), Value::String("NaN".to_string()));
    assert_eq!(value_coerce("1e999"), Value::String("1e999".to_string()));
}

#[test]
fn coerce_keeps_text_with_blanks() {
    assert_eq!(value_coerce(" 42"), Value::String(" 42".to_string()));
    assert_eq!(value_coerce("4 2"), Value::String("4 2".to_string()));
    assert_eq!(value_coerce("-"), Value::String("-".to_string()));
    assert_eq!(value_coerce("+"), Value::String("+".to_string()));
}

#[test]
fn coerce_without_reading_keeps_decimal_text() {
    assert_eq!(
        str_to_json_value("3.14", None),
        Value::String("3.14".to_string())
    );
}

#[test]
fn coerce_integer_wins_over_reading() {
    let reading = value_double(41.5);
    assert_eq!(
        str_to_json_value("42", Some(reading)),
        Value::Number(Number::from_i64(42))
    );
}

#[test]
fn integer_text_is_decimal() {
    assert_eq!(Number::from_i64(-42).text(), "-42");
    assert_eq!(Number::from_i64(1000000).text(), "1000000");
    assert_eq!(Number::from_i64(i64::MIN).text(), "-9223372036854775808");
    assert_eq!(Number::from_i64(i64::MAX).text(), "9223372036854775807");
}

#[test]
fn integer_pattern_is_that_of_the_nearest_double() {
    let mut samples: Vec<i64> = vec![
        0,
        1,
        -1,
        2,
        3,
        10,
        -10,
        255,
        1 << 20,
        (1 << 52) - 1,
        1 << 52,
        (1 << 52) + 1,
        (1 << 53) - 1,
        1 << 53,
        (1 << 53) + 1,
        (1 << 53) + 2,
        (1 << 53) + 3,
        (1 << 54) + 2,
        (1 << 54) + 6,
        (1 << 60) + (1 << 7),
        (1 << 60) + (1 << 7) + 1,
        (1 << 60) + 3 * (1 << 7),
        (1 << 62) + (1 << 9),
        (1 << 62) + 3 * (1 << 9),
        i64::MAX,
        i64::MAX - 1,
        i64::MAX - 511,
        i64::MAX - 512,
        i64::MAX - 1023,
        i64::MIN,
        i64::MIN + 1,
        i64::MIN + 512,
        -(1 << 53) - 1,
        -(1 << 53) - 3,
    ];
    let mut x: i64 = 1;
    for _ in 0..62 {
        x = x.wrapping_mul(6364136223846793005).wrapping_add(1442695040888963407);
        samples.push(x);
        samples.push(x >> 7);
        samples.push(x >> 20);
    }
    for i in samples {
        assert_eq!(Number::from_i64(i).bits(), (i as f64).to_bits(), "for {}", i);
    }
}

#[test]
fn from_double_refuses_what_is_not_finite() {
    assert_eq!(
        Number::from_double(f64::INFINITY.to_bits(), "inf".to_string()),
        None
    );
    assert_eq!(
        Number::from_double(f64::NEG_INFINITY.to_bits(), "-inf".to_string()),
        None
    );
    assert_eq!(Number::from_double(f64::NAN.to_bits(), "NaN".to_string()), None);
    assert!(Number::from_double(f64::MAX.to_bits(), "max".to_string()).is_some());
    assert!(Number::from_double(f64::MIN_POSITIVE.to_bits(), "min".to_string()).is_some());
}

#[test]
fn numbers_compare_as_doubles_do() {
    let samples: Vec<f64> = vec![
        0.0,
        -0.0,
        1.0,
        -1.0,
        0.5,
        -0.5,
        3.0,
        3.14,
        10.0,
        -10.0,
        1e-300,
        -1e-300,
        5e-324,
        -5e-324,
        1e300,
        -1e300,
        f64::MAX,
        f64::MIN,
        f64::MIN_POSITIVE,
        9007199254740992.0,
        9007199254740994.0,
    ];
    for a in &samples {
        for b in &samples {
            let left = value_double(*a);
            let right = value_double(*b);
            assert_eq!(left.compare(&right), value_order_of(*a, *b), "{} and {}", a, b);
        }
    }
}

#[test]
fn integers_compare_as_their_doubles() {
    let a = Number::from_i64(9007199254740993);
    let b = Number::from_i64(9007199254740992);
    assert_eq!(a.compare(&b), Order::Equal);
    let c = Number::from_i64(9007199254740995);
    assert_eq!(c.compare(&b), Order::Greater);
    assert_eq!(Number::from_i64(-3).compare(&Number::from_i64(2)), Order::Less);
    assert_eq!(Number::from_i64(3).compare(&value_double(3.0)), Order::Equal);
    assert_eq!(Number::from_i64(3).compare(&value_double(3.5)), Order::Less);
}

#[test]
fn render_gives_the_text_of_each_kind() {
    assert_eq!(Value::Null.render(), "null");
    assert_eq!(Value::Bool(true).render(), "true");
    assert_eq!(Value::Bool(false).render(), "false");
    assert_eq!(Value::Number(Number::from_i64(-7)).render(), "-7");
    assert_eq!(Value::Number(value_double(2.5)).render(), "2.5");
    assert_eq!(Value::String("abc".to_string()).render(), "\"abc\"");
    assert_eq!(Value::String(String::new()).render(), "\"\"");
}

#[test]
fn render_escapes_strings_as_json_does() {
    assert_eq!(Value::String("a\"b".to_string()).render(), "\"a\\\"b\"");
    assert_eq!(Value::String("a\\b".to_string()).render(), "\"a\\\\b\"");
    assert_eq!(Value::String("a\nb".to_string()).render(), "\"a\\nb\"");
    assert_eq!(Value::String("\t\r".to_string()).render(), "\"\\t\\r\"");
    assert_eq!(
        Value::String("\u{8}\u{c}".to_string()).render(),
        "\"\\b\\f\""
    );
    assert_eq!(
        Value::String("\u{0}\u{1f}\u{b}".to_string()).render(),
        "\"\\u0000\\u001f\\u000b\""
    );
    assert_eq!(
        Value::String("/\u{7f}é日".to_string()).render(),
        "\"/\u{7f}é日\""
    );
}

#[test]
fn clone_keeps_the_value() {
    let v = Value::Number(value_double(2.5));
    assert_eq!(v.clone(), v);
    let s = Value::String("x".to_string());
    assert_eq!(s.clone(), s);
}

fn value_reference(raw: &str) -> serde_json::Value {
    if raw.is_empty() {
        return serde_json::Value::Null;
    }
    if raw == "true" || raw == "false" {
        return serde_json::Value::Bool(raw == "true");
    }
    if raw == "null" {
        return serde_json::Value::Null;
    }
    if let Ok(i) = raw.parse::<i64>() {
        return serde_json::Value::Number(serde_json::Number::from(i));
    }
    let float: Option<f64> = raw.parse().ok();
    match float.and_then(serde_json::Number::from_f64) {
        Some(n) => serde_json::Value::Number(n),
        None => serde_json::Value::String(raw.to_string()),
    }
}

#[test]
fn coerce_agrees_with_serde_json_on_kind_and_text() {
    let samples = [
        "", "true", "false", "null", "0", "-0", "+0", "42", "-42", "+42", "007", "3.14", "-3.14",
        "+3.14", ".5", "5.", "1e5", "1E5", "1e-5", "1e21", "1e22", "0.1", "0.30000000000000004",
        "123456789012345678901234567890", "9007199254740993", "9223372036854775807",
        "9223372036854775808", "-9223372036854775809", "inf", "-inf", "infinity", "nan", "NaN",
        "1e999", "-1e999", "1e-999", "abc", "a b", " 1", "1 ", "1_000", "0x10", "1,5", "--1",
        "é", "\"quoted\"", "back\\slash", "tab\there", "TRUE", "Null", "4.0", "100000.0",
        "0.000001", "1.7976931348623157e308", "5e-324", "2.5e-324",
    ];
    for raw in samples {
        let reference = value_reference(raw);
        let value = value_coerce(raw);
        assert_eq!(value.render(), reference.to_string(), "{:?}", raw);
        let same_kind = match (&value, &reference) {
            (Value::Null, serde_json::Value::Null) => true,
            (Value::Bool(a), serde_json::Value::Bool(b)) => a == b,
            (Value::Number(n), serde_json::Value::Number(m)) => {
                f64::from_bits(n.bits()) == m.as_f64().unwrap()
            }
            (Value::String(a), serde_json::Value::String(b)) => a == b,
            _ => false,
        };
        assert!(same_kind, "{:?}", raw);
    }
}
