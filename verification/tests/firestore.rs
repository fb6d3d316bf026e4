use comment_sanitizer::document::Value;
use comment_sanitizer::firestore::{decode_firestore_node, Decoded, Doubles};
use comment_sanitizer::integers::parse_integer;
use serde_json::Number;

fn s(text: &str) -> Value {
    Value::String(text.to_string())
}

fn obj(members: Vec<(&str, Value)>) -> Value {
    Value::Object(members.into_iter().map(|(k, v)| (k.to_string(), v)).collect())
}

fn none() -> Doubles {
    Doubles { value: None, latitude: None, longitude: None }
}

fn num(text: &str) -> Number {
    serde_json::from_str(text).unwrap()
}

fn parse(text: &str) -> Option<i64> {
    parse_integer(&text.chars().collect())
}

#[test]
fn integers_are_parsed_like_the_standard_library() {
    let samples = [
        "", "0", "7", "-7", "+7", "007", "-0", "+", "-", "--1", "+-1", "1 ", " 1", "1_000", "12a",
        "0x10", "1.0", "1e3", "9223372036854775807", "9223372036854775808",
        "-9223372036854775808", "-9223372036854775809", "18446744073709551616",
        "99999999999999999999999999999999999999", "-99999999999999999999999999999999999999",
        "000000000000000000000000000000000000001", "\u{0661}", "\u{FF11}",
    ];
    for text in samples {
        assert_eq!(parse(text), text.parse::<i64>().ok(), "{:?}", text);
    }
}

#[test]
fn integer_bounds_are_exact() {
    assert_eq!(parse("9223372036854775807"), Some(i64::MAX));
    assert_eq!(parse("-9223372036854775808"), Some(i64::MIN));
    assert_eq!(parse("9223372036854775808"), None);
    assert_eq!(parse("-9223372036854775809"), None);
    assert_eq!(parse("+42"), Some(42));
}

#[test]
fn what_is_no_mapping_decodes_to_null() {
    assert_eq!(decode_firestore_node(&s("x"), none()), Decoded::Leaf(Value::Null));
    assert_eq!(decode_firestore_node(&Value::Bool(true), none()), Decoded::Leaf(Value::Null));
    assert_eq!(decode_firestore_node(&Value::Array(vec![]), none()), Decoded::Leaf(Value::Null));
}

#[test]
fn null_value_wins_over_other_members() {
    let v = obj(vec![("stringValue", s("x")), ("nullValue", Value::Null)]);
    assert_eq!(decode_firestore_node(&v, none()), Decoded::Leaf(Value::Null));
    let v = obj(vec![("nullValue", s("anything"))]);
    assert_eq!(decode_firestore_node(&v, none()), Decoded::Leaf(Value::Null));
}

#[test]
fn scalars_are_unwrapped() {
    let v = obj(vec![("booleanValue", Value::Bool(false))]);
    assert_eq!(decode_firestore_node(&v, none()), Decoded::Leaf(Value::Bool(false)));
    for key in ["stringValue", "timestampValue", "referenceValue", "bytesValue"] {
        let v = obj(vec![(key, s("payload"))]);
        assert_eq!(decode_firestore_node(&v, none()), Decoded::Leaf(s("payload")), "{}", key);
    }
}

#[test]
fn member_of_the_wrong_kind_is_passed_over() {
    let v = obj(vec![("booleanValue", s("true")), ("bytesValue", s("b"))]);
    assert_eq!(decode_firestore_node(&v, none()), Decoded::Leaf(s("b")));
    let v = obj(vec![("stringValue", Value::Bool(true)), ("timestampValue", s("t"))]);
    assert_eq!(decode_firestore_node(&v, none()), Decoded::Leaf(s("t")));
    let v = obj(vec![("bytesValue", s("b")), ("stringValue", s("s"))]);
    assert_eq!(decode_firestore_node(&v, none()), Decoded::Leaf(s("s")));
}

#[test]
fn integer_text_becomes_a_number() {
    let v = obj(vec![("integerValue", s("-42"))]);
    assert_eq!(
        decode_firestore_node(&v, none()),
        Decoded::Leaf(Value::Number(Number::from(-42i64)))
    );
    let v = obj(vec![("integerValue", s("9223372036854775807"))]);
    assert_eq!(
        decode_firestore_node(&v, none()),
        Decoded::Leaf(Value::Number(Number::from(i64::MAX)))
    );
}

#[test]
fn integer_text_that_is_no_integer_stays_text() {
    let v = obj(vec![("integerValue", s("12x"))]);
    assert_eq!(decode_firestore_node(&v, none()), Decoded::Leaf(s("12x")));
    let v = obj(vec![("integerValue", s("9223372036854775808"))]);
    assert_eq!(decode_firestore_node(&v, none()), Decoded::Leaf(s("9223372036854775808")));
}

#[test]
fn double_is_taken_where_the_member_is_there() {
    let d = Doubles { value: Some(num("1.5")), latitude: None, longitude: None };
    let v = obj(vec![("doubleValue", Value::Number(num("1.5")))]);
    assert_eq!(decode_firestore_node(&v, d), Decoded::Leaf(Value::Number(num("1.5"))));
    let d = Doubles { value: Some(num("1.5")), latitude: None, longitude: None };
    let v = obj(vec![("other", Value::Null)]);
    assert_eq!(decode_firestore_node(&v, d), Decoded::Leaf(obj(vec![("other", Value::Null)])));
}

#[test]
fn unreadable_double_falls_through() {
    let v = obj(vec![("doubleValue", s("inf")), ("mapValue", obj(vec![]))]);
    assert_eq!(decode_firestore_node(&v, none()), Decoded::Fields(None));
    let v = obj(vec![("doubleValue", s("NaN"))]);
    assert_eq!(
        decode_firestore_node(&v, none()),
        Decoded::Leaf(obj(vec![("doubleValue", s("NaN"))]))
    );
}

#[test]
fn point_keeps_what_could_be_read() {
    let point = obj(vec![("longitude", Value::Number(num("8.5"))), ("latitude", s("x"))]);
    let v = obj(vec![("geoPointValue", point)]);
    let d = Doubles { value: None, latitude: None, longitude: Some(num("8.5")) };
    assert_eq!(
        decode_firestore_node(&v, d),
        Decoded::Leaf(obj(vec![("longitude", Value::Number(num("8.5")))]))
    );
    let d = Doubles { value: None, latitude: Some(num("47.0")), longitude: Some(num("8.5")) };
    let point = obj(vec![("longitude", Value::Number(num("8.5"))), ("latitude", Value::Number(num("47.0")))]);
    let v = obj(vec![("geoPointValue", point)]);
    assert_eq!(
        decode_firestore_node(&v, d),
        Decoded::Leaf(obj(vec![
            ("latitude", Value::Number(num("47.0"))),
            ("longitude", Value::Number(num("8.5")))
        ]))
    );
}

#[test]
fn point_without_numbers_is_kept() {
    let point = obj(vec![("latitude", s("north")), ("name", s("x"))]);
    let v = obj(vec![("geoPointValue", point)]);
    assert_eq!(
        decode_firestore_node(&v, none()),
        Decoded::Leaf(obj(vec![("latitude", s("north")), ("name", s("x"))]))
    );
    let v = obj(vec![("geoPointValue", obj(vec![]))]);
    let d = Doubles { value: None, latitude: Some(num("1.0")), longitude: Some(num("2.0")) };
    assert_eq!(decode_firestore_node(&v, d), Decoded::Leaf(obj(vec![])));
}

#[test]
fn array_hands_out_its_elements() {
    let items = vec![obj(vec![("stringValue", s("a"))]), obj(vec![("nullValue", Value::Null)])];
    let v = obj(vec![("arrayValue", obj(vec![("values", Value::Array(items.clone()))]))]);
    assert_eq!(decode_firestore_node(&v, none()), Decoded::Elements(&items));
}

#[test]
fn array_without_values_is_empty() {
    let v = obj(vec![("arrayValue", obj(vec![]))]);
    assert_eq!(decode_firestore_node(&v, none()), Decoded::Leaf(Value::Array(vec![])));
    let v = obj(vec![("arrayValue", obj(vec![("values", s("x"))]))]);
    assert_eq!(decode_firestore_node(&v, none()), Decoded::Leaf(Value::Array(vec![])));
}

#[test]
fn map_hands_out_its_fields() {
    let fields = obj(vec![("k", obj(vec![("stringValue", s("v"))]))]);
    let v = obj(vec![("mapValue", obj(vec![("fields", fields.clone())]))]);
    assert_eq!(decode_firestore_node(&v, none()), Decoded::Fields(Some(&fields)));
    let v = obj(vec![("mapValue", obj(vec![]))]);
    assert_eq!(decode_firestore_node(&v, none()), Decoded::Fields(None));
}

#[test]
fn container_of_the_wrong_kind_is_passed_over() {
    let v = obj(vec![("arrayValue", s("x")), ("mapValue", Value::Array(vec![]))]);
    assert_eq!(
        decode_firestore_node(&v, none()),
        Decoded::Leaf(obj(vec![("arrayValue", s("x")), ("mapValue", Value::Array(vec![]))]))
    );
}

#[test]
fn unknown_mapping_is_kept() {
    let v = obj(vec![("somethingElse", s("x"))]);
    assert_eq!(decode_firestore_node(&v, none()), Decoded::Leaf(obj(vec![("somethingElse", s("x"))])));
    assert_eq!(decode_firestore_node(&obj(vec![]), none()), Decoded::Leaf(obj(vec![])));
}
