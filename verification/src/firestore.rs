//! Decoding of the typed wire encoding in which a document store hands out
//! its documents: every value comes wrapped in a mapping whose key names
//! its type.

use vstd::prelude::*;
use crate::document::{get_member, get_member_text, member, member_text, Tree, Value};
use crate::integers::{parse_integer, parsed_integer};
use crate::text::chars_of;

verus! {

/// The number that `serde_json::Number::from` makes of an `i64`.
pub uninterp spec fn integer_number(n: i64) -> serde_json::Number;

/// Calls `serde_json::Number::from` on an `i64`; the result is the number
/// that `integer_number` names.
#[verifier::external_body]
fn number_from_i64(n: i64) -> (r: serde_json::Number)
    ensures
        r == integer_number(n),
{
    serde_json::Number::from(n)
}

/// The floating-point members of an encoded value as numbers, where they
/// could be read as such: the member `doubleValue`, and the members
/// `latitude` and `longitude` of the member `geoPointValue`.
pub struct Doubles {
    pub value: Option<serde_json::Number>,
    pub latitude: Option<serde_json::Number>,
    pub longitude: Option<serde_json::Number>,
}

/// What one encoded value decodes to: a finished value, or the encoded
/// elements of a sequence or the encoded members of a mapping, which are
/// still to be decoded one by one.
#[derive(Debug, PartialEq)]
pub enum Decoded<'a> {
    Leaf(Value),
    Elements(&'a Vec<Value>),
    Fields(Option<&'a Value>),
}

/// The mathematical content of a `Decoded`.
pub enum DecodedView {
    Leaf(Tree),
    Elements(Seq<Tree>),
    Fields(Option<Tree>),
}

impl<'a> View for Decoded<'a> {
    type V = DecodedView;

    open spec fn view(&self) -> DecodedView {
        match self {
            Decoded::Leaf(value) => DecodedView::Leaf(value@),
            Decoded::Elements(items) => DecodedView::Elements(Value::Array(**items)@->List_0),
            Decoded::Fields(Some(fields)) => DecodedView::Fields(Some(fields@)),
            Decoded::Fields(None) => DecodedView::Fields(None),
        }
    }
}

/// The member with the given key, where that member is a boolean.
pub open spec fn member_flag(tree: Tree, key: Seq<char>) -> Option<bool> {
    match member(tree, key) {
        Some(Tree::Bool(b)) => Some(b),
        _ => None,
    }
}

/// The member with the given key, where that member is a mapping.
pub open spec fn member_record(tree: Tree, key: Seq<char>) -> Option<Tree> {
    match member(tree, key) {
        Some(Tree::Record(keys, values)) => Some(Tree::Record(keys, values)),
        _ => None,
    }
}

/// The text of the first of the four string-typed members that is a string.
pub open spec fn string_typed(tree: Tree) -> Option<Seq<char>> {
    if member_text(tree, "stringValue"@) is Some {
        member_text(tree, "stringValue"@)
    } else if member_text(tree, "timestampValue"@) is Some {
        member_text(tree, "timestampValue"@)
    } else if member_text(tree, "referenceValue"@) is Some {
        member_text(tree, "referenceValue"@)
    } else {
        member_text(tree, "bytesValue"@)
    }
}

/// What a point decodes to: a mapping of those of `latitude` and
/// `longitude` that could be read as numbers, in this order, or the encoded
/// point itself where neither could.
pub open spec fn decoded_point(point: Tree, doubles: Doubles) -> Tree {
    let latitude = if member(point, "latitude"@) is Some {
        doubles.latitude
    } else {
        None
    };
    let longitude = if member(point, "longitude"@) is Some {
        doubles.longitude
    } else {
        None
    };
    match (latitude, longitude) {
        (Some(lat), Some(lng)) => Tree::Record(
            seq!["latitude"@, "longitude"@],
            seq![Tree::Number(lat), Tree::Number(lng)],
        ),
        (Some(lat), None) => Tree::Record(seq!["latitude"@], seq![Tree::Number(lat)]),
        (None, Some(lng)) => Tree::Record(seq!["longitude"@], seq![Tree::Number(lng)]),
        (None, None) => point,
    }
}

/// What one encoded value decodes to. The type members are tried in a
/// fixed order, and a member of the wrong kind is passed over: `nullValue`,
/// `booleanValue`, the string-typed members, `integerValue` (a number where
/// its text is a decimal integer, else the text), `doubleValue`,
/// `geoPointValue`, `arrayValue`, `mapValue`. A mapping with none of them
/// is kept as it is, and what is no mapping decodes to null.
pub open spec fn decoded_node(tree: Tree, doubles: Doubles) -> DecodedView {
    if !(tree is Record) {
        DecodedView::Leaf(Tree::Null)
    } else if member(tree, "nullValue"@) is Some {
        DecodedView::Leaf(Tree::Null)
    } else if member_flag(tree, "booleanValue"@) is Some {
        DecodedView::Leaf(Tree::Bool(member_flag(tree, "booleanValue"@)->0))
    } else if string_typed(tree) is Some {
        DecodedView::Leaf(Tree::Text(string_typed(tree)->0))
    } else if member_text(tree, "integerValue"@) is Some {
        let text = member_text(tree, "integerValue"@)->0;
        match parsed_integer(text) {
            Some(n) => DecodedView::Leaf(Tree::Number(integer_number(n))),
            None => DecodedView::Leaf(Tree::Text(text)),
        }
    } else if member(tree, "doubleValue"@) is Some && doubles.value is Some {
        DecodedView::Leaf(Tree::Number(doubles.value->0))
    } else if member_record(tree, "geoPointValue"@) is Some {
        DecodedView::Leaf(decoded_point(member_record(tree, "geoPointValue"@)->0, doubles))
    } else if member_record(tree, "arrayValue"@) is Some {
        match member(member_record(tree, "arrayValue"@)->0, "values"@) {
            Some(Tree::List(items)) => DecodedView::Elements(items),
            _ => DecodedView::Leaf(Tree::List(Seq::empty())),
        }
    } else if member_record(tree, "mapValue"@) is Some {
        DecodedView::Fields(member(member_record(tree, "mapValue"@)->0, "fields"@))
    } else {
        DecodedView::Leaf(tree)
    }
}

fn get_string_typed<'a>(value: &'a Value) -> (r: Option<&'a str>)
    ensures
        match r {
            Some(text) => string_typed(value@) == Some(text@),
            None => string_typed(value@) is None,
        },
{
    match get_member_text(value, "stringValue") {
        Some(text) => {
            return Some(text);
        },
        None => {},
    }
    match get_member_text(value, "timestampValue") {
        Some(text) => {
            return Some(text);
        },
        None => {},
    }
    match get_member_text(value, "referenceValue") {
        Some(text) => {
            return Some(text);
        },
        None => {},
    }
    get_member_text(value, "bytesValue")
}

fn decode_point(point: &Value, doubles: Doubles) -> (r: Value)
    requires
        point@ is Record,
    ensures
        r@ == decoded_point(point@, doubles),
{
    let latitude = if get_member(point, "latitude").is_some() {
        doubles.latitude
    } else {
        None
    };
    let longitude = if get_member(point, "longitude").is_some() {
        doubles.longitude
    } else {
        None
    };
    let mut members: Vec<(String, Value)> = Vec::new();
    match latitude {
        Some(n) => {
            members.push(("latitude".to_owned(), Value::Number(n)));
        },
        None => {},
    }
    match longitude {
        Some(n) => {
            members.push(("longitude".to_owned(), Value::Number(n)));
        },
        None => {},
    }
    if members.len() == 0 {
        point.clone()
    } else {
        let r = Value::Object(members);
        proof {
            let expected = decoded_point(point@, doubles);
            assert(r@->Record_0 =~= expected->Record_0);
            assert forall|k: int| 0 <= k < members.len() implies r@->Record_1[k]
                == expected->Record_1[k] by {
                assert(r@->Record_1[k] == members[k].1@);
                assert(members[k].1 is Number);
            }
            assert(r@->Record_1 =~= expected->Record_1);
        }
        r
    }
}

/// Decodes one encoded value as far as it goes without decoding what it
/// contains.
pub fn decode_firestore_node<'a>(value: &'a Value, doubles: Doubles) -> (r: Decoded<'a>)
    ensures
        r@ == decoded_node(value@, doubles),
{
    match value {
        Value::Object(_) => {},
        _ => {
            return Decoded::Leaf(Value::Null);
        },
    }
    if get_member(value, "nullValue").is_some() {
        return Decoded::Leaf(Value::Null);
    }
    match get_member(value, "booleanValue") {
        Some(Value::Bool(b)) => {
            return Decoded::Leaf(Value::Bool(*b));
        },
        _ => {},
    }
    match get_string_typed(value) {
        Some(text) => {
            return Decoded::Leaf(Value::String(text.to_owned()));
        },
        None => {},
    }
    match get_member_text(value, "integerValue") {
        Some(text) => {
            return match parse_integer(&chars_of(text)) {
                Some(n) => Decoded::Leaf(Value::Number(number_from_i64(n))),
                None => Decoded::Leaf(Value::String(text.to_owned())),
            };
        },
        None => {},
    }
    if get_member(value, "doubleValue").is_some() {
        match doubles.value {
            Some(n) => {
                return Decoded::Leaf(Value::Number(n));
            },
            None => {},
        }
    }
    match get_member(value, "geoPointValue") {
        Some(point) => match point {
            Value::Object(_) => {
                return Decoded::Leaf(decode_point(point, doubles));
            },
            _ => {},
        },
        None => {},
    }
    match get_member(value, "arrayValue") {
        Some(array) => match array {
            Value::Object(_) => {
                return match get_member(array, "values") {
                    Some(Value::Array(items)) => Decoded::Elements(items),
                    _ => {
                        let r = Value::Array(Vec::new());
                        assert(r@->List_0 =~= Seq::empty());
                        Decoded::Leaf(r)
                    },
                };
            },
            _ => {},
        },
        None => {},
    }
    match get_member(value, "mapValue") {
        Some(map) => match map {
            Value::Object(_) => {
                return Decoded::Fields(get_member(map, "fields"));
            },
            _ => {},
        },
        None => {},
    }
    Decoded::Leaf(value.clone())
}

} // verus!
