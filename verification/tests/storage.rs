use dreamberd::builtin::{
    bool_value, DreamberdBoolean, DreamberdList, DreamberdMap, DreamberdString,
    DreamberdUndefined, DreamberdValue, ListKey,
};
use dreamberd::number::DreamberdNumber;
use dreamberd::storage::{deserialize_value, get_member, serialize_value, JsonValue};

fn number<'a>(v: f64) -> DreamberdValue<'a> {
    DreamberdValue::Number(DreamberdNumber::new(v.to_bits()))
}

fn text<'a>(s: &str) -> DreamberdValue<'a> {
    DreamberdValue::String(DreamberdString::new(s.to_string()))
}

fn object(members: Vec<(&str, JsonValue)>) -> JsonValue {
    JsonValue::Object(members.into_iter().map(|(k, v)| (k.to_string(), v)).collect())
}

fn string(s: &str) -> JsonValue {
    JsonValue::String(s.to_string())
}

#[test]
fn values_are_kept_with_their_kind() {
    assert_eq!(
        serialize_value(&number(2.5)),
        object(vec![("type", string("number")), ("value", JsonValue::Number(2.5f64.to_bits()))])
    );
    assert_eq!(
        serialize_value(&text("hi")),
        object(vec![("type", string("string")), ("value", string("hi"))])
    );
    assert_eq!(
        serialize_value(&bool_value(true)),
        object(vec![("type", string("boolean")), ("value", JsonValue::Bool(true))])
    );
    assert_eq!(
        serialize_value(&DreamberdValue::Boolean(DreamberdBoolean::maybe())),
        object(vec![("type", string("boolean")), ("value", JsonValue::Null)])
    );
    assert_eq!(
        serialize_value(&DreamberdValue::Undefined(DreamberdUndefined)),
        object(vec![("type", string("undefined"))])
    );
    assert_eq!(
        serialize_value(&DreamberdValue::Mapping(DreamberdMap::new())),
        object(vec![("type", string("unknown"))])
    );
    assert_eq!(
        serialize_value(&DreamberdValue::List(DreamberdList::new(vec![text("a")]))),
        object(vec![
            ("type", string("list")),
            (
                "value",
                JsonValue::Array(vec![object(vec![
                    ("type", string("string")),
                    ("value", string("a"))
                ])])
            )
        ])
    );
}

#[test]
fn kept_values_come_back_as_they_were() {
    let values = vec![
        number(-3.75),
        text("a \"quoted\" text"),
        bool_value(true),
        bool_value(false),
        DreamberdValue::List(DreamberdList::new(vec![
            number(1.0),
            DreamberdValue::List(DreamberdList::new(vec![text("in"), bool_value(false)])),
        ])),
        DreamberdValue::List(DreamberdList::new(vec![])),
    ];
    for value in values {
        assert_eq!(deserialize_value(&serialize_value(&value)), value);
    }
}

#[test]
fn what_is_missing_or_of_another_form_is_taken_as_empty() {
    assert_eq!(deserialize_value(&JsonValue::Null), DreamberdValue::Undefined(DreamberdUndefined));
    assert_eq!(deserialize_value(&string("x")), DreamberdValue::Undefined(DreamberdUndefined));
    assert_eq!(
        deserialize_value(&object(vec![("value", string("x"))])),
        DreamberdValue::Undefined(DreamberdUndefined)
    );
    assert_eq!(
        deserialize_value(&object(vec![("type", string("function"))])),
        DreamberdValue::Undefined(DreamberdUndefined)
    );
    assert_eq!(deserialize_value(&object(vec![("type", string("number"))])), number(0.0));
    assert_eq!(
        deserialize_value(&object(vec![("type", string("number")), ("value", string("5"))])),
        number(0.0)
    );
    assert_eq!(deserialize_value(&object(vec![("type", string("string"))])), text(""));
    assert_eq!(
        deserialize_value(&object(vec![("type", string("boolean")), ("value", JsonValue::Null)])),
        bool_value(false)
    );
    assert_eq!(
        deserialize_value(&object(vec![("type", string("list")), ("value", string("x"))])),
        DreamberdValue::List(DreamberdList::new(vec![]))
    );
}

#[test]
fn a_list_with_its_own_indexes_comes_back_freshly_indexed() {
    let mut list = DreamberdList::new(vec![text("a"), text("c")]);
    list.insert_at(ListKey::Fraction((-0.5f64).to_bits()), -1, text("b"));
    let restored = deserialize_value(&serialize_value(&DreamberdValue::List(list)));
    assert_eq!(
        restored,
        DreamberdValue::List(DreamberdList::new(vec![text("a"), text("b"), text("c")]))
    );
}

#[test]
fn members_of_a_tree() {
    let tree = object(vec![("a", JsonValue::Bool(true)), ("b", JsonValue::Null)]);
    assert_eq!(get_member(&tree, "a"), Some(&JsonValue::Bool(true)));
    assert_eq!(get_member(&tree, "b"), Some(&JsonValue::Null));
    assert_eq!(get_member(&tree, "c"), None);
    assert_eq!(get_member(&JsonValue::Null, "a"), None);
}
