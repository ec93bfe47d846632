//! How values are kept between runs: as trees of the kind that JSON writes.

use crate::builtin::{fresh_indexer, value_view, value_views, DreamberdBoolean, DreamberdList,
    DreamberdString, DreamberdUndefined, DreamberdValue, ValueView};
use crate::number::{DreamberdNumber, ZERO_BITS};
use crate::text::same_text;
use vstd::prelude::*;

verus! {

/// A tree of the kind that JSON writes. A number is held as its bit pattern.
#[derive(Debug, PartialEq)]
pub enum JsonValue {
    Null,
    Bool(bool),
    Number(u64),
    String(String),
    Array(Vec<JsonValue>),
    Object(Vec<(String, JsonValue)>),
}

/// A tree of the kind that JSON writes, with texts as sequences of characters.
pub enum JsonView {
    Null,
    Bool(bool),
    Number(u64),
    String(Seq<char>),
    Array(Seq<JsonView>),
    Object(Seq<(Seq<char>, JsonView)>),
}

/// The views of a sequence of trees.
pub open spec fn json_views(items: Seq<JsonValue>) -> Seq<JsonView>
    decreases items,
{
    Seq::new(
        items.len(),
        |i: int|
            if 0 <= i < items.len() {
                json_view(items[i])
            } else {
                arbitrary()
            },
    )
}

/// The views of the members of an object.
pub open spec fn member_views(members: Seq<(String, JsonValue)>) -> Seq<(Seq<char>, JsonView)>
    decreases members,
{
    Seq::new(
        members.len(),
        |i: int|
            if 0 <= i < members.len() {
                (members[i].0@, json_view(members[i].1))
            } else {
                arbitrary()
            },
    )
}

/// The view of a tree.
pub open spec fn json_view(j: JsonValue) -> JsonView
    decreases j,
{
    match j {
        JsonValue::Null => JsonView::Null,
        JsonValue::Bool(b) => JsonView::Bool(b),
        JsonValue::Number(n) => JsonView::Number(n),
        JsonValue::String(s) => JsonView::String(s@),
        JsonValue::Array(items) => JsonView::Array(json_views(items@)),
        JsonValue::Object(members) => JsonView::Object(member_views(members@)),
    }
}

impl View for JsonValue {
    type V = JsonView;

    open spec fn view(&self) -> JsonView {
        json_view(*self)
    }
}

/// The first place at or after `from` where an object has the member `key`, or the
/// number of its members.
pub open spec fn find_member(members: Seq<(Seq<char>, JsonView)>, key: Seq<char>, from: int) -> int
    decreases members.len() - from,
{
    if 0 <= from < members.len() && members[from].0 != key {
        find_member(members, key, from + 1)
    } else {
        from
    }
}

/// The member `key` of a tree, if the tree is an object that has it.
pub open spec fn member(j: JsonView, key: Seq<char>) -> Option<JsonView> {
    match j {
        JsonView::Object(members) => {
            let i = find_member(members, key, 0);
            if 0 <= i < members.len() {
                Some(members[i].1)
            } else {
                None
            }
        },
        _ => None,
    }
}

/// A tree that only tells a kind.
pub open spec fn tagged(kind: Seq<char>) -> JsonView {
    JsonView::Object(seq![("type"@, JsonView::String(kind))])
}

/// A tree that tells a kind and holds a value.
pub open spec fn tagged_with(kind: Seq<char>, value: JsonView) -> JsonView {
    JsonView::Object(seq![("type"@, JsonView::String(kind)), ("value"@, value)])
}

/// The trees of the first `n` of some values.
pub open spec fn stored_items(values: Seq<ValueView>, n: nat) -> Seq<JsonView>
    decreases values, n,
{
    if n == 0 || n > values.len() {
        Seq::empty()
    } else {
        stored_items(values, (n - 1) as nat).push(stored(values[n - 1]))
    }
}

/// The tree that keeps a value: its kind under `type` and, for a number, a text, a
/// truth value and a list, what it holds under `value` (maybe is kept as null). A
/// function, an object and undefined keep only their kind; anything else is kept as
/// of unknown kind.
pub open spec fn stored(v: ValueView) -> JsonView
    decreases v,
{
    match v {
        ValueView::Number(n) => tagged_with("number"@, JsonView::Number(n)),
        ValueView::String(s) => tagged_with("string"@, JsonView::String(s)),
        ValueView::Boolean(Some(b)) => tagged_with("boolean"@, JsonView::Bool(b)),
        ValueView::Boolean(None) => tagged_with("boolean"@, JsonView::Null),
        ValueView::Undefined => tagged("undefined"@),
        ValueView::Function { .. } => tagged("function"@),
        ValueView::Object { .. } => tagged("object"@),
        ValueView::List { values, .. } => tagged_with(
            "list"@,
            JsonView::Array(stored_items(values, values.len())),
        ),
        _ => tagged("unknown"@),
    }
}

/// The values of the first `n` of some trees.
pub open spec fn restored_items(items: Seq<JsonView>, n: nat) -> Seq<ValueView>
    decreases items, n,
{
    if n == 0 || n > items.len() {
        Seq::empty()
    } else {
        restored_items(items, (n - 1) as nat).push(restored(items[n - 1]))
    }
}

/// The kind that a tree tells: the text of its member `type`.
pub open spec fn kind_told(j: JsonView) -> Option<Seq<char>> {
    match member(j, "type"@) {
        Some(JsonView::String(kind)) => Some(kind),
        _ => None,
    }
}

/// The value that a tree keeps. What is missing or of another form is taken as zero,
/// the empty text, false, or the empty list; a tree that tells no kind, or none of
/// number, string, boolean and list, keeps undefined. A list is indexed afresh.
pub open spec fn restored(j: JsonView) -> ValueView
    decreases j,
{
    match j {
        JsonView::Object(members) => {
            let kind = kind_told(j);
            let held = member(j, "value"@);
            if kind == Some("number"@) {
                ValueView::Number(
                    match held {
                        Some(JsonView::Number(n)) => n,
                        _ => ZERO_BITS,
                    },
                )
            } else if kind == Some("string"@) {
                ValueView::String(
                    match held {
                        Some(JsonView::String(s)) => s,
                        _ => Seq::empty(),
                    },
                )
            } else if kind == Some("boolean"@) {
                ValueView::Boolean(
                    Some(
                        match held {
                            Some(JsonView::Bool(b)) => b,
                            _ => false,
                        },
                    ),
                )
            } else if kind == Some("list"@) {
                let i = find_member(members, "value"@, 0);
                if 0 <= i < members.len() && members[i].1 is Array {
                    let items = members[i].1->Array_0;
                    ValueView::List {
                        values: restored_items(items, items.len()),
                        indexer: fresh_indexer(items.len()),
                    }
                } else {
                    ValueView::List { values: Seq::empty(), indexer: Seq::empty() }
                }
            } else {
                ValueView::Undefined
            }
        },
        _ => ValueView::Undefined,
    }
}

fn tag(kind: &str) -> (j: JsonValue)
    ensures
        json_view(j) == tagged(kind@),
{
    let mut members: Vec<(String, JsonValue)> = Vec::new();
    members.push((String::from_str("type"), JsonValue::String(String::from_str(kind))));
    let j = JsonValue::Object(members);
    assert(member_views(members@) =~= seq![("type"@, JsonView::String(kind@))]);
    j
}

fn tag_with(kind: &str, value: JsonValue) -> (j: JsonValue)
    ensures
        json_view(j) == tagged_with(kind@, json_view(value)),
{
    let mut members: Vec<(String, JsonValue)> = Vec::new();
    members.push((String::from_str("type"), JsonValue::String(String::from_str(kind))));
    members.push((String::from_str("value"), value));
    let j = JsonValue::Object(members);
    assert(member_views(members@) =~= seq![
        ("type"@, JsonView::String(kind@)),
        ("value"@, json_view(value)),
    ]);
    j
}

/// The tree that keeps a value.
#[verifier::loop_isolation(false)]
pub fn serialize_value<'a>(value: &DreamberdValue<'a>) -> (j: JsonValue)
    ensures
        json_view(j) == stored(value_view(*value)),
    decreases value,
{
    match value {
        DreamberdValue::Number(n) => tag_with("number", JsonValue::Number(n.bits)),
        DreamberdValue::String(s) => tag_with("string", JsonValue::String(s.value.clone())),
        DreamberdValue::Boolean(b) => match b.value {
            Some(t) => tag_with("boolean", JsonValue::Bool(t)),
            None => tag_with("boolean", JsonValue::Null),
        },
        DreamberdValue::Undefined(_) => tag("undefined"),
        DreamberdValue::Function(_) => tag("function"),
        DreamberdValue::Object(_) => tag("object"),
        DreamberdValue::List(list) => {
            let mut items: Vec<JsonValue> = Vec::new();
            let ghost values = value_views(list.values@);
            let mut i: usize = 0;
            assert(json_views(items@) =~= stored_items(values, 0));
            while i < list.values.len()
                invariant
                    i <= list.values.len(),
                    values == value_views(list.values@),
                    json_views(items@) == stored_items(values, i as nat),
                decreases list.values.len() - i,
            {
                let item = serialize_value(&list.values[i]);
                let ghost before = items@;
                items.push(item);
                assert(json_views(items@) =~= json_views(before).push(json_view(item)));
                i += 1;
            }
            tag_with("list", JsonValue::Array(items))
        },
        _ => tag("unknown"),
    }
}

fn position_of_member(members: &Vec<(String, JsonValue)>, key: &str) -> (i: usize)
    ensures
        i == find_member(member_views(members@), key@, 0),
        i <= members.len(),
{
    let mut i: usize = 0;
    while i < members.len() && !same_text(members[i].0.as_str(), key)
        invariant
            i <= members.len(),
            find_member(member_views(members@), key@, 0) == find_member(
                member_views(members@),
                key@,
                i as int,
            ),
        decreases members.len() - i,
    {
        i += 1;
    }
    i
}

/// The member `key` of a tree, if the tree is an object that has it.
pub fn get_member<'j>(j: &'j JsonValue, key: &str) -> (r: Option<&'j JsonValue>)
    ensures
        match r {
            Some(m) => member(json_view(*j), key@) == Some(json_view(*m)),
            None => member(json_view(*j), key@) is None,
        },
{
    match j {
        JsonValue::Object(members) => {
            let i = position_of_member(members, key);
            if i < members.len() {
                Some(&members[i].1)
            } else {
                None
            }
        },
        _ => None,
    }
}

/// The value that a tree keeps.
#[verifier::loop_isolation(false)]
pub fn deserialize_value<'a>(json: &JsonValue) -> (v: DreamberdValue<'a>)
    ensures
        value_view(v) == restored(json_view(*json)),
    decreases json,
{
    let members = match json {
        JsonValue::Object(members) => members,
        _ => {
            return DreamberdValue::Undefined(DreamberdUndefined);
        },
    };
    let at = position_of_member(members, "type");
    if at >= members.len() {
        return DreamberdValue::Undefined(DreamberdUndefined);
    }
    let kind = match &members[at].1 {
        JsonValue::String(kind) => kind,
        _ => {
            return DreamberdValue::Undefined(DreamberdUndefined);
        },
    };
    let held = position_of_member(members, "value");
    proof {
        reveal_strlit("number");
        reveal_strlit("string");
        reveal_strlit("boolean");
        reveal_strlit("list");
        assert("number"@[0] != "string"@[0]);
        assert("number"@[0] != "boolean"@[0]);
        assert("number"@[0] != "list"@[0]);
        assert("string"@[0] != "boolean"@[0]);
        assert("string"@[0] != "list"@[0]);
        assert("boolean"@[0] != "list"@[0]);
    }
    if same_text(kind.as_str(), "number") {
        let bits = if held < members.len() {
            match &members[held].1 {
                JsonValue::Number(n) => *n,
                _ => ZERO_BITS,
            }
        } else {
            ZERO_BITS
        };
        DreamberdValue::Number(DreamberdNumber::new(bits))
    } else if same_text(kind.as_str(), "string") {
        let text = if held < members.len() {
            match &members[held].1 {
                JsonValue::String(s) => s.clone(),
                _ => String::new(),
            }
        } else {
            String::new()
        };
        DreamberdValue::String(DreamberdString::new(text))
    } else if same_text(kind.as_str(), "boolean") {
        let truth = if held < members.len() {
            match &members[held].1 {
                JsonValue::Bool(b) => *b,
                _ => false,
            }
        } else {
            false
        };
        DreamberdValue::Boolean(DreamberdBoolean::new(Some(truth)))
    } else if same_text(kind.as_str(), "list") {
        let mut values: Vec<DreamberdValue<'a>> = Vec::new();
        if held < members.len() {
            if let JsonValue::Array(items) = &members[held].1 {
                let ghost trees = json_views(items@);
                let mut i: usize = 0;
                assert(value_views(values@) =~= restored_items(trees, 0));
                while i < items.len()
                    invariant
                        i <= items.len(),
                        trees == json_views(items@),
                        values@.len() == i,
                        value_views(values@) == restored_items(trees, i as nat),
                    decreases items.len() - i,
                {
                    let item = deserialize_value(&items[i]);
                    let ghost before = values@;
                    values.push(item);
                    assert(value_views(values@) =~= value_views(before).push(value_view(item)));
                    i += 1;
                }
                let list = DreamberdList::new(values);
                assert(trees.len() == items@.len());
                return DreamberdValue::List(list);
            }
        }
        let list = DreamberdList::new(values);
        assert(value_views(list.values@) =~= Seq::<ValueView>::empty());
        assert(list.indexer@ =~= Seq::empty());
        DreamberdValue::List(list)
    } else {
        DreamberdValue::Undefined(DreamberdUndefined)
    }
}

/// Whether a value comes back as it was when it is kept and restored: a number, a
/// text, true, false, or a freshly indexed list of such values.
pub open spec fn keepable(v: ValueView) -> bool
    decreases v,
{
    match v {
        ValueView::Number(_) => true,
        ValueView::String(_) => true,
        ValueView::Boolean(b) => b is Some,
        ValueView::List { values, indexer } => indexer == fresh_indexer(values.len()) && forall|
            i: int,
        |
            0 <= i < values.len() ==> keepable(#[trigger] values[i]),
        _ => false,
    }
}

proof fn lemma_tagged_with(kind: Seq<char>, value: JsonView)
    ensures
        kind_told(tagged_with(kind, value)) == Some(kind),
        member(tagged_with(kind, value), "value"@) == Some(value),
        find_member(tagged_with(kind, value)->Object_0, "value"@, 0) == 1,
{
    reveal_strlit("type");
    reveal_strlit("value");
    assert("type"@[0] != "value"@[0]);
    let members = tagged_with(kind, value)->Object_0;
    assert(find_member(members, "type"@, 0) == 0);
    assert(members[0].0 != "value"@);
    assert(find_member(members, "value"@, 1) == 1);
    assert(find_member(members, "value"@, 0) == 1);
}

proof fn lemma_items_round_trip(values: Seq<ValueView>, n: nat)
    requires
        n <= values.len(),
        forall|i: int| 0 <= i < values.len() ==> keepable(#[trigger] values[i]),
        forall|i: int| 0 <= i < values.len() ==> restored(stored(#[trigger] values[i])) == values[i],
    ensures
        stored_items(values, n).len() == n,
        restored_items(stored_items(values, values.len()), n) == values.take(n as int),
    decreases n,
{
    lemma_stored_length(values, values.len());
    if n == 0 {
        assert(values.take(0) =~= Seq::empty());
    } else {
        lemma_items_round_trip(values, (n - 1) as nat);
        lemma_stored_length(values, n);
        lemma_stored_item(values, values.len(), n - 1);
        assert(values.take(n as int) =~= values.take(n - 1).push(values[n - 1]));
    }
}

proof fn lemma_stored_length(values: Seq<ValueView>, n: nat)
    requires
        n <= values.len(),
    ensures
        stored_items(values, n).len() == n,
    decreases n,
{
    if n > 0 {
        lemma_stored_length(values, (n - 1) as nat);
    }
}

proof fn lemma_stored_item(values: Seq<ValueView>, n: nat, i: int)
    requires
        0 <= i < n <= values.len(),
    ensures
        stored_items(values, n)[i] == stored(values[i]),
    decreases n,
{
    lemma_stored_length(values, n);
    lemma_stored_length(values, (n - 1) as nat);
    if i < n - 1 {
        lemma_stored_item(values, (n - 1) as nat, i);
    }
}

/// A number, a text, true, false, and a freshly indexed list of such values come
/// back as they were when they are kept and restored.
pub proof fn keeping_round_trip(v: ValueView)
    requires
        keepable(v),
    ensures
        restored(stored(v)) == v,
    decreases v,
{
    reveal_strlit("number");
    reveal_strlit("string");
    reveal_strlit("boolean");
    reveal_strlit("list");
    assert("number"@[0] != "string"@[0]);
    assert("number"@[0] != "boolean"@[0]);
    assert("number"@[0] != "list"@[0]);
    assert("string"@[0] != "boolean"@[0]);
    assert("string"@[0] != "list"@[0]);
    assert("boolean"@[0] != "list"@[0]);
    match v {
        ValueView::Number(n) => {
            lemma_tagged_with("number"@, JsonView::Number(n));
        },
        ValueView::String(s) => {
            lemma_tagged_with("string"@, JsonView::String(s));
        },
        ValueView::Boolean(b) => {
            lemma_tagged_with("boolean"@, JsonView::Bool(b->0));
        },
        ValueView::List { values, indexer } => {
            let items = stored_items(values, values.len());
            lemma_tagged_with("list"@, JsonView::Array(items));
            assert forall|i: int| 0 <= i < values.len() implies restored(
                stored(#[trigger] values[i]),
            ) == values[i] by {
                keeping_round_trip(values[i]);
            }
            lemma_items_round_trip(values, values.len());
            assert(values.take(values.len() as int) =~= values);
        },
        _ => {},
    }
}

} // verus!
