//! Runtime values and the conversions between them.

use crate::number::{zero, Arithmetic, DreamberdNumber, HALF_BITS, ONE_BITS, ZERO_BITS};
use crate::processor::syntax_tree::{statement_lists_equal, stmt_views, texts, texts_equal,
    CodeStatement, StmtView};
use crate::text::{append_text, push_char};
use vstd::prelude::*;

verus! {

/// A runtime value.
#[derive(Debug, PartialEq)]
pub enum DreamberdValue<'a> {
    Number(DreamberdNumber),
    String(DreamberdString),
    Boolean(DreamberdBoolean),
    List(DreamberdList<'a>),
    Mapping(DreamberdMap<'a>),
    Function(DreamberdFunction<'a>),
    BuiltinFunction(BuiltinFunction),
    Object(DreamberdObject<'a>),
    Undefined(DreamberdUndefined),
    SpecialBlank(DreamberdSpecialBlankValue),
    Keyword(DreamberdKeyword),
    Promise(DreamberdPromise<'a>),
}

/// A text. Its characters are numbered from -1; `indexer` gives the index map, which
/// the text alone determines.
#[derive(Debug, PartialEq)]
pub struct DreamberdString {
    pub value: String,
}

/// A truth value: true, false, or maybe (`None`).
#[derive(Debug, Clone, Copy, PartialEq, Eq, Structural)]
pub struct DreamberdBoolean {
    pub value: Option<bool>,
}

/// The index under which a list holds an item: a whole number, or the bits of a
/// number with a fractional part.
#[derive(Debug, Clone, Copy, PartialEq, Eq, Structural)]
pub enum ListKey {
    Whole(i64),
    Fraction(u64),
}

/// A list: its items in order, and the index map that says under which index each
/// place is found. A fresh list numbers its places from -1.
#[derive(Debug, PartialEq)]
pub struct DreamberdList<'a> {
    pub values: Vec<DreamberdValue<'a>>,
    pub indexer: Vec<(ListKey, usize)>,
}

/// A map from texts to values, in the order in which the keys came.
#[derive(Debug, PartialEq)]
pub struct DreamberdMap<'a> {
    pub values: Vec<(String, DreamberdValue<'a>)>,
}

/// A function of the program: its name, the names of its parameters, and its body.
#[derive(Debug, PartialEq)]
pub struct DreamberdFunction<'a> {
    pub name: String,
    pub args: Vec<String>,
    pub code: &'a Vec<CodeStatement>,
    pub is_async: bool,
}

/// A function of the runtime, known by its name. `arg_count` is -1 for any number of
/// arguments.
#[derive(Debug, PartialEq)]
pub struct BuiltinFunction {
    pub name: String,
    pub arg_count: i32,
}

/// The one instance of a class: the class name and the properties.
#[derive(Debug, PartialEq)]
pub struct DreamberdObject<'a> {
    pub class_name: String,
    pub namespace: Vec<(String, DreamberdValue<'a>)>,
}

#[derive(Debug, Clone, Copy, PartialEq, Eq, Structural)]
pub struct DreamberdUndefined;

#[derive(Debug, Clone, Copy, PartialEq, Eq, Structural)]
pub struct DreamberdSpecialBlankValue;

#[derive(Debug, PartialEq)]
pub struct DreamberdKeyword {
    pub value: String,
}

#[derive(Debug, PartialEq)]
pub struct DreamberdPromise<'a> {
    pub resolved: bool,
    pub value: Option<Box<DreamberdValue<'a>>>,
}

/// What a value is, with texts as sequences of characters.
#[allow(inconsistent_fields)]
pub enum ValueView {
    Number(u64),
    String(Seq<char>),
    Boolean(Option<bool>),
    List { values: Seq<ValueView>, indexer: Seq<(ListKey, usize)> },
    Mapping { values: Seq<(Seq<char>, ValueView)> },
    Function { name: Seq<char>, args: Seq<Seq<char>>, code: Seq<StmtView>, is_async: bool },
    BuiltinFunction { name: Seq<char>, arg_count: i32 },
    Object { class_name: Seq<char>, namespace: Seq<(Seq<char>, ValueView)> },
    Undefined,
    SpecialBlank,
    Keyword(Seq<char>),
    Promise { resolved: bool, value: Option<Box<ValueView>> },
}

/// The views of a sequence of values.
pub open spec fn value_views<'a>(values: Seq<DreamberdValue<'a>>) -> Seq<ValueView>
    decreases values,
{
    Seq::new(
        values.len(),
        |i: int|
            if 0 <= i < values.len() {
                value_view(values[i])
            } else {
                arbitrary()
            },
    )
}

/// The views of a sequence of named values.
pub open spec fn entry_views<'a>(entries: Seq<(String, DreamberdValue<'a>)>) -> Seq<
    (Seq<char>, ValueView),
>
    decreases entries,
{
    Seq::new(
        entries.len(),
        |i: int|
            if 0 <= i < entries.len() {
                (entries[i].0@, value_view(entries[i].1))
            } else {
                arbitrary()
            },
    )
}

/// The view of a value.
pub open spec fn value_view<'a>(value: DreamberdValue<'a>) -> ValueView
    decreases value,
{
    match value {
        DreamberdValue::Number(n) => ValueView::Number(n.bits),
        DreamberdValue::String(s) => ValueView::String(s.value@),
        DreamberdValue::Boolean(b) => ValueView::Boolean(b.value),
        DreamberdValue::List(l) => ValueView::List {
            values: value_views(l.values@),
            indexer: l.indexer@,
        },
        DreamberdValue::Mapping(m) => ValueView::Mapping { values: entry_views(m.values@) },
        DreamberdValue::Function(f) => ValueView::Function {
            name: f.name@,
            args: texts(f.args@),
            code: stmt_views(f.code@),
            is_async: f.is_async,
        },
        DreamberdValue::BuiltinFunction(f) => ValueView::BuiltinFunction {
            name: f.name@,
            arg_count: f.arg_count,
        },
        DreamberdValue::Object(o) => ValueView::Object {
            class_name: o.class_name@,
            namespace: entry_views(o.namespace@),
        },
        DreamberdValue::Undefined(_) => ValueView::Undefined,
        DreamberdValue::SpecialBlank(_) => ValueView::SpecialBlank,
        DreamberdValue::Keyword(k) => ValueView::Keyword(k.value@),
        DreamberdValue::Promise(p) => ValueView::Promise {
            resolved: p.resolved,
            value: match p.value {
                Some(v) => Some(Box::new(value_view(*v))),
                None => None,
            },
        },
    }
}

impl<'a> View for DreamberdValue<'a> {
    type V = ValueView;

    open spec fn view(&self) -> ValueView {
        value_view(*self)
    }
}

proof fn lemma_push_value<'a>(items: Seq<DreamberdValue<'a>>, item: DreamberdValue<'a>)
    ensures
        value_views(items.push(item)) == value_views(items).push(value_view(item)),
{
    assert(value_views(items.push(item)) =~= value_views(items).push(value_view(item)));
}

proof fn lemma_push_entry<'a>(
    items: Seq<(String, DreamberdValue<'a>)>,
    item: (String, DreamberdValue<'a>),
)
    ensures
        entry_views(items.push(item)) == entry_views(items).push((item.0@, value_view(item.1))),
{
    assert(entry_views(items.push(item)) =~= entry_views(items).push(
        (item.0@, value_view(item.1)),
    ));
}

/// A copy of a sequence of strings.
pub fn copy_texts(items: &Vec<String>) -> (r: Vec<String>)
    ensures
        texts(r@) == texts(items@),
{
    let mut r: Vec<String> = Vec::new();
    let mut i: usize = 0;
    while i < items.len()
        invariant
            i <= items.len(),
            r@.len() == i,
            forall|j: int| 0 <= j < i ==> r@[j]@ == items@[j]@,
        decreases items.len() - i,
    {
        r.push(items[i].clone());
        i += 1;
    }
    assert(texts(r@) =~= texts(items@));
    r
}

fn copy_keys(items: &Vec<(ListKey, usize)>) -> (r: Vec<(ListKey, usize)>)
    ensures
        r@ == items@,
{
    let mut r: Vec<(ListKey, usize)> = Vec::new();
    let mut i: usize = 0;
    while i < items.len()
        invariant
            i <= items.len(),
            r@ == items@.take(i as int),
        decreases items.len() - i,
    {
        r.push((items[i].0, items[i].1));
        assert(r@ =~= items@.take(i + 1));
        i += 1;
    }
    assert(items@.take(items.len() as int) =~= items@);
    r
}

/// A copy of a sequence of values.
pub fn copy_values<'a>(items: &Vec<DreamberdValue<'a>>) -> (r: Vec<DreamberdValue<'a>>)
    ensures
        value_views(r@) == value_views(items@),
    decreases items,
{
    let mut r: Vec<DreamberdValue<'a>> = Vec::new();
    let mut i: usize = 0;
    while i < items.len()
        invariant
            i <= items.len(),
            r@.len() == i,
            forall|j: int| 0 <= j < i ==> value_view(r@[j]) == value_view(items@[j]),
        decreases items.len() - i,
    {
        r.push(copy_value(&items[i]));
        i += 1;
    }
    assert(value_views(r@) =~= value_views(items@));
    r
}

/// A copy of a sequence of named values.
pub fn copy_entries<'a>(items: &Vec<(String, DreamberdValue<'a>)>) -> (r: Vec<
    (String, DreamberdValue<'a>),
>)
    ensures
        entry_views(r@) == entry_views(items@),
    decreases items,
{
    let mut r: Vec<(String, DreamberdValue<'a>)> = Vec::new();
    let mut i: usize = 0;
    while i < items.len()
        invariant
            i <= items.len(),
            r@.len() == i,
            forall|j: int|
                0 <= j < i ==> r@[j].0@ == items@[j].0@ && value_view(r@[j].1) == value_view(
                    items@[j].1,
                ),
        decreases items.len() - i,
    {
        r.push((items[i].0.clone(), copy_value(&items[i].1)));
        i += 1;
    }
    assert(entry_views(r@) =~= entry_views(items@));
    r
}

/// A copy of a value.
pub fn copy_value<'a>(value: &DreamberdValue<'a>) -> (r: DreamberdValue<'a>)
    ensures
        value_view(r) == value_view(*value),
    decreases value,
{
    match value {
        DreamberdValue::Number(n) => DreamberdValue::Number(*n),
        DreamberdValue::String(s) => DreamberdValue::String(
            DreamberdString { value: s.value.clone() },
        ),
        DreamberdValue::Boolean(b) => DreamberdValue::Boolean(*b),
        DreamberdValue::List(l) => {
            DreamberdValue::List(
                DreamberdList { values: copy_values(&l.values), indexer: copy_keys(&l.indexer) },
            )
        },
        DreamberdValue::Mapping(m) => DreamberdValue::Mapping(
            DreamberdMap { values: copy_entries(&m.values) },
        ),
        DreamberdValue::Function(f) => DreamberdValue::Function(
            DreamberdFunction {
                name: f.name.clone(),
                args: copy_texts(&f.args),
                code: f.code,
                is_async: f.is_async,
            },
        ),
        DreamberdValue::BuiltinFunction(f) => DreamberdValue::BuiltinFunction(
            BuiltinFunction { name: f.name.clone(), arg_count: f.arg_count },
        ),
        DreamberdValue::Object(o) => DreamberdValue::Object(
            DreamberdObject {
                class_name: o.class_name.clone(),
                namespace: copy_entries(&o.namespace),
            },
        ),
        DreamberdValue::Undefined(_) => DreamberdValue::Undefined(DreamberdUndefined),
        DreamberdValue::SpecialBlank(_) => DreamberdValue::SpecialBlank(
            DreamberdSpecialBlankValue,
        ),
        DreamberdValue::Keyword(k) => DreamberdValue::Keyword(
            DreamberdKeyword { value: k.value.clone() },
        ),
        DreamberdValue::Promise(p) => DreamberdValue::Promise(
            DreamberdPromise {
                resolved: p.resolved,
                value: match &p.value {
                    Some(v) => Some(Box::new(copy_value(v))),
                    None => None,
                },
            },
        ),
    }
}

impl<'a> Clone for DreamberdValue<'a> {
    fn clone(&self) -> (r: Self)
        ensures
            value_view(r) == value_view(*self),
    {
        copy_value(self)
    }
}

fn keys_equal(a: &Vec<(ListKey, usize)>, b: &Vec<(ListKey, usize)>) -> (r: bool)
    ensures
        r == (a@ == b@),
{
    if a.len() != b.len() {
        return false;
    }
    let mut i: usize = 0;
    while i < a.len()
        invariant
            i <= a.len(),
            a.len() == b.len(),
            forall|j: int| 0 <= j < i ==> a@[j] == b@[j],
        decreases a.len() - i,
    {
        if a[i].0 != b[i].0 || a[i].1 != b[i].1 {
            return false;
        }
        i += 1;
    }
    assert(a@ =~= b@);
    true
}

/// Whether two sequences of values are equal, item by item.
pub open spec fn lists_alike(a: Seq<ValueView>, b: Seq<ValueView>) -> bool
    decreases a,
{
    a.len() == b.len() && forall|i: int| 0 <= i < a.len() ==> alike(#[trigger] a[i], b[i])
}

/// Whether two sequences of named values are equal, item by item.
pub open spec fn entries_alike(a: Seq<(Seq<char>, ValueView)>, b: Seq<(Seq<char>, ValueView)>) -> bool
    decreases a,
{
    a.len() == b.len() && forall|i: int|
        0 <= i < a.len() ==> (#[trigger] a[i]).0 == b[i].0 && alike(a[i].1, b[i].1)
}

/// Equality of values, as the language sees it: values of different kinds are never
/// equal; numbers are equal when they stand for the same number (what is no number
/// equals nothing, not even itself); everything else is equal when all its parts are.
pub open spec fn alike(a: ValueView, b: ValueView) -> bool
    decreases a,
{
    match a {
        ValueView::Number(x) => b is Number && crate::number::numbers_equal(x, b->Number_0),
        ValueView::String(x) => b is String && x == b->String_0,
        ValueView::Boolean(x) => b is Boolean && x == b->Boolean_0,
        ValueView::List { values, indexer } => match b {
            ValueView::List { values: other, indexer: other_indexer } => indexer == other_indexer
                && lists_alike(values, other),
            _ => false,
        },
        ValueView::Mapping { values } => match b {
            ValueView::Mapping { values: other } => entries_alike(values, other),
            _ => false,
        },
        ValueView::Function { name, args, code, is_async } => match b {
            ValueView::Function {
                name: other_name,
                args: other_args,
                code: other_code,
                is_async: other_async,
            } => name == other_name && args == other_args && code == other_code && is_async
                == other_async,
            _ => false,
        },
        ValueView::BuiltinFunction { name, arg_count } => match b {
            ValueView::BuiltinFunction { name: other_name, arg_count: other_count } => name
                == other_name && arg_count == other_count,
            _ => false,
        },
        ValueView::Object { class_name, namespace } => match b {
            ValueView::Object { class_name: other_name, namespace: other } => class_name
                == other_name && entries_alike(namespace, other),
            _ => false,
        },
        ValueView::Undefined => b is Undefined,
        ValueView::SpecialBlank => b is SpecialBlank,
        ValueView::Keyword(x) => b is Keyword && x == b->Keyword_0,
        ValueView::Promise { resolved, value } => match b {
            ValueView::Promise { resolved: other_resolved, value: other } => resolved
                == other_resolved && match value {
                Some(v) => match other {
                    Some(w) => alike(*v, *w),
                    None => false,
                },
                None => other is None,
            },
            _ => false,
        },
    }
}

/// Whether two sequences of values are equal, item by item.
pub fn value_lists_equal<'a>(a: &Vec<DreamberdValue<'a>>, b: &Vec<DreamberdValue<'a>>) -> (r:
    bool)
    ensures
        r == lists_alike(value_views(a@), value_views(b@)),
    decreases a,
{
    if a.len() != b.len() {
        return false;
    }
    let mut i: usize = 0;
    while i < a.len()
        invariant
            i <= a.len(),
            a.len() == b.len(),
            forall|j: int|
                0 <= j < i ==> alike(#[trigger] value_views(a@)[j], value_views(b@)[j]),
        decreases a.len() - i,
    {
        if !values_equal(&a[i], &b[i]) {
            assert(!alike(value_views(a@)[i as int], value_views(b@)[i as int]));
            return false;
        }
        assert(alike(value_views(a@)[i as int], value_views(b@)[i as int]));
        i += 1;
    }
    true
}

/// Whether two sequences of named values are equal, item by item.
pub fn entry_lists_equal<'a>(
    a: &Vec<(String, DreamberdValue<'a>)>,
    b: &Vec<(String, DreamberdValue<'a>)>,
) -> (r: bool)
    ensures
        r == entries_alike(entry_views(a@), entry_views(b@)),
    decreases a,
{
    if a.len() != b.len() {
        return false;
    }
    let mut i: usize = 0;
    while i < a.len()
        invariant
            i <= a.len(),
            a.len() == b.len(),
            forall|j: int|
                0 <= j < i ==> (#[trigger] entry_views(a@)[j]).0 == entry_views(b@)[j].0 && alike(
                    entry_views(a@)[j].1,
                    entry_views(b@)[j].1,
                ),
        decreases a.len() - i,
    {
        if a[i].0 != b[i].0 || !values_equal(&a[i].1, &b[i].1) {
            assert(!(entry_views(a@)[i as int].0 == entry_views(b@)[i as int].0 && alike(
                entry_views(a@)[i as int].1,
                entry_views(b@)[i as int].1,
            )));
            return false;
        }
        assert(entry_views(a@)[i as int].0 == entry_views(b@)[i as int].0);
        assert(alike(entry_views(a@)[i as int].1, entry_views(b@)[i as int].1));
        i += 1;
    }
    true
}

/// Whether two values are equal, as the language sees it.
pub fn values_equal<'a>(a: &DreamberdValue<'a>, b: &DreamberdValue<'a>) -> (r: bool)
    ensures
        r == alike(value_view(*a), value_view(*b)),
    decreases a,
{
    match a {
        DreamberdValue::Number(x) => match b {
            DreamberdValue::Number(y) => crate::number::equal(x.bits, y.bits),
            _ => false,
        },
        DreamberdValue::String(x) => match b {
            DreamberdValue::String(y) => x.value == y.value,
            _ => false,
        },
        DreamberdValue::Boolean(x) => match b {
            DreamberdValue::Boolean(y) => x.value == y.value,
            _ => false,
        },
        DreamberdValue::List(x) => match b {
            DreamberdValue::List(y) => keys_equal(&x.indexer, &y.indexer) && value_lists_equal(
                &x.values,
                &y.values,
            ),
            _ => false,
        },
        DreamberdValue::Mapping(x) => match b {
            DreamberdValue::Mapping(y) => entry_lists_equal(&x.values, &y.values),
            _ => false,
        },
        DreamberdValue::Function(x) => match b {
            DreamberdValue::Function(y) => x.name == y.name && texts_equal(&x.args, &y.args)
                && x.is_async == y.is_async && statement_lists_equal(x.code, y.code),
            _ => false,
        },
        DreamberdValue::BuiltinFunction(x) => match b {
            DreamberdValue::BuiltinFunction(y) => x.name == y.name && x.arg_count == y.arg_count,
            _ => false,
        },
        DreamberdValue::Object(x) => match b {
            DreamberdValue::Object(y) => x.class_name == y.class_name && entry_lists_equal(
                &x.namespace,
                &y.namespace,
            ),
            _ => false,
        },
        DreamberdValue::Undefined(_) => match b {
            DreamberdValue::Undefined(_) => true,
            _ => false,
        },
        DreamberdValue::SpecialBlank(_) => match b {
            DreamberdValue::SpecialBlank(_) => true,
            _ => false,
        },
        DreamberdValue::Keyword(x) => match b {
            DreamberdValue::Keyword(y) => x.value == y.value,
            _ => false,
        },
        DreamberdValue::Promise(x) => match b {
            DreamberdValue::Promise(y) => {
                let inner = match &x.value {
                    Some(p) => match &y.value {
                        Some(q) => values_equal(p, q),
                        None => false,
                    },
                    None => y.value.is_none(),
                };
                x.resolved == y.resolved && inner
            },
            _ => false,
        },
    }
}

impl DreamberdString {
    pub fn new(value: String) -> (s: Self)
        ensures
            s.value == value,
    {
        DreamberdString { value }
    }

    /// The place of the character with index `index` in a text of `len` characters:
    /// the first character has index -1.
    pub open spec fn place(len: nat, index: i64) -> Option<usize> {
        if 0 <= index + 1 < len {
            Some((index + 1) as usize)
        } else {
            None
        }
    }

    /// The index map of a text of `len` characters: each index with the place of its
    /// character, in the order of the places. The indices run from -1.
    pub open spec fn index_map(len: nat) -> Seq<(i64, usize)> {
        Seq::new(len, |i: int| (fresh_index(i), i as usize))
    }

    /// The index map of the text: the indices from -1 up to the number of characters
    /// less 2, each with the place of its character, which is one more than the index.
    pub fn indexer(&self) -> (map: Vec<(i64, usize)>)
        ensures
            map@ == Self::index_map(self.value@.len()),
            map@.len() == self.value@.len(),
            self.value@.len() <= i64::MAX ==> forall|k: int|
                0 <= k < map@.len() ==> (#[trigger] map@[k]).0 == k - 1 && Self::place(
                    self.value@.len(),
                    map@[k].0,
                ) == Some(map@[k].1),
            self.value@.len() <= i64::MAX ==> forall|index: i64|
                (#[trigger] Self::place(self.value@.len(), index)) is Some ==> map@[index + 1]
                    == (index, Self::place(self.value@.len(), index)->0),
    {
        let len = self.value.as_str().unicode_len();
        let mut map: Vec<(i64, usize)> = Vec::new();
        let mut i: usize = 0;
        while i < len
            invariant
                i <= len,
                len == self.value@.len(),
                map@ == Self::index_map(i as nat),
            decreases len - i,
        {
            let wide = i as u64;
            let index: i64 = if wide <= 0x7FFF_FFFF_FFFF_FFFF {
                (wide as i64) - 1
            } else {
                i64::MAX
            };
            map.push((index, i));
            assert(map@ =~= Self::index_map((i + 1) as nat));
            i += 1;
        }
        map
    }

    /// The place of the character with index `index`, if the text has one there.
    pub fn position_of(&self, index: i64) -> (r: Option<usize>)
        ensures
            r == Self::place(self.value@.len(), index),
    {
        let len = self.value.as_str().unicode_len();
        let next: i128 = index as i128 + 1;
        if next >= 0 && next < len as i128 {
            Some(next as usize)
        } else {
            None
        }
    }

    /// The character with index `index`, if the text has one there.
    pub fn char_at(&self, index: i64) -> (r: Option<char>)
        ensures
            r == match Self::place(self.value@.len(), index) {
                Some(p) => Some(self.value@[p as int]),
                None => None,
            },
    {
        match self.position_of(index) {
            Some(p) => Some(self.value.as_str().get_char(p)),
            None => None,
        }
    }
}

impl DreamberdBoolean {
    pub fn new(value: Option<bool>) -> (b: Self)
        ensures
            b.value == value,
    {
        DreamberdBoolean { value }
    }

    pub fn true_val() -> (b: Self)
        ensures
            b.value == Some(true),
    {
        DreamberdBoolean::new(Some(true))
    }

    pub fn false_val() -> (b: Self)
        ensures
            b.value == Some(false),
    {
        DreamberdBoolean::new(Some(false))
    }

    pub fn maybe() -> (b: Self)
        ensures
            b.value == None::<bool>,
    {
        DreamberdBoolean::new(None)
    }
}

/// The truth value of `b` as a value.
pub fn bool_value<'a>(b: bool) -> (v: DreamberdValue<'a>)
    ensures
        value_view(v) == ValueView::Boolean(Some(b)),
{
    DreamberdValue::Boolean(
        if b {
            DreamberdBoolean::true_val()
        } else {
            DreamberdBoolean::false_val()
        },
    )
}

/// The index map of a fresh list of `n` items: place `i` has index `i - 1`.
pub open spec fn fresh_indexer(n: nat) -> Seq<(ListKey, usize)> {
    Seq::new(n, |i: int| (ListKey::Whole(fresh_index(i)), i as usize))
}

/// The index of place `i` in a fresh list.
pub open spec fn fresh_index(i: int) -> i64 {
    if i - 1 <= i64::MAX {
        (i - 1) as i64
    } else {
        i64::MAX
    }
}

/// The first place at or after `from` where `indexer` holds `key`, or its length.
pub open spec fn find_key(indexer: Seq<(ListKey, usize)>, key: ListKey, from: int) -> int
    decreases indexer.len() - from,
{
    if 0 <= from < indexer.len() && indexer[from].0 != key {
        find_key(indexer, key, from + 1)
    } else {
        from
    }
}

/// The item that a list holds under `key`.
pub open spec fn list_get(
    values: Seq<ValueView>,
    indexer: Seq<(ListKey, usize)>,
    key: ListKey,
) -> Option<ValueView> {
    let i = find_key(indexer, key, 0);
    if 0 <= i < indexer.len() && indexer[i].1 < values.len() {
        Some(values[indexer[i].1 as int])
    } else {
        None
    }
}

/// `indexer` with `key` set to `place`.
pub open spec fn set_key(indexer: Seq<(ListKey, usize)>, key: ListKey, place: usize) -> Seq<
    (ListKey, usize),
> {
    let i = find_key(indexer, key, 0);
    if 0 <= i < indexer.len() {
        indexer.update(i, (key, place))
    } else {
        indexer.push((key, place))
    }
}

/// An entry of the index map after an item was put in at place `at`: places at or
/// after `at` move up by one.
pub open spec fn shifted_entry(e: (ListKey, usize), at: usize) -> (ListKey, usize) {
    if e.1 >= at && e.1 < usize::MAX {
        (e.0, (e.1 + 1) as usize)
    } else {
        e
    }
}

/// The index map after an item was put in at place `at`.
pub open spec fn shifted(indexer: Seq<(ListKey, usize)>, at: usize) -> Seq<(ListKey, usize)> {
    Seq::new(indexer.len(), |i: int| shifted_entry(indexer[i], at))
}

/// Where an item with a fractional index goes: behind the item whose index is `floor`,
/// or at the end if there is none.
pub open spec fn fraction_place(
    values: Seq<ValueView>,
    indexer: Seq<(ListKey, usize)>,
    floor: i64,
) -> usize {
    let b = find_key(indexer, ListKey::Whole(floor), 0);
    if 0 <= b < indexer.len() && indexer[b].1 < values.len() {
        (indexer[b].1 + 1) as usize
    } else {
        values.len() as usize
    }
}

/// A list after `value` was put in under `key`. Under an index that is in use the
/// value replaces the item. Under a new fractional index it goes in behind the item
/// whose index is `floor`, and the items behind it move up; under a new whole index
/// it goes to the end.
pub open spec fn list_insert(
    values: Seq<ValueView>,
    indexer: Seq<(ListKey, usize)>,
    key: ListKey,
    floor: i64,
    value: ValueView,
) -> (Seq<ValueView>, Seq<(ListKey, usize)>) {
    let i = find_key(indexer, key, 0);
    if 0 <= i < indexer.len() && indexer[i].1 < values.len() {
        (values.update(indexer[i].1 as int, value), indexer)
    } else {
        match key {
            ListKey::Fraction(_) => {
                let at = fraction_place(values, indexer, floor);
                (values.insert(at as int, value), set_key(shifted(indexer, at), key, at))
            },
            ListKey::Whole(_) => (
                values.push(value),
                set_key(indexer, key, values.len() as usize),
            ),
        }
    }
}

/// Whether an index map fits a list of `len` items: no index occurs twice, and every
/// index leads to a place of the list.
pub open spec fn indexed_well(len: nat, indexer: Seq<(ListKey, usize)>) -> bool {
    &&& forall|i: int, j: int| 0 <= i < j < indexer.len() ==> indexer[i].0 != indexer[j].0
    &&& forall|i: int| 0 <= i < indexer.len() ==> (#[trigger] indexer[i]).1 < len
}

/// What `find_key` finds: the first place at or after `from` with the index.
pub proof fn lemma_find_key(indexer: Seq<(ListKey, usize)>, key: ListKey, from: int)
    requires
        0 <= from <= indexer.len(),
    ensures
        from <= find_key(indexer, key, from) <= indexer.len(),
        find_key(indexer, key, from) < indexer.len() ==> indexer[find_key(indexer, key, from)].0
            == key,
        forall|j: int| from <= j < find_key(indexer, key, from) ==> indexer[j].0 != key,
    decreases indexer.len() - from,
{
    if from < indexer.len() && indexer[from].0 != key {
        lemma_find_key(indexer, key, from + 1);
    }
}

/// Setting an index to a place of the list keeps the index map fit.
pub proof fn lemma_set_key_well(len: nat, indexer: Seq<(ListKey, usize)>, key: ListKey, place: usize)
    requires
        indexed_well(len, indexer),
        place < len,
    ensures
        indexed_well(len, set_key(indexer, key, place)),
{
    lemma_find_key(indexer, key, 0);
    let i = find_key(indexer, key, 0);
    let after = set_key(indexer, key, place);
    assert forall|a: int, b: int| 0 <= a < b < after.len() implies after[a].0 != after[b].0 by {
        if i < indexer.len() {
            assert(after[a].0 == indexer[a].0);
            assert(after[b].0 == indexer[b].0);
        } else {
            if b < indexer.len() {
                assert(after[a] == indexer[a]);
                assert(after[b] == indexer[b]);
            } else {
                assert(after[a] == indexer[a]);
            }
        }
    }
    assert forall|a: int| 0 <= a < after.len() implies (#[trigger] after[a]).1 < len by {
        if a < indexer.len() && a != i {
            assert(after[a] == indexer[a]);
        }
    }
}

/// A list stays well indexed when an item is put into it.
pub proof fn lemma_list_insert_well(
    values: Seq<ValueView>,
    indexer: Seq<(ListKey, usize)>,
    key: ListKey,
    floor: i64,
    value: ValueView,
)
    requires
        indexed_well(values.len(), indexer),
        values.len() < usize::MAX,
    ensures
        indexed_well(
            list_insert(values, indexer, key, floor, value).0.len(),
            list_insert(values, indexer, key, floor, value).1,
        ),
{
    lemma_find_key(indexer, key, 0);
    let i = find_key(indexer, key, 0);
    if 0 <= i < indexer.len() && indexer[i].1 < values.len() {
    } else {
        match key {
            ListKey::Fraction(_) => {
                let at = fraction_place(values, indexer, floor);
                let moved = shifted(indexer, at);
                assert(at <= values.len());
                assert forall|a: int, b: int| 0 <= a < b < moved.len() implies moved[a].0
                    != moved[b].0 by {
                    assert(moved[a].0 == indexer[a].0);
                    assert(moved[b].0 == indexer[b].0);
                }
                assert forall|a: int| 0 <= a < moved.len() implies (#[trigger] moved[a]).1
                    < values.len() + 1 by {
                    assert(indexer[a].1 < values.len());
                }
                lemma_set_key_well((values.len() + 1) as nat, moved, key, at);
            },
            ListKey::Whole(_) => {
                assert forall|a: int| 0 <= a < indexer.len() implies (#[trigger] indexer[a]).1
                    < values.len() + 1 by {}
                lemma_set_key_well((values.len() + 1) as nat, indexer, key, values.len() as usize);
            },
        }
    }
}

fn same_key(a: ListKey, b: ListKey) -> (r: bool)
    ensures
        r == (a == b),
{
    a == b
}

fn position_of_key(indexer: &Vec<(ListKey, usize)>, key: ListKey) -> (i: usize)
    ensures
        i == find_key(indexer@, key, 0),
        i <= indexer.len(),
{
    let mut i: usize = 0;
    while i < indexer.len() && !same_key(indexer[i].0, key)
        invariant
            i <= indexer.len(),
            find_key(indexer@, key, 0) == find_key(indexer@, key, i as int),
        decreases indexer.len() - i,
    {
        i += 1;
    }
    i
}

fn put_key(indexer: &mut Vec<(ListKey, usize)>, key: ListKey, place: usize)
    ensures
        final(indexer)@ == set_key(old(indexer)@, key, place),
{
    let i = position_of_key(indexer, key);
    if i < indexer.len() {
        indexer[i] = (key, place);
    } else {
        indexer.push((key, place));
    }
}

impl<'a> DreamberdList<'a> {
    /// Whether the list is as it should be: its index map fits its items.
    pub open spec fn wf(&self) -> bool {
        indexed_well(self.values@.len(), self.indexer@)
    }

    /// A list of `values`, indexed from -1.
    pub fn new(values: Vec<DreamberdValue<'a>>) -> (l: Self)
        ensures
            l.values == values,
            l.indexer@ == fresh_indexer(values@.len()),
            values@.len() <= i64::MAX ==> l.wf(),
    {
        let mut indexer: Vec<(ListKey, usize)> = Vec::new();
        let mut i: usize = 0;
        while i < values.len()
            invariant
                i <= values.len(),
                indexer@ == fresh_indexer(i as nat),
            decreases values.len() - i,
        {
            let wide = i as u64;
            let index: i64 = if wide <= 0x7FFF_FFFF_FFFF_FFFF {
                (wide as i64) - 1
            } else {
                i64::MAX
            };
            indexer.push((ListKey::Whole(index), i));
            assert(indexer@ =~= fresh_indexer((i + 1) as nat));
            i += 1;
        }
        DreamberdList { values, indexer }
    }

    /// The item under `key`, if the list holds one there.
    pub fn get(&self, key: ListKey) -> (r: Option<&DreamberdValue<'a>>)
        ensures
            match r {
                Some(v) => list_get(value_views(self.values@), self.indexer@, key) == Some(
                    value_view(*v),
                ),
                None => list_get(value_views(self.values@), self.indexer@, key) is None,
            },
    {
        let i = position_of_key(&self.indexer, key);
        if i < self.indexer.len() && self.indexer[i].1 < self.values.len() {
            Some(&self.values[self.indexer[i].1])
        } else {
            None
        }
    }

    /// Puts `value` in under `key`; `floor` is the whole part of a fractional index.
    pub fn insert_at(&mut self, key: ListKey, floor: i64, value: DreamberdValue<'a>)
        ensures
            (value_views(final(self).values@), final(self).indexer@) == list_insert(
                value_views(old(self).values@),
                old(self).indexer@,
                key,
                floor,
                value_view(value),
            ),
            old(self).wf() && old(self).values@.len() < usize::MAX ==> final(self).wf(),
    {
        proof {
            assert(value_views(self.values@).len() == self.values@.len());
            if self.wf() && self.values@.len() < usize::MAX {
                lemma_list_insert_well(
                    value_views(self.values@),
                    self.indexer@,
                    key,
                    floor,
                    value_view(value),
                );
            }
        }
        let ghost before = value_views(self.values@);
        let ghost start_indexer = self.indexer@;
        let ghost v = value_view(value);
        assert(before.len() == self.values@.len());
        let i = position_of_key(&self.indexer, key);
        if i < self.indexer.len() && self.indexer[i].1 < self.values.len() {
            let place = self.indexer[i].1;
            self.values[place] = value;
            assert(value_views(self.values@) =~= before.update(place as int, v));
            return ;
        }
        match key {
            ListKey::Fraction(_) => {
                let b = position_of_key(&self.indexer, ListKey::Whole(floor));
                let at = if b < self.indexer.len() && self.indexer[b].1 < self.values.len() {
                    self.indexer[b].1 + 1
                } else {
                    self.values.len()
                };
                self.values.insert(at, value);
                assert(value_views(self.values@) =~= before.insert(at as int, v));
                let ghost old_indexer = self.indexer@;
                let mut j: usize = 0;
                while j < self.indexer.len()
                    invariant
                        j <= self.indexer.len(),
                        self.indexer.len() == old_indexer.len(),
                        value_views(self.values@) == before.insert(at as int, v),
                        forall|k: int|
                            0 <= k < j ==> self.indexer@[k] == shifted_entry(old_indexer[k], at),
                        forall|k: int|
                            j <= k < self.indexer.len() ==> self.indexer@[k] == old_indexer[k],
                    decreases self.indexer.len() - j,
                {
                    let entry = self.indexer[j];
                    if entry.1 >= at && entry.1 < usize::MAX {
                        self.indexer[j] = (entry.0, entry.1 + 1);
                    }
                    j += 1;
                }
                assert(self.indexer@ =~= shifted(old_indexer, at));
                put_key(&mut self.indexer, key, at);
                assert(at == fraction_place(before, old_indexer, floor));
                assert(self.indexer@ == set_key(shifted(old_indexer, at), key, at));
                assert(value_views(self.values@) == before.insert(at as int, v));
                assert((value_views(self.values@), self.indexer@) == list_insert(
                    before,
                    start_indexer,
                    key,
                    floor,
                    v,
                ));
            },
            ListKey::Whole(_) => {
                let place = self.values.len();
                let ghost old_indexer = self.indexer@;
                proof {
                    lemma_push_value(self.values@, value);
                }
                self.values.push(value);
                put_key(&mut self.indexer, key, place);
                assert(value_views(self.values@) == before.push(v));
                assert(place == before.len());
                assert(self.indexer@ == set_key(old_indexer, key, place));
                assert((value_views(self.values@), self.indexer@) == list_insert(
                    before,
                    start_indexer,
                    key,
                    floor,
                    v,
                ));
            },
        }
    }
}

/// The first place at or after `from` where `entries` holds `key`, or the length.
pub open spec fn find_entry<V>(entries: Seq<(Seq<char>, V)>, key: Seq<char>, from: int) -> int
    decreases entries.len() - from,
{
    if 0 <= from < entries.len() && entries[from].0 != key {
        find_entry(entries, key, from + 1)
    } else {
        from
    }
}

/// What `find_entry` finds: the first place at or after `from` with the key.
pub proof fn lemma_find_entry<V>(entries: Seq<(Seq<char>, V)>, key: Seq<char>, from: int)
    requires
        0 <= from <= entries.len(),
    ensures
        from <= find_entry(entries, key, from) <= entries.len(),
        find_entry(entries, key, from) < entries.len() ==> entries[find_entry(
            entries,
            key,
            from,
        )].0 == key,
        forall|j: int| from <= j < find_entry(entries, key, from) ==> entries[j].0 != key,
    decreases entries.len() - from,
{
    if from < entries.len() && entries[from].0 != key {
        lemma_find_entry(entries, key, from + 1);
    }
}

/// `entries` with `key` set to `value`: in the place where the key stands, or at the
/// end if the key is new.
pub open spec fn with_entry<V>(entries: Seq<(Seq<char>, V)>, key: Seq<char>, value: V) -> Seq<
    (Seq<char>, V),
> {
    let i = find_entry(entries, key, 0);
    if 0 <= i < entries.len() {
        entries.update(i, (key, value))
    } else {
        entries.push((key, value))
    }
}

/// Whether no key occurs twice.
pub open spec fn distinct_keys<V>(entries: Seq<(Seq<char>, V)>) -> bool {
    forall|i: int, j: int| 0 <= i < j < entries.len() ==> entries[i].0 != entries[j].0
}

/// Setting a key keeps the keys distinct.
pub proof fn lemma_with_entry_distinct<V>(entries: Seq<(Seq<char>, V)>, key: Seq<char>, value: V)
    requires
        distinct_keys(entries),
    ensures
        distinct_keys(with_entry(entries, key, value)),
{
    lemma_find_entry(entries, key, 0);
    let i = find_entry(entries, key, 0);
    let after = with_entry(entries, key, value);
    assert forall|a: int, b: int| 0 <= a < b < after.len() implies after[a].0 != after[b].0 by {
        if i < entries.len() {
            assert(after[a].0 == entries[a].0);
            assert(after[b].0 == entries[b].0);
        } else {
            if b < entries.len() {
                assert(after[a] == entries[a]);
                assert(after[b] == entries[b]);
            } else {
                assert(after[a] == entries[a]);
            }
        }
    }
}

/// Taking an entry out keeps the keys distinct.
pub proof fn lemma_remove_distinct<V>(entries: Seq<(Seq<char>, V)>, at: int)
    requires
        distinct_keys(entries),
        0 <= at < entries.len(),
    ensures
        distinct_keys(entries.remove(at)),
{
    let after = entries.remove(at);
    assert forall|a: int, b: int| 0 <= a < b < after.len() implies after[a].0 != after[b].0 by {
        let x = if a < at {
            a
        } else {
            a + 1
        };
        let y = if b < at {
            b
        } else {
            b + 1
        };
        assert(after[a] == entries[x]);
        assert(after[b] == entries[y]);
    }
}

/// Changing what stands under a key keeps the keys distinct.
pub proof fn lemma_update_distinct<V>(entries: Seq<(Seq<char>, V)>, at: int, value: V)
    requires
        distinct_keys(entries),
        0 <= at < entries.len(),
    ensures
        distinct_keys(entries.update(at, (entries[at].0, value))),
{
    let after = entries.update(at, (entries[at].0, value));
    assert forall|a: int, b: int| 0 <= a < b < after.len() implies after[a].0 != after[b].0 by {
        assert(after[a].0 == entries[a].0);
        assert(after[b].0 == entries[b].0);
    }
}

fn position_of_entry<'a>(entries: &Vec<(String, DreamberdValue<'a>)>, key: &str) -> (i: usize)
    ensures
        i == find_entry(entry_views(entries@), key@, 0),
        i <= entries.len(),
{
    let mut i: usize = 0;
    while i < entries.len() && !crate::text::same_text(entries[i].0.as_str(), key)
        invariant
            i <= entries.len(),
            find_entry(entry_views(entries@), key@, 0) == find_entry(
                entry_views(entries@),
                key@,
                i as int,
            ),
        decreases entries.len() - i,
    {
        i += 1;
    }
    i
}

/// Sets `key` to `value` in a sequence of named values.
pub fn put_entry<'a>(
    entries: &mut Vec<(String, DreamberdValue<'a>)>,
    key: String,
    value: DreamberdValue<'a>,
)
    ensures
        entry_views(final(entries)@) == with_entry(
            entry_views(old(entries)@),
            key@,
            value_view(value),
        ),
        distinct_keys(entry_views(old(entries)@)) ==> distinct_keys(entry_views(final(entries)@)),
{
    let ghost before = entry_views(entries@);
    let ghost v = value_view(value);
    proof {
        if distinct_keys(before) {
            lemma_with_entry_distinct(before, key@, v);
        }
    }
    let i = position_of_entry(entries, key.as_str());
    if i < entries.len() {
        entries[i] = (key, value);
        assert(entry_views(entries@) =~= before.update(i as int, (key@, v)));
    } else {
        proof {
            lemma_push_entry(entries@, (key, value));
        }
        entries.push((key, value));
    }
}

impl<'a> DreamberdMap<'a> {
    /// Whether the map is as it should be: no key occurs twice.
    pub open spec fn wf(&self) -> bool {
        distinct_keys(entry_views(self.values@))
    }

    /// An empty map.
    pub fn new() -> (m: Self)
        ensures
            m.values@.len() == 0,
            m.wf(),
    {
        let m = DreamberdMap { values: Vec::new() };
        assert(entry_views(m.values@).len() == 0);
        m
    }

    /// The value under `key`, if the map holds one.
    pub fn get(&self, key: &str) -> (r: Option<&DreamberdValue<'a>>)
        ensures
            match r {
                Some(v) => {
                    let i = find_entry(entry_views(self.values@), key@, 0);
                    0 <= i < self.values@.len() && value_view(*v) == entry_views(
                        self.values@,
                    )[i].1
                },
                None => find_entry(entry_views(self.values@), key@, 0) >= self.values@.len(),
            },
    {
        let i = position_of_entry(&self.values, key);
        if i < self.values.len() {
            Some(&self.values[i].1)
        } else {
            None
        }
    }

    /// Sets `key` to `value`.
    pub fn insert(&mut self, key: String, value: DreamberdValue<'a>)
        ensures
            entry_views(final(self).values@) == with_entry(
                entry_views(old(self).values@),
                key@,
                value_view(value),
            ),
            old(self).wf() ==> final(self).wf(),
    {
        put_entry(&mut self.values, key, value);
    }
}

/// The name of the kind of a value.
pub open spec fn kind_of(v: ValueView) -> Seq<char> {
    match v {
        ValueView::Number(_) => "Number"@,
        ValueView::String(_) => "String"@,
        ValueView::Boolean(_) => "Boolean"@,
        ValueView::List { .. } => "List"@,
        ValueView::Mapping { .. } => "Map"@,
        ValueView::Function { .. } => "Function"@,
        ValueView::BuiltinFunction { .. } => "BuiltinFunction"@,
        ValueView::Object { .. } => "Object"@,
        ValueView::Undefined => "Undefined"@,
        ValueView::SpecialBlank => "SpecialBlank"@,
        ValueView::Keyword(_) => "Keyword"@,
        ValueView::Promise { .. } => "Promise"@,
    }
}

impl<'a> DreamberdValue<'a> {
    /// The name of the kind of the value.
    pub fn kind_name(&self) -> (r: &'static str)
        ensures
            r@ == kind_of(value_view(*self)),
    {
        match self {
            DreamberdValue::Number(_) => "Number",
            DreamberdValue::String(_) => "String",
            DreamberdValue::Boolean(_) => "Boolean",
            DreamberdValue::List(_) => "List",
            DreamberdValue::Mapping(_) => "Map",
            DreamberdValue::Function(_) => "Function",
            DreamberdValue::BuiltinFunction(_) => "BuiltinFunction",
            DreamberdValue::Object(_) => "Object",
            DreamberdValue::Undefined(_) => "Undefined",
            DreamberdValue::SpecialBlank(_) => "SpecialBlank",
            DreamberdValue::Keyword(_) => "Keyword",
            DreamberdValue::Promise(_) => "Promise",
        }
    }
}

/// The truth value of a value: a truth value is itself; a number is false when it is
/// zero; a text and a list are false when they are empty; undefined is false;
/// anything else is maybe.
pub open spec fn truth_of(v: ValueView) -> Option<bool> {
    match v {
        ValueView::Boolean(b) => b,
        ValueView::Number(n) => Some(!crate::number::is_zero(n)),
        ValueView::String(s) => Some(s.len() != 0),
        ValueView::Undefined => Some(false),
        ValueView::List { values, .. } => Some(values.len() != 0),
        _ => None,
    }
}

/// The truth value of a value.
pub fn db_to_boolean<'a>(value: &DreamberdValue<'a>) -> (b: DreamberdBoolean)
    ensures
        b.value == truth_of(value_view(*value)),
{
    match value {
        DreamberdValue::Boolean(b) => *b,
        DreamberdValue::Number(n) => {
            if zero(n.bits) {
                DreamberdBoolean::false_val()
            } else {
                DreamberdBoolean::true_val()
            }
        },
        DreamberdValue::String(s) => {
            if s.value.as_str().is_empty() {
                DreamberdBoolean::false_val()
            } else {
                DreamberdBoolean::true_val()
            }
        },
        DreamberdValue::Undefined(_) => DreamberdBoolean::false_val(),
        DreamberdValue::List(l) => {
            assert(value_views(l.values@).len() == l.values@.len());
            if l.values.len() == 0 {
                DreamberdBoolean::false_val()
            } else {
                DreamberdBoolean::true_val()
            }
        },
        _ => DreamberdBoolean::maybe(),
    }
}

/// The opposite of a truth value; maybe stays maybe.
pub open spec fn negated(b: Option<bool>) -> Option<bool> {
    match b {
        Some(t) => Some(!t),
        None => None,
    }
}

/// The opposite of a truth value; maybe stays maybe.
pub fn db_not(value: &DreamberdBoolean) -> (b: DreamberdBoolean)
    ensures
        b.value == negated(value.value),
{
    match value.value {
        Some(true) => DreamberdBoolean::false_val(),
        Some(false) => DreamberdBoolean::true_val(),
        None => DreamberdBoolean::maybe(),
    }
}

/// The number of a text, given what reading the text as a numeral gave: that number,
/// or zero.
pub fn number_read(parsed: Option<u64>) -> (n: DreamberdNumber)
    ensures
        n.bits == match parsed {
            Some(bits) => bits,
            None => ZERO_BITS,
        },
{
    match parsed {
        Some(bits) => DreamberdNumber::new(bits),
        None => DreamberdNumber::new(ZERO_BITS),
    }
}

/// Whether `bits` is the number that `ops` reads from `text`: what parsing the text
/// gave, or zero if it gave nothing.
pub open spec fn reads_number<N: Arithmetic>(ops: &N, text: Seq<char>, bits: u64) -> bool {
    exists|t: &str, parsed: Option<u64>|
        t@ == text && #[trigger] call_ensures(N::parse, (ops, t), parsed) && bits == match parsed {
            Some(b) => b,
            None => ZERO_BITS,
        }
}

/// The number of a value that is no text: a number is itself, true is one, false is
/// zero, maybe is a half, and anything else is zero.
pub open spec fn number_of(v: ValueView) -> u64 {
    match v {
        ValueView::Number(n) => n,
        ValueView::Boolean(Some(true)) => ONE_BITS,
        ValueView::Boolean(Some(false)) => ZERO_BITS,
        ValueView::Boolean(None) => HALF_BITS,
        _ => ZERO_BITS,
    }
}

/// The number of a value. A text is read as a numeral by `ops`, and a text that is no
/// numeral is zero.
pub fn db_to_number<'a, N: Arithmetic>(value: &DreamberdValue<'a>, ops: &N) -> (n: DreamberdNumber)
    ensures
        !(value_view(*value) is String) ==> n.bits == number_of(value_view(*value)),
        value_view(*value) is String ==> reads_number(ops, value_view(*value)->String_0, n.bits),
{
    match value {
        DreamberdValue::Number(n) => *n,
        DreamberdValue::Boolean(b) => match b.value {
            Some(true) => DreamberdNumber::new(ONE_BITS),
            Some(false) => DreamberdNumber::new(ZERO_BITS),
            None => DreamberdNumber::new(HALF_BITS),
        },
        DreamberdValue::String(s) => number_read(ops.parse(s.value.as_str())),
        _ => DreamberdNumber::new(ZERO_BITS),
    }
}

/// A runtime function of the given name and number of arguments.
pub fn create_builtin_function(name: &str, arg_count: i32) -> (f: BuiltinFunction)
    ensures
        f.name@ == name@,
        f.arg_count == arg_count,
{
    BuiltinFunction { name: String::from_str(name), arg_count }
}

/// Whether a value holds no number in any of its parts.
pub open spec fn number_free(v: ValueView) -> bool
    decreases v,
{
    match v {
        ValueView::Number(_) => false,
        ValueView::List { values, .. } => forall|i: int|
            0 <= i < values.len() ==> number_free(#[trigger] values[i]),
        ValueView::Mapping { values } => forall|i: int|
            0 <= i < values.len() ==> number_free((#[trigger] values[i]).1),
        _ => true,
    }
}

/// The first `n` items of a list as text, set apart by a comma and a space.
pub open spec fn rendered_items(items: Seq<ValueView>, n: nat) -> Seq<char>
    decreases items, n,
{
    if n == 0 || n > items.len() {
        Seq::empty()
    } else if n == 1 {
        rendered(items[0])
    } else {
        rendered_items(items, (n - 1) as nat) + ", "@ + rendered(items[n - 1])
    }
}

/// The first `n` entries of a map as text: key, colon, value, set apart by a comma
/// and a space.
pub open spec fn rendered_entries(entries: Seq<(Seq<char>, ValueView)>, n: nat) -> Seq<char>
    decreases entries, n,
{
    if n == 0 || n > entries.len() {
        Seq::empty()
    } else if n == 1 {
        entries[0].0 + ": "@ + rendered(entries[0].1)
    } else {
        rendered_entries(entries, (n - 1) as nat) + ", "@ + entries[n - 1].0 + ": "@ + rendered(
            entries[n - 1].1,
        )
    }
}

/// A value as text, for a value that holds no number: a text is itself; a truth value
/// is `true`, `false` or `maybe`; a list is its items in brackets; a map is its
/// entries in braces; undefined is `undefined`; a function, a runtime function and an
/// object are their name in angle brackets; a keyword is its text.
pub open spec fn rendered(v: ValueView) -> Seq<char>
    decreases v,
{
    match v {
        ValueView::Number(_) => Seq::empty(),
        ValueView::String(s) => s,
        ValueView::Boolean(Some(true)) => "true"@,
        ValueView::Boolean(Some(false)) => "false"@,
        ValueView::Boolean(None) => "maybe"@,
        ValueView::List { values, .. } => "["@ + rendered_items(values, values.len()) + "]"@,
        ValueView::Mapping { values } => "{"@ + rendered_entries(values, values.len()) + "}"@,
        ValueView::Function { name, .. } => "<function "@ + name + ">"@,
        ValueView::BuiltinFunction { name, .. } => "<builtin "@ + name + ">"@,
        ValueView::Object { class_name, .. } => "<object "@ + class_name + ">"@,
        ValueView::Undefined => "undefined"@,
        ValueView::SpecialBlank => Seq::empty(),
        ValueView::Keyword(k) => k,
        ValueView::Promise { .. } => "<promise>"@,
    }
}

/// The first `n` of some texts, set apart by a comma and a space.
pub open spec fn listed(texts: Seq<Seq<char>>, n: nat) -> Seq<char>
    decreases n,
{
    if n == 0 || n > texts.len() {
        Seq::empty()
    } else if n == 1 {
        texts[0]
    } else {
        listed(texts, (n - 1) as nat) + ", "@ + texts[n - 1]
    }
}

/// The first `n` of some texts, each after its key and a colon, set apart by a comma
/// and a space.
pub open spec fn listed_entries(keys: Seq<Seq<char>>, texts: Seq<Seq<char>>, n: nat) -> Seq<char>
    decreases n,
{
    if n == 0 || n > texts.len() || n > keys.len() {
        Seq::empty()
    } else if n == 1 {
        keys[0] + ": "@ + texts[0]
    } else {
        listed_entries(keys, texts, (n - 1) as nat) + ", "@ + keys[n - 1] + ": "@ + texts[n - 1]
    }
}

/// Whether `s` is the number with the bits `bits` as text: a number that `ops`
/// finds within a hundred-millionth of a whole number is that whole number in
/// decimal, without a fractional part; any other is what `ops` shows it as.
pub open spec fn shows<N: Arithmetic>(ops: &N, bits: u64, s: Seq<char>) -> bool {
    exists|near: Option<i64>| #[trigger]
        call_ensures(N::whole_near, (ops, bits), near) && match near {
            Some(n) => s == crate::text::signed_decimal(n as int),
            None => exists|shown: String| #[trigger]
                call_ensures(N::display, (ops, bits), shown) && shown@ == s,
        }
}

/// The number with the bits `bits` as text.
pub fn show_number<N: Arithmetic>(bits: u64, ops: &N) -> (s: String)
    ensures
        shows(ops, bits, s@),
{
    let near = ops.whole_near(bits);
    assert(call_ensures(N::whole_near, (ops, bits), near));
    match near {
        Some(n) => crate::text::signed_text(n),
        None => {
            let shown = ops.display(bits);
            assert(call_ensures(N::display, (ops, bits), shown));
            shown
        },
    }
}

/// Whether `s` is a value as text, with its numbers written by `ops`: a number is
/// what `ops` shows it as; a list is its items as text, in brackets; a map is its
/// entries as text, in braces; anything else is as `rendered` says.
pub open spec fn renders<N: Arithmetic>(ops: &N, v: ValueView, s: Seq<char>) -> bool
    decreases v,
{
    match v {
        ValueView::Number(bits) => shows(ops, bits, s),
        ValueView::List { values, .. } => exists|texts: Seq<Seq<char>>|
            texts.len() == values.len() && (forall|i: int|
                0 <= i < values.len() ==> renders(ops, values[i], #[trigger] texts[i])) && s
                == "["@ + listed(texts, texts.len()) + "]"@,
        ValueView::Mapping { values } => exists|texts: Seq<Seq<char>>|
            texts.len() == values.len() && (forall|i: int|
                0 <= i < values.len() ==> renders(ops, values[i].1, #[trigger] texts[i])) && s
                == "{"@ + listed_entries(
                Seq::new(values.len(), |i: int| values[i].0),
                texts,
                texts.len(),
            ) + "}"@,
        _ => s == rendered(v),
    }
}

fn bracketed(open: &str, name: &str, close: &str) -> (s: String)
    ensures
        s@ == open@ + name@ + close@,
{
    let mut s = String::from_str(open);
    append_text(&mut s, name);
    append_text(&mut s, close);
    s
}

/// A value as text. Numbers are written by `ops`.
#[verifier::loop_isolation(false)]
pub fn db_to_string<'a, N: Arithmetic>(value: &DreamberdValue<'a>, ops: &N) -> (s: DreamberdString)
    ensures
        renders(ops, value_view(*value), s.value@),
        number_free(value_view(*value)) ==> s.value@ == rendered(value_view(*value)),
    decreases value,
{
    match value {
        DreamberdValue::String(s) => DreamberdString::new(s.value.clone()),
        DreamberdValue::Number(n) => DreamberdString::new(show_number(n.bits, ops)),
        DreamberdValue::Boolean(b) => match b.value {
            Some(true) => DreamberdString::new(String::from_str("true")),
            Some(false) => DreamberdString::new(String::from_str("false")),
            None => DreamberdString::new(String::from_str("maybe")),
        },
        DreamberdValue::List(list) => {
            let mut s = String::from_str("[");
            let ghost items = value_views(list.values@);
            let ghost mut texts: Seq<Seq<char>> = Seq::empty();
            let mut i: usize = 0;
            assert(s@ =~= "["@ + rendered_items(items, 0));
            assert(s@ =~= "["@ + listed(texts, 0));
            while i < list.values.len()
                invariant
                    i <= list.values.len(),
                    items == value_views(list.values@),
                    number_free(value_view(*value)) ==> s@ == "["@ + rendered_items(
                        items,
                        i as nat,
                    ),
                    value_view(*value) is List,
                    value_view(*value)->List_values == items,
                    texts.len() == i,
                    forall|j: int| 0 <= j < i ==> renders(ops, items[j], #[trigger] texts[j]),
                    s@ == "["@ + listed(texts, i as nat),
                decreases list.values.len() - i,
            {
                if i > 0 {
                    append_text(&mut s, ", ");
                }
                let item = db_to_string(&list.values[i], ops);
                append_text(&mut s, item.value.as_str());
                proof {
                    let before = texts;
                    texts = texts.push(item.value@);
                    assert forall|j: int| 0 <= j < i + 1 implies renders(
                        ops,
                        items[j],
                        #[trigger] texts[j],
                    ) by {
                        if j < i {
                            assert(texts[j] == before[j]);
                        }
                    }
                    lemma_listed_pushed(before, item.value@);
                    assert(s@ =~= "["@ + listed(texts, (i + 1) as nat));
                    if number_free(value_view(*value)) {
                        assert(number_free(items[i as int]));
                        assert(s@ =~= "["@ + rendered_items(items, (i + 1) as nat));
                    }
                }
                i += 1;
            }
            append_text(&mut s, "]");
            assert(items.len() == list.values@.len());
            assert(s@ == "["@ + listed(texts, texts.len()) + "]"@);
            DreamberdString::new(s)
        },
        DreamberdValue::Mapping(map) => {
            let mut s = String::from_str("{");
            let ghost entries = entry_views(map.values@);
            let ghost keys = Seq::new(entries.len(), |i: int| entries[i].0);
            let ghost mut texts: Seq<Seq<char>> = Seq::empty();
            let mut i: usize = 0;
            assert(s@ =~= "{"@ + rendered_entries(entries, 0));
            assert(s@ =~= "{"@ + listed_entries(keys, texts, 0));
            while i < map.values.len()
                invariant
                    i <= map.values.len(),
                    entries == entry_views(map.values@),
                    keys == Seq::new(entries.len(), |i: int| entries[i].0),
                    number_free(value_view(*value)) ==> s@ == "{"@ + rendered_entries(
                        entries,
                        i as nat,
                    ),
                    value_view(*value) is Mapping,
                    value_view(*value)->Mapping_values == entries,
                    texts.len() == i,
                    forall|j: int| 0 <= j < i ==> renders(ops, entries[j].1, #[trigger] texts[j]),
                    s@ == "{"@ + listed_entries(keys, texts, i as nat),
                decreases map.values.len() - i,
            {
                if i > 0 {
                    append_text(&mut s, ", ");
                }
                append_text(&mut s, map.values[i].0.as_str());
                append_text(&mut s, ": ");
                let item = db_to_string(&map.values[i].1, ops);
                append_text(&mut s, item.value.as_str());
                proof {
                    let before = texts;
                    texts = texts.push(item.value@);
                    assert forall|j: int| 0 <= j < i + 1 implies renders(
                        ops,
                        entries[j].1,
                        #[trigger] texts[j],
                    ) by {
                        if j < i {
                            assert(texts[j] == before[j]);
                        }
                    }
                    lemma_listed_entries_pushed(keys, before, item.value@);
                    assert(keys[i as int] == map.values@[i as int].0@);
                    assert(s@ =~= "{"@ + listed_entries(keys, texts, (i + 1) as nat));
                    if number_free(value_view(*value)) {
                        assert(number_free(entries[i as int].1));
                        assert(s@ =~= "{"@ + rendered_entries(entries, (i + 1) as nat));
                    }
                }
                i += 1;
            }
            append_text(&mut s, "}");
            assert(entries.len() == map.values@.len());
            assert(s@ == "{"@ + listed_entries(keys, texts, texts.len()) + "}"@);
            DreamberdString::new(s)
        },
        DreamberdValue::Function(f) => DreamberdString::new(
            bracketed("<function ", f.name.as_str(), ">"),
        ),
        DreamberdValue::BuiltinFunction(f) => DreamberdString::new(
            bracketed("<builtin ", f.name.as_str(), ">"),
        ),
        DreamberdValue::Object(o) => DreamberdString::new(
            bracketed("<object ", o.class_name.as_str(), ">"),
        ),
        DreamberdValue::Undefined(_) => DreamberdString::new(String::from_str("undefined")),
        DreamberdValue::SpecialBlank(_) => DreamberdString::new(String::new()),
        DreamberdValue::Keyword(k) => DreamberdString::new(k.value.clone()),
        DreamberdValue::Promise(_) => DreamberdString::new(String::from_str("<promise>")),
    }
}

/// The first texts of a sequence do not depend on those behind them.
proof fn lemma_listed_prefix(texts: Seq<Seq<char>>, more: Seq<char>, n: nat)
    requires
        n <= texts.len(),
    ensures
        listed(texts.push(more), n) == listed(texts, n),
    decreases n,
{
    if n > 1 {
        lemma_listed_prefix(texts, more, (n - 1) as nat);
        assert(texts.push(more)[n - 1] == texts[n - 1]);
    } else if n == 1 {
        assert(texts.push(more)[0] == texts[0]);
    }
}

proof fn lemma_listed_pushed(texts: Seq<Seq<char>>, more: Seq<char>)
    ensures
        listed(texts.push(more), texts.len() + 1) == if texts.len() == 0 {
            more
        } else {
            listed(texts, texts.len()) + ", "@ + more
        },
{
    lemma_listed_prefix(texts, more, texts.len());
    assert(texts.push(more)[texts.len() as int] == more);
}

proof fn lemma_listed_entries_prefix(
    keys: Seq<Seq<char>>,
    texts: Seq<Seq<char>>,
    more: Seq<char>,
    n: nat,
)
    requires
        n <= texts.len(),
    ensures
        listed_entries(keys, texts.push(more), n) == listed_entries(keys, texts, n),
    decreases n,
{
    if n > 1 {
        lemma_listed_entries_prefix(keys, texts, more, (n - 1) as nat);
        assert(texts.push(more)[n - 1] == texts[n - 1]);
    } else if n == 1 {
        assert(texts.push(more)[0] == texts[0]);
    }
}

proof fn lemma_listed_entries_pushed(keys: Seq<Seq<char>>, texts: Seq<Seq<char>>, more: Seq<char>)
    requires
        texts.len() < keys.len(),
    ensures
        listed_entries(keys, texts.push(more), texts.len() + 1) == if texts.len() == 0 {
            keys[0] + ": "@ + more
        } else {
            listed_entries(keys, texts, texts.len()) + ", "@ + keys[texts.len() as int] + ": "@
                + more
        },
{
    lemma_listed_entries_prefix(keys, texts, more, texts.len());
    assert(texts.push(more)[texts.len() as int] == more);
}

} // verus!
