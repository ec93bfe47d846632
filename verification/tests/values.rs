use dreamberd::builtin::{
    bool_value, copy_value, create_builtin_function, db_not, db_to_boolean, db_to_number,
    db_to_string, values_equal, BuiltinFunction, DreamberdBoolean, DreamberdKeyword,
    DreamberdList, DreamberdMap, DreamberdObject, DreamberdPromise, DreamberdSpecialBlankValue,
    DreamberdString, DreamberdUndefined, DreamberdValue, ListKey,
};
use dreamberd::number::{
    equal, less, less_equal, not_a_number, zero, Arithmetic, ArithmeticOperator,
    DreamberdNumber, IndexParts, HALF_BITS, ONE_BITS, ZERO_BITS,
};

struct Floats;

impl Arithmetic for Floats {
    fn compute(&self, operator: ArithmeticOperator, left: u64, right: u64) -> u64 {
        let a = f64::from_bits(left);
        let b = f64::from_bits(right);
        let r = match operator {
            ArithmeticOperator::Add => a + b,
            ArithmeticOperator::Subtract => a - b,
            ArithmeticOperator::Multiply => a * b,
            ArithmeticOperator::Divide => a / b,
            ArithmeticOperator::Power => a.powf(b),
        };
        r.to_bits()
    }

    fn square_root(&self, x: u64) -> u64 {
        f64::from_bits(x).sqrt().to_bits()
    }

    fn parse(&self, text: &str) -> Option<u64> {
        text.parse::<f64>().ok().map(|v| v.to_bits())
    }

    fn whole_near(&self, x: u64) -> Option<i64> {
        let v = f64::from_bits(x);
        let nearest = v.round();
        if v.is_finite() && (v - nearest).abs() < 0.00000001 && nearest.abs() < 9.0e18 {
            Some(nearest as i64)
        } else {
            None
        }
    }

    fn display(&self, x: u64) -> String {
        format!("{}", f64::from_bits(x))
    }

    fn literal(&self, x: u64) -> String {
        f64::from_bits(x).to_string()
    }

    fn from_count(&self, n: usize) -> u64 {
        (n as f64).to_bits()
    }

    fn index_parts(&self, x: u64) -> IndexParts {
        let v = f64::from_bits(x);
        IndexParts { is_whole: v.fract() == 0.0, truncated: v as i64, floor: v.floor() as i64 }
    }
}

fn number<'a>(v: f64) -> DreamberdValue<'a> {
    DreamberdValue::Number(DreamberdNumber::new(v.to_bits()))
}

fn text<'a>(s: &str) -> DreamberdValue<'a> {
    DreamberdValue::String(DreamberdString::new(s.to_string()))
}

fn list<'a>(items: Vec<DreamberdValue<'a>>) -> DreamberdValue<'a> {
    DreamberdValue::List(DreamberdList::new(items))
}

#[test]
fn bits_of_the_constants() {
    assert_eq!(ZERO_BITS, 0.0f64.to_bits());
    assert_eq!(HALF_BITS, 0.5f64.to_bits());
    assert_eq!(ONE_BITS, 1.0f64.to_bits());
}

#[test]
fn numbers_compare_as_their_values_do() {
    let samples = [
        0.0f64,
        -0.0,
        1.0,
        -1.0,
        0.5,
        -0.5,
        1e300,
        -1e300,
        5e-324,
        -5e-324,
        f64::INFINITY,
        f64::NEG_INFINITY,
        f64::NAN,
        3.0,
        10.0,
    ];
    for a in samples {
        assert_eq!(zero(a.to_bits()), a == 0.0);
        assert_eq!(not_a_number(a.to_bits()), a.is_nan());
        for b in samples {
            assert_eq!(equal(a.to_bits(), b.to_bits()), a == b, "{} == {}", a, b);
            assert_eq!(less(a.to_bits(), b.to_bits()), a < b, "{} < {}", a, b);
            assert_eq!(less_equal(a.to_bits(), b.to_bits()), a <= b, "{} <= {}", a, b);
        }
    }
}

#[test]
fn truth_of_values() {
    assert_eq!(db_to_boolean(&number(0.0)).value, Some(false));
    assert_eq!(db_to_boolean(&number(-0.0)).value, Some(false));
    assert_eq!(db_to_boolean(&number(2.0)).value, Some(true));
    assert_eq!(db_to_boolean(&text("")).value, Some(false));
    assert_eq!(db_to_boolean(&text("a")).value, Some(true));
    assert_eq!(db_to_boolean(&list(vec![])).value, Some(false));
    assert_eq!(db_to_boolean(&list(vec![number(0.0)])).value, Some(true));
    assert_eq!(db_to_boolean(&DreamberdValue::Undefined(DreamberdUndefined)).value, Some(false));
    assert_eq!(db_to_boolean(&bool_value(true)).value, Some(true));
    assert_eq!(
        db_to_boolean(&DreamberdValue::Boolean(DreamberdBoolean::maybe())).value,
        None
    );
    assert_eq!(db_to_boolean(&DreamberdValue::Mapping(DreamberdMap::new())).value, None);
    assert_eq!(
        db_to_boolean(&DreamberdValue::SpecialBlank(DreamberdSpecialBlankValue)).value,
        None
    );
}

#[test]
fn not_of_truth_values() {
    assert_eq!(db_not(&DreamberdBoolean::true_val()), DreamberdBoolean::false_val());
    assert_eq!(db_not(&DreamberdBoolean::false_val()), DreamberdBoolean::true_val());
    assert_eq!(db_not(&DreamberdBoolean::maybe()), DreamberdBoolean::maybe());
    assert_eq!(DreamberdBoolean::new(Some(true)), DreamberdBoolean::true_val());
}

#[test]
fn numbers_of_values() {
    assert_eq!(db_to_number(&number(2.5), &Floats).bits, 2.5f64.to_bits());
    assert_eq!(db_to_number(&bool_value(true), &Floats).bits, 1.0f64.to_bits());
    assert_eq!(db_to_number(&bool_value(false), &Floats).bits, 0.0f64.to_bits());
    assert_eq!(
        db_to_number(&DreamberdValue::Boolean(DreamberdBoolean::maybe()), &Floats).bits,
        0.5f64.to_bits()
    );
    assert_eq!(db_to_number(&text("12.5"), &Floats).bits, 12.5f64.to_bits());
    assert_eq!(db_to_number(&text("twelve"), &Floats).bits, 0.0f64.to_bits());
    assert_eq!(db_to_number(&list(vec![]), &Floats).bits, 0.0f64.to_bits());
}

#[test]
fn texts_of_values() {
    assert_eq!(db_to_string(&number(5.0), &Floats).value, "5");
    assert_eq!(db_to_string(&number(0.1 + 0.2 + 0.7), &Floats).value, "1");
    assert_eq!(db_to_string(&number(2.5), &Floats).value, "2.5");
    assert_eq!(db_to_string(&text("hi"), &Floats).value, "hi");
    assert_eq!(db_to_string(&bool_value(true), &Floats).value, "true");
    assert_eq!(db_to_string(&bool_value(false), &Floats).value, "false");
    assert_eq!(
        db_to_string(&DreamberdValue::Boolean(DreamberdBoolean::maybe()), &Floats).value,
        "maybe"
    );
    assert_eq!(
        db_to_string(&list(vec![number(1.0), text("a"), list(vec![bool_value(true)])]), &Floats)
            .value,
        "[1, a, [true]]"
    );
    assert_eq!(db_to_string(&list(vec![]), &Floats).value, "[]");
    assert_eq!(db_to_string(&DreamberdValue::Undefined(DreamberdUndefined), &Floats).value, "undefined");
    let mut map = DreamberdMap::new();
    map.insert("a".to_string(), text("x"));
    map.insert("b".to_string(), bool_value(false));
    map.insert("a".to_string(), text("y"));
    assert_eq!(db_to_string(&DreamberdValue::Mapping(map), &Floats).value, "{a: y, b: false}");
    assert_eq!(
        db_to_string(
            &DreamberdValue::BuiltinFunction(create_builtin_function("print", -1)),
            &Floats
        )
        .value,
        "<builtin print>"
    );
    assert_eq!(
        db_to_string(
            &DreamberdValue::Keyword(DreamberdKeyword { value: "const".to_string() }),
            &Floats
        )
        .value,
        "const"
    );
}

#[test]
fn names_of_kinds() {
    assert_eq!(number(1.0).kind_name(), "Number");
    assert_eq!(text("a").kind_name(), "String");
    assert_eq!(bool_value(true).kind_name(), "Boolean");
    assert_eq!(list(vec![]).kind_name(), "List");
    assert_eq!(DreamberdValue::Mapping(DreamberdMap::new()).kind_name(), "Map");
    assert_eq!(DreamberdValue::Undefined(DreamberdUndefined).kind_name(), "Undefined");
    assert_eq!(
        DreamberdValue::Promise(DreamberdPromise { resolved: false, value: None }).kind_name(),
        "Promise"
    );
}

#[test]
fn values_of_different_kinds_are_never_equal() {
    assert!(!values_equal(&number(1.0), &text("1")));
    assert!(!values_equal(&bool_value(true), &number(1.0)));
    assert!(!values_equal(&list(vec![]), &text("")));
    assert!(!values_equal(
        &DreamberdValue::Undefined(DreamberdUndefined),
        &DreamberdValue::SpecialBlank(DreamberdSpecialBlankValue)
    ));
}

#[test]
fn values_of_one_kind_are_equal_when_their_parts_are() {
    assert!(values_equal(&number(1.0), &number(1.0)));
    assert!(values_equal(&number(0.0), &number(-0.0)));
    assert!(!values_equal(&number(f64::NAN), &number(f64::NAN)));
    assert!(!values_equal(&number(1.0), &number(2.0)));
    assert!(values_equal(&text("a"), &text("a")));
    assert!(!values_equal(&text("a"), &text("b")));
    assert!(values_equal(
        &list(vec![number(1.0), list(vec![text("x")])]),
        &list(vec![number(1.0), list(vec![text("x")])])
    ));
    assert!(!values_equal(&list(vec![number(1.0)]), &list(vec![number(1.0), number(2.0)])));
    assert!(!values_equal(&list(vec![number(1.0)]), &list(vec![number(3.0)])));
    let object = |hp: f64| {
        DreamberdValue::Object(DreamberdObject {
            class_name: "Player".to_string(),
            namespace: vec![("hp".to_string(), number(hp))],
        })
    };
    assert!(values_equal(&object(1.0), &object(1.0)));
    assert!(!values_equal(&object(1.0), &object(2.0)));
    let builtin = |name: &str, count: i32| {
        DreamberdValue::BuiltinFunction(BuiltinFunction { name: name.to_string(), arg_count: count })
    };
    assert!(values_equal(&builtin("len", 1), &builtin("len", 1)));
    assert!(!values_equal(&builtin("len", 1), &builtin("len", 2)));
    let promise = |inner: Option<f64>| {
        DreamberdValue::Promise(DreamberdPromise {
            resolved: inner.is_some(),
            value: inner.map(|v| Box::new(number(v))),
        })
    };
    assert!(values_equal(&promise(Some(1.0)), &promise(Some(1.0))));
    assert!(!values_equal(&promise(Some(1.0)), &promise(None)));
}

#[test]
fn a_copy_is_equal_to_its_original() {
    let original = list(vec![number(1.0), text("a"), list(vec![bool_value(true)])]);
    let copy = copy_value(&original);
    assert_eq!(copy, original);
    assert_eq!(original.clone(), original);
}

#[test]
fn a_fresh_list_is_indexed_from_minus_one() {
    let l = DreamberdList::new(vec![text("a"), text("b"), text("c")]);
    assert_eq!(
        l.indexer,
        vec![(ListKey::Whole(-1), 0), (ListKey::Whole(0), 1), (ListKey::Whole(1), 2)]
    );
    assert_eq!(l.get(ListKey::Whole(-1)), Some(&text("a")));
    assert_eq!(l.get(ListKey::Whole(1)), Some(&text("c")));
    assert_eq!(l.get(ListKey::Whole(2)), None);
    assert_eq!(l.get(ListKey::Fraction(0.5f64.to_bits())), None);
}

#[test]
fn inserting_under_an_index_in_use_replaces_the_item() {
    let mut l = DreamberdList::new(vec![text("a"), text("b")]);
    l.insert_at(ListKey::Whole(0), 0, text("z"));
    assert_eq!(l.values, vec![text("a"), text("z")]);
    assert_eq!(l.indexer, vec![(ListKey::Whole(-1), 0), (ListKey::Whole(0), 1)]);
}

#[test]
fn inserting_under_a_fractional_index_moves_the_later_items_up() {
    let mut l = DreamberdList::new(vec![text("a"), text("b"), text("c")]);
    let half = ListKey::Fraction(0.5f64.to_bits());
    l.insert_at(half, 0, text("x"));
    assert_eq!(l.values, vec![text("a"), text("b"), text("x"), text("c")]);
    assert_eq!(
        l.indexer,
        vec![(ListKey::Whole(-1), 0), (ListKey::Whole(0), 1), (ListKey::Whole(1), 3), (half, 2)]
    );
    assert_eq!(l.get(half), Some(&text("x")));
    assert_eq!(l.get(ListKey::Whole(1)), Some(&text("c")));
    let far = ListKey::Fraction(7.5f64.to_bits());
    l.insert_at(far, 7, text("y"));
    assert_eq!(l.values.len(), 5);
    assert_eq!(l.get(far), Some(&text("y")));
}

#[test]
fn inserting_under_a_new_whole_index_appends() {
    let mut l = DreamberdList::new(vec![text("a")]);
    l.insert_at(ListKey::Whole(5), 5, text("b"));
    assert_eq!(l.values, vec![text("a"), text("b")]);
    assert_eq!(l.get(ListKey::Whole(5)), Some(&text("b")));
    assert_eq!(l.get(ListKey::Whole(0)), None);
}

#[test]
fn characters_of_a_text_are_numbered_from_minus_one() {
    let s = DreamberdString::new("héllo".to_string());
    assert_eq!(s.position_of(-1), Some(0));
    assert_eq!(s.position_of(3), Some(4));
    assert_eq!(s.position_of(4), None);
    assert_eq!(s.position_of(-2), None);
    assert_eq!(s.position_of(i64::MAX), None);
    assert_eq!(s.char_at(0), Some('é'));
    assert_eq!(s.char_at(9), None);
}

#[test]
fn a_map_keeps_the_order_of_its_keys() {
    let mut map = DreamberdMap::new();
    map.insert("b".to_string(), text("1"));
    map.insert("a".to_string(), text("2"));
    map.insert("b".to_string(), text("3"));
    assert_eq!(map.values.len(), 2);
    assert_eq!(map.get("b"), Some(&text("3")));
    assert_eq!(map.get("a"), Some(&text("2")));
    assert_eq!(map.get("c"), None);
    assert_eq!(map.values[0].0, "b");
}

#[test]
fn number_near_a_whole_number_is_shown_as_that_number() {
    assert_eq!(db_to_string(&number(2.999999999), &Floats).value, "3");
    assert_eq!(db_to_string(&number(-2.999999999), &Floats).value, "-3");
    assert_eq!(db_to_string(&number(3.000000001), &Floats).value, "3");
    assert_eq!(db_to_string(&number(-7.0), &Floats).value, "-7");
    assert_eq!(db_to_string(&number(2.9), &Floats).value, "2.9");
}

#[test]
fn text_has_an_index_map_from_minus_one() {
    let text = DreamberdString::new("abc".to_string());
    assert_eq!(text.indexer(), vec![(-1, 0), (0, 1), (1, 2)]);
    for (index, place) in text.indexer() {
        assert_eq!(text.position_of(index), Some(place));
    }
    assert_eq!(DreamberdString::new(String::new()).indexer(), vec![]);
}
