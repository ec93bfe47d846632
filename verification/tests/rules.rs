use dreamberd::base::OperatorType;
use dreamberd::builtin::{
    bool_value, DreamberdBoolean, DreamberdList, DreamberdString, DreamberdUndefined,
    DreamberdValue, ListKey,
};
use dreamberd::interpreter::{
    collect_variables_from_expression, extract_variable_dependencies, initialize_builtins,
    print_line, serialize_value_to_code, serialize_value_to_expression, sets_off_when,
};
use dreamberd::number::{Arithmetic, ArithmeticOperator, DreamberdNumber, IndexParts};
use dreamberd::processor::expression_tree::build_expression_tree;
use dreamberd::processor::tokenize;
use dreamberd::rules::{
    apply_binary, element_at, element_given, has_modifier, is_global_declaration, list_key,
    parse_natural, read_lifetime,
};

struct Floats;

impl Arithmetic for Floats {
    fn compute(&self, operator: ArithmeticOperator, left: u64, right: u64) -> u64 {
        let a = f64::from_bits(left);
        let b = f64::from_bits(right);
        let r = match operator {
            ArithmeticOperator::Add => a + b,
            ArithmeticOperator::Subtract => a - b,
            ArithmeticOperator::Multiply => a * b,
            ArithmeticOperator::Divide => a / b,
            ArithmeticOperator::Power => a.powf(b),
        };
        r.to_bits()
    }

    fn square_root(&self, x: u64) -> u64 {
        f64::from_bits(x).sqrt().to_bits()
    }

    fn parse(&self, text: &str) -> Option<u64> {
        text.parse::<f64>().ok().map(|v| v.to_bits())
    }

    fn whole_near(&self, x: u64) -> Option<i64> {
        let v = f64::from_bits(x);
        let nearest = v.round();
        if v.is_finite() && (v - nearest).abs() < 0.00000001 && nearest.abs() < 9.0e18 {
            Some(nearest as i64)
        } else {
            None
        }
    }

    fn display(&self, x: u64) -> String {
        format!("{}", f64::from_bits(x))
    }

    fn literal(&self, x: u64) -> String {
        f64::from_bits(x).to_string()
    }

    fn from_count(&self, n: usize) -> u64 {
        (n as f64).to_bits()
    }

    fn index_parts(&self, x: u64) -> IndexParts {
        let v = f64::from_bits(x);
        IndexParts { is_whole: v.fract() == 0.0, truncated: v as i64, floor: v.floor() as i64 }
    }
}

fn number<'a>(v: f64) -> DreamberdValue<'a> {
    DreamberdValue::Number(DreamberdNumber::new(v.to_bits()))
}

fn text<'a>(s: &str) -> DreamberdValue<'a> {
    DreamberdValue::String(DreamberdString::new(s.to_string()))
}

fn maybe<'a>() -> DreamberdValue<'a> {
    DreamberdValue::Boolean(DreamberdBoolean::maybe())
}

fn undefined<'a>() -> DreamberdValue<'a> {
    DreamberdValue::Undefined(DreamberdUndefined)
}

#[test]
fn whole_numbers_are_read() {
    assert_eq!(parse_natural("0"), Some(0));
    assert_eq!(parse_natural("007"), Some(7));
    assert_eq!(parse_natural("+12"), Some(12));
    assert_eq!(parse_natural("18446744073709551615"), Some(u64::MAX));
    assert_eq!(parse_natural("18446744073709551616"), None);
    assert_eq!(parse_natural("99999999999999999999999"), None);
    assert_eq!(parse_natural(""), None);
    assert_eq!(parse_natural("+"), None);
    assert_eq!(parse_natural("-1"), None);
    assert_eq!(parse_natural("1.5"), None);
    assert_eq!(parse_natural("12a"), None);
    assert_eq!(parse_natural(" 1"), None);
}

#[test]
fn lifetimes_are_read() {
    assert_eq!(read_lifetime(&None), (u64::MAX, false));
    assert_eq!(read_lifetime(&Some("Infinity".to_string())), (u64::MAX, false));
    assert_eq!(read_lifetime(&Some("5".to_string())), (5, false));
    assert_eq!(read_lifetime(&Some("0".to_string())), (0, false));
    assert_eq!(read_lifetime(&Some("20s".to_string())), (20, true));
    assert_eq!(read_lifetime(&Some("20ss".to_string())), (20, true));
    assert_eq!(read_lifetime(&Some("s".to_string())), (u64::MAX, true));
    assert_eq!(read_lifetime(&Some("soon".to_string())), (u64::MAX, false));
    assert_eq!(read_lifetime(&Some("-3".to_string())), (u64::MAX, false));
    assert_eq!(read_lifetime(&Some(String::new())), (u64::MAX, false));
}

#[test]
fn modifiers_are_read() {
    let words = |list: &[&str]| list.iter().map(|w| w.to_string()).collect::<Vec<String>>();
    assert!(has_modifier(&words(&["const", "var"]), "var"));
    assert!(!has_modifier(&words(&["const", "const"]), "var"));
    assert!(!has_modifier(&words(&[]), "var"));
    assert!(is_global_declaration(&words(&["const", "const", "const"])));
    assert!(is_global_declaration(&words(&["const", "const", "const", "const"])));
    assert!(!is_global_declaration(&words(&["const", "const"])));
    assert!(!is_global_declaration(&words(&["const", "var", "const"])));
}

#[test]
fn operators_on_values() {
    let apply = |op, l: &DreamberdValue<'static>, r: &DreamberdValue<'static>| apply_binary(op, l, r, &Floats);
    assert_eq!(apply(OperatorType::Add, &number(2.0), &number(3.0)), number(5.0));
    assert_eq!(apply(OperatorType::Sub, &number(2.0), &number(3.0)), number(-1.0));
    assert_eq!(apply(OperatorType::Mul, &number(2.0), &number(3.0)), number(6.0));
    assert_eq!(apply(OperatorType::Div, &number(3.0), &number(2.0)), number(1.5));
    assert_eq!(apply(OperatorType::Exp, &number(2.0), &number(10.0)), number(1024.0));
    assert_eq!(apply(OperatorType::Div, &number(3.0), &number(0.0)), undefined());
    assert_eq!(apply(OperatorType::Div, &number(3.0), &number(-0.0)), undefined());
    assert_eq!(apply(OperatorType::Add, &text("a"), &text("b")), text("ab"));
    assert_eq!(apply(OperatorType::Add, &text("a"), &number(1.0)), undefined());
    assert_eq!(apply(OperatorType::Sub, &text("a"), &text("b")), undefined());
    assert_eq!(apply(OperatorType::Mul, &bool_value(true), &number(1.0)), undefined());
    assert_eq!(apply(OperatorType::Com, &number(1.0), &number(1.0)), undefined());
    assert_eq!(apply(OperatorType::Lt, &number(1.0), &number(2.0)), bool_value(true));
    assert_eq!(apply(OperatorType::Le, &number(2.0), &number(2.0)), bool_value(true));
    assert_eq!(apply(OperatorType::Gt, &number(1.0), &number(2.0)), bool_value(false));
    assert_eq!(apply(OperatorType::Ge, &number(1.0), &number(2.0)), bool_value(false));
    assert_eq!(apply(OperatorType::Gt, &number(10.0), &number(5.0)), bool_value(true));
    assert_eq!(apply(OperatorType::Lt, &text("a"), &text("b")), maybe());
    assert_eq!(apply(OperatorType::Ge, &number(1.0), &text("b")), maybe());
    for op in [OperatorType::E, OperatorType::Ee, OperatorType::Eee, OperatorType::Eeee] {
        assert_eq!(apply(op, &text("a"), &text("a")), bool_value(true));
        assert_eq!(apply(op, &text("a"), &number(1.0)), bool_value(false));
    }
    for op in [OperatorType::Ne, OperatorType::Nee, OperatorType::Neee] {
        assert_eq!(apply(op, &text("a"), &text("a")), bool_value(false));
        assert_eq!(apply(op, &text("a"), &number(1.0)), bool_value(true));
    }
    assert_eq!(apply(OperatorType::And, &bool_value(true), &number(1.0)), bool_value(true));
    assert_eq!(apply(OperatorType::And, &bool_value(true), &text("")), bool_value(false));
    assert_eq!(apply(OperatorType::And, &bool_value(false), &maybe()), maybe());
    assert_eq!(apply(OperatorType::Or, &bool_value(false), &number(0.0)), bool_value(false));
    assert_eq!(apply(OperatorType::Or, &bool_value(false), &text("x")), bool_value(true));
    assert_eq!(apply(OperatorType::Or, &bool_value(true), &maybe()), maybe());
}

#[test]
fn indexing_reads_lists_and_texts() {
    let list = DreamberdValue::List(DreamberdList::new(vec![text("a"), text("b")]));
    assert_eq!(element_at(&list, &number(-1.0), &Floats), text("a"));
    assert_eq!(element_at(&list, &number(0.0), &Floats), text("b"));
    assert_eq!(element_at(&list, &number(1.0), &Floats), undefined());
    assert_eq!(element_at(&list, &number(0.5), &Floats), undefined());
    assert_eq!(element_at(&list, &text("0"), &Floats), undefined());
    assert_eq!(element_at(&text("xyz"), &number(-1.0), &Floats), text("x"));
    assert_eq!(element_at(&text("xyz"), &number(1.9), &Floats), text("z"));
    assert_eq!(element_at(&text("xyz"), &number(2.0), &Floats), undefined());
    assert_eq!(element_at(&text("xyz"), &number(-2.0), &Floats), undefined());
    assert_eq!(element_at(&text("xyz"), &number(1e30), &Floats), undefined());
    assert_eq!(element_at(&number(5.0), &number(0.0), &Floats), undefined());
    let parts = IndexParts { is_whole: true, truncated: 0, floor: 0 };
    assert_eq!(element_given(&list, &number(0.0), parts), text("b"));
    assert_eq!(list_key(parts, 0), ListKey::Whole(0));
    let between = IndexParts { is_whole: false, truncated: 0, floor: 0 };
    assert_eq!(list_key(between, 77), ListKey::Fraction(77));
}

#[test]
fn dependencies_are_the_names_of_an_expression() {
    let code = "f(a, b[c]) + [d, a] > (;e) & \"s\" | new A(z)";
    let tokens = tokenize("test", code)
        .unwrap()
        .into_iter()
        .filter(|t| t.token_type != dreamberd::base::TokenType::Whitespace)
        .collect();
    let tree = build_expression_tree("test", tokens, code).unwrap();
    let mut all = Vec::new();
    collect_variables_from_expression(&tree, &mut all);
    assert_eq!(all, vec!["a", "b", "c", "d", "a", "e"]);
    assert_eq!(extract_variable_dependencies(&tree), vec!["a", "b", "c", "d", "e"]);
}

#[test]
fn values_are_written_as_source_text() {
    let write = |v: &DreamberdValue<'static>| serialize_value_to_expression(v, 0, &Floats);
    assert_eq!(write(&number(2.5)), "2.5");
    assert_eq!(write(&number(3.0)), "3");
    assert_eq!(write(&text("say \"hi\"")), "\"say \\\"hi\\\"\"");
    assert_eq!(write(&bool_value(true)), "true");
    assert_eq!(write(&bool_value(false)), "false");
    assert_eq!(write(&maybe()), "maybe");
    assert_eq!(write(&undefined()), "undefined");
    assert_eq!(
        write(&DreamberdValue::List(DreamberdList::new(vec![text("a"), bool_value(true)]))),
        "[\"a\", true]"
    );
    assert_eq!(serialize_value_to_expression(&text("deep"), 11, &Floats), "undefined");
    assert_eq!(serialize_value_to_expression(&text("deep"), 10, &Floats), "\"deep\"");
    assert_eq!(serialize_value_to_code("x", &maybe(), &Floats), "const x = maybe!");
    let mut nested = text("core");
    for _ in 0..12 {
        nested = DreamberdValue::List(DreamberdList::new(vec![nested]));
    }
    assert_eq!(write(&nested), "[[[[[[[[[[[undefined]]]]]]]]]]]");
}

#[test]
fn a_when_is_set_off_by_all_but_false() {
    assert!(sets_off_when(&bool_value(true)));
    assert!(sets_off_when(&maybe()));
    assert!(sets_off_when(&number(2.0)));
    assert!(!sets_off_when(&bool_value(false)));
    assert!(!sets_off_when(&number(0.0)));
    assert!(!sets_off_when(&undefined()));
    assert!(!sets_off_when(&text("")));
}

#[test]
fn print_sets_values_apart_by_spaces() {
    assert_eq!(print_line(&vec![], &Floats), "");
    assert_eq!(print_line(&vec![text("a")], &Floats), "a");
    assert_eq!(print_line(&vec![text("a"), bool_value(true), maybe()], &Floats), "a true maybe");
}

#[test]
fn the_runtime_brings_these_names() {
    let globals = initialize_builtins();
    let names: Vec<&str> = globals.entries.iter().map(|(name, _)| name.as_str()).collect();
    assert_eq!(
        names,
        vec![
            "print", "sqrt", "len", "alias", "unalias", "list_aliases", "trigger", "true",
            "false", "maybe"
        ]
    );
}
