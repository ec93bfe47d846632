use dreamberd::binding::{Name, Namespace, NamespaceEntry, Variable, VariableLifetime};
use dreamberd::builtin::{DreamberdList, DreamberdString, DreamberdUndefined, DreamberdValue, ListKey};
use dreamberd::number::DreamberdNumber;
use dreamberd::scope::{
    assign, collapse, declare, delete, insert_into_list, lookup, previous, reassign,
    replace_list_item, reverse, sweep_all, value_of_variable, ItemAssignment, Reassignment,
};

fn number<'a>(v: f64) -> DreamberdValue<'a> {
    DreamberdValue::Number(DreamberdNumber::new(v.to_bits()))
}

fn text<'a>(s: &str) -> DreamberdValue<'a> {
    DreamberdValue::String(DreamberdString::new(s.to_string()))
}

fn variable<'a>(name: &str, value: DreamberdValue<'a>, changeable: bool) -> NamespaceEntry<'a> {
    NamespaceEntry::Variable(Variable::new(
        name.to_string(),
        VariableLifetime::new(value, u64::MAX, 100, changeable, changeable),
    ))
}

fn lined<'a>(name: &str, value: DreamberdValue<'a>, line: u64, duration: u64) -> NamespaceEntry<'a> {
    NamespaceEntry::Variable(Variable::new(
        name.to_string(),
        VariableLifetime::new_with_tracking(value, duration, 100, true, true, line, false, 0),
    ))
}

fn timed<'a>(name: &str, value: DreamberdValue<'a>, second: u64, duration: u64) -> NamespaceEntry<'a> {
    NamespaceEntry::Variable(Variable::new(
        name.to_string(),
        VariableLifetime::new_with_tracking(value, duration, 100, true, true, 0, true, second),
    ))
}

#[test]
fn lifetime_counted_in_lines_ends_at_its_line() {
    let lifetime = VariableLifetime::new_with_tracking(number(1.0), 3, 100, true, true, 10, false, 0);
    assert!(!lifetime.is_expired(10, 0));
    assert!(!lifetime.is_expired(12, 1000000));
    assert!(lifetime.is_expired(13, 0));
    assert!(lifetime.is_expired(14, 0));
    let zero = VariableLifetime::new_with_tracking(number(1.0), 0, 100, true, true, 10, false, 0);
    assert!(zero.is_expired(10, 0));
    assert!(!zero.is_expired(9, 0));
    let endless = VariableLifetime::new_with_tracking(number(1.0), u64::MAX, 100, true, true, 10, false, 0);
    assert!(!endless.is_expired(u64::MAX, 0));
}

#[test]
fn lifetime_counted_in_seconds_ends_when_the_time_has_passed() {
    let lifetime = VariableLifetime::new_with_tracking(number(1.0), 5, 100, true, true, 0, true, 100);
    assert!(!lifetime.is_expired(0, 100));
    assert!(!lifetime.is_expired(1000000, 104));
    assert!(lifetime.is_expired(0, 105));
    assert!(lifetime.is_expired(0, 1000));
    assert!(!lifetime.is_expired(0, 50));
    let plain = VariableLifetime::new(number(1.0), 5, 80, false, true);
    assert_eq!(plain.created_line, 0);
    assert_eq!(plain.confidence, 80);
    assert!(!plain.is_time_based);
    assert!(!plain.can_be_reset);
    assert!(plain.can_edit_value);
}

#[test]
fn sweep_keeps_a_variable_until_its_last_line() {
    let mut namespaces = vec![Namespace::new()];
    declare(&mut namespaces, "x".to_string(), lined("x", number(1.0), 4, 3));
    declare(&mut namespaces, "arg".to_string(), NamespaceEntry::Name(Name::new("arg".to_string(), number(2.0))));
    sweep_all(&mut namespaces, 6, 0);
    assert_eq!(lookup(&namespaces, "x"), Some(number(1.0)));
    sweep_all(&mut namespaces, 7, 0);
    assert_eq!(lookup(&namespaces, "x"), None);
    assert_eq!(lookup(&namespaces, "arg"), Some(number(2.0)));
}

#[test]
fn sweep_removes_a_timed_variable_at_the_first_sweep_after_its_time() {
    let mut namespaces = vec![Namespace::new(), Namespace::new()];
    declare(&mut namespaces, "t".to_string(), timed("t", number(1.0), 10, 5));
    sweep_all(&mut namespaces, 999, 10);
    assert_eq!(lookup(&namespaces, "t"), Some(number(1.0)));
    sweep_all(&mut namespaces, 0, 14);
    assert_eq!(lookup(&namespaces, "t"), Some(number(1.0)));
    sweep_all(&mut namespaces, 0, 15);
    assert_eq!(lookup(&namespaces, "t"), None);
    assert_eq!(namespaces.len(), 2);
}

#[test]
fn variable_keeps_a_history_of_its_values() {
    let mut v = Variable::new("x".to_string(), VariableLifetime::new(number(1.0), 10, 100, true, true));
    assert_eq!(v.value(), Some(&number(1.0)));
    assert_eq!(v.get_previous(0), None);
    v.set_value(number(2.0));
    v.set_value(number(3.0));
    assert_eq!(v.get_current(), Some(&number(3.0)));
    assert_eq!(v.get_previous(0), Some(&number(2.0)));
    assert_eq!(v.get_previous(1), Some(&number(1.0)));
    assert_eq!(v.get_previous(2), None);
    v.revert();
    assert_eq!(v.value(), Some(&number(2.0)));
    assert_eq!(v.prev_values, vec![number(1.0)]);
    let mut fixed = Variable::new("c".to_string(), VariableLifetime::new(number(1.0), 10, 100, true, false));
    fixed.set_value(number(2.0));
    assert_eq!(fixed.value(), Some(&number(1.0)));
    assert!(fixed.prev_values.is_empty());
}

#[test]
fn lookup_walks_from_the_innermost_namespace_outward() {
    let mut namespaces = vec![Namespace::new(), Namespace::new()];
    namespaces[0].insert("x".to_string(), variable("x", text("outer"), true));
    namespaces[0].insert("y".to_string(), variable("y", text("only"), true));
    namespaces[1].insert("x".to_string(), NamespaceEntry::Name(Name::new("x".to_string(), text("inner"))));
    assert_eq!(lookup(&namespaces, "x"), Some(text("inner")));
    assert_eq!(lookup(&namespaces, "y"), Some(text("only")));
    assert_eq!(lookup(&namespaces, "z"), None);
    assert_eq!(value_of_variable(&namespaces, "x"), Some(text("outer")));
    assert_eq!(value_of_variable(&namespaces, "z"), None);
    let empty = NamespaceEntry::Variable(Variable { name: "e".to_string(), lifetimes: vec![], prev_values: vec![] });
    namespaces[1].insert("e".to_string(), empty);
    assert_eq!(lookup(&namespaces, "e"), Some(DreamberdValue::Undefined(DreamberdUndefined)));
}

#[test]
fn namespace_binds_replaces_and_removes() {
    let mut ns = Namespace::new();
    assert_eq!(ns.len(), 0);
    ns.insert("a".to_string(), variable("a", number(1.0), true));
    ns.insert("b".to_string(), variable("b", number(2.0), true));
    ns.insert("a".to_string(), variable("a", number(3.0), true));
    assert_eq!(ns.len(), 2);
    assert!(ns.contains_key("a"));
    assert!(!ns.contains_key("c"));
    assert_eq!(ns.position("b"), 1);
    assert_eq!(ns.position("c"), 2);
    assert_eq!(ns.get("a"), Some(&variable("a", number(3.0), true)));
    assert_eq!(ns.remove("a"), Some(variable("a", number(3.0), true)));
    assert_eq!(ns.remove("a"), None);
    assert_eq!(ns.len(), 1);
}

#[test]
fn assignment_goes_to_the_innermost_variable_or_makes_one() {
    let mut namespaces = vec![Namespace::new(), Namespace::new()];
    namespaces[0].insert("x".to_string(), variable("x", number(1.0), true));
    namespaces[1].insert("x".to_string(), NamespaceEntry::Name(Name::new("x".to_string(), number(5.0))));
    assert!(assign(&mut namespaces, "x", number(2.0)));
    assert_eq!(value_of_variable(&namespaces, "x"), Some(number(2.0)));
    assert_eq!(previous(&namespaces, "x"), number(1.0));
    assert_eq!(lookup(&namespaces, "x"), Some(number(5.0)));
    assert!(!assign(&mut namespaces, "fresh", number(7.0)));
    assert_eq!(namespaces[1].get("fresh"), Some(&variable("fresh", number(7.0), true)));
    assert_eq!(previous(&namespaces, "fresh"), DreamberdValue::Undefined(DreamberdUndefined));
    assert_eq!(previous(&namespaces, "nothing"), DreamberdValue::Undefined(DreamberdUndefined));
}

#[test]
fn reassignment_by_statement_respects_constants() {
    let mut namespaces = vec![Namespace::new(), Namespace::new()];
    namespaces[0].insert("c".to_string(), variable("c", number(1.0), false));
    namespaces[0].insert("v".to_string(), variable("v", number(1.0), true));
    namespaces[1].insert("n".to_string(), NamespaceEntry::Name(Name::new("n".to_string(), number(1.0))));
    assert_eq!(reassign(&mut namespaces, "c", number(2.0)), Reassignment::Constant);
    assert_eq!(lookup(&namespaces, "c"), Some(number(1.0)));
    assert_eq!(reassign(&mut namespaces, "v", number(2.0)), Reassignment::Done);
    assert_eq!(lookup(&namespaces, "v"), Some(number(2.0)));
    assert_eq!(reassign(&mut namespaces, "n", number(2.0)), Reassignment::Done);
    assert_eq!(lookup(&namespaces, "n"), Some(number(2.0)));
    assert_eq!(reassign(&mut namespaces, "zz", number(2.0)), Reassignment::Missing);
}

#[test]
fn reverse_undoes_one_change_and_then_nothing() {
    let mut namespaces = vec![Namespace::new()];
    namespaces[0].insert("a".to_string(), variable("a", number(1.0), true));
    namespaces[0].insert("x".to_string(), variable("x", number(1.0), true));
    let before = vec![Namespace {
        entries: vec![
            ("a".to_string(), variable("a", number(1.0), true)),
            ("x".to_string(), variable("x", number(1.0), true)),
        ],
    }];
    assign(&mut namespaces, "x", number(2.0));
    assert_ne!(namespaces, before);
    assert_eq!(reverse(&mut namespaces), Some("x".to_string()));
    assert_eq!(namespaces, before);
    assert_eq!(reverse(&mut namespaces), None);
    assert_eq!(namespaces, before);
}

#[test]
fn reverse_takes_the_first_variable_with_a_history_in_stack_order() {
    let mut namespaces = vec![Namespace::new(), Namespace::new()];
    namespaces[0].insert("outer".to_string(), variable("outer", number(1.0), true));
    namespaces[1].insert("inner".to_string(), variable("inner", number(1.0), true));
    assign(&mut namespaces, "outer", number(2.0));
    assign(&mut namespaces, "inner", number(2.0));
    assert_eq!(reverse(&mut namespaces), Some("outer".to_string()));
    assert_eq!(lookup(&namespaces, "outer"), Some(number(1.0)));
    assert_eq!(lookup(&namespaces, "inner"), Some(number(2.0)));
    assert_eq!(reverse(&mut namespaces), Some("inner".to_string()));
    assert_eq!(reverse(&mut namespaces), None);
}

#[test]
fn delete_takes_a_name_out_of_every_namespace() {
    let mut namespaces = vec![Namespace::new(), Namespace::new()];
    namespaces[0].insert("x".to_string(), variable("x", number(1.0), true));
    namespaces[1].insert("x".to_string(), variable("x", number(2.0), true));
    assert!(delete(&mut namespaces, "x"));
    assert_eq!(lookup(&namespaces, "x"), None);
    assert!(!delete(&mut namespaces, "x"));
    assert_eq!(namespaces.len(), 2);
}

#[test]
fn list_items_are_put_in_and_replaced() {
    let mut namespaces = vec![Namespace::new()];
    let list = DreamberdValue::List(DreamberdList::new(vec![number(1.0), number(2.0)]));
    namespaces[0].insert("l".to_string(), variable("l", list, false));
    namespaces[0].insert("n".to_string(), variable("n", number(1.0), true));
    namespaces[0].insert("name".to_string(), NamespaceEntry::Name(Name::new("name".to_string(), number(1.0))));
    assert!(insert_into_list(&mut namespaces, "l", ListKey::Whole(-1), -1, number(9.0)));
    assert!(!insert_into_list(&mut namespaces, "n", ListKey::Whole(-1), -1, number(9.0)));
    assert!(!insert_into_list(&mut namespaces, "zz", ListKey::Whole(-1), -1, number(9.0)));
    assert_eq!(replace_list_item(&mut namespaces, "l", 1, number(8.0)), ItemAssignment::Done);
    assert_eq!(replace_list_item(&mut namespaces, "l", 2, number(8.0)), ItemAssignment::OutOfBounds(2));
    assert_eq!(replace_list_item(&mut namespaces, "l", -1, number(8.0)), ItemAssignment::OutOfBounds(2));
    assert_eq!(replace_list_item(&mut namespaces, "n", 0, number(8.0)), ItemAssignment::NotAList);
    assert_eq!(replace_list_item(&mut namespaces, "name", 0, number(8.0)), ItemAssignment::IsName);
    assert_eq!(replace_list_item(&mut namespaces, "zz", 0, number(8.0)), ItemAssignment::Missing);
    match lookup(&namespaces, "l") {
        Some(DreamberdValue::List(l)) => assert_eq!(l.values, vec![number(9.0), number(8.0)]),
        other => panic!("a list, not {:?}", other),
    }
}

#[test]
fn class_body_collapses_to_properties() {
    let mut ns = Namespace::new();
    ns.insert("hp".to_string(), variable("hp", number(10.0), true));
    ns.insert("who".to_string(), NamespaceEntry::Name(Name::new("who".to_string(), number(1.0))));
    ns.insert(
        "void".to_string(),
        NamespaceEntry::Variable(Variable { name: "void".to_string(), lifetimes: vec![], prev_values: vec![] }),
    );
    assert_eq!(
        collapse(&ns),
        vec![("hp".to_string(), number(10.0)), ("who".to_string(), text("who"))]
    );
}

#[test]
fn lifetime_without_end_never_expires() {
    let lined = VariableLifetime::new_with_tracking(number(1.0), u64::MAX, 100, true, true, 0, false, 0);
    assert!(!lined.is_expired(0, 0));
    assert!(!lined.is_expired(100000000000, 0));
    assert!(!lined.is_expired(u64::MAX, u64::MAX));
    let timed = VariableLifetime::new_with_tracking(number(1.0), u64::MAX, 100, true, true, 0, true, 0);
    assert!(!timed.is_expired(0, u64::MAX));
}
