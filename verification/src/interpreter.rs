//! The evaluator: it runs statements against a stack of namespaces, sweeps out what
//! has expired, re-runs `when` bodies when their variables change, and runs `after`
//! bodies when their events arrive.

use crate::alias::{alias, list_aliases, unalias, AliasTable};
use crate::base::{DreamberdError, Token, TokenType};
use crate::binding::{EntryView, LifetimeView, Name, Namespace, NamespaceEntry, NamespaceView,
    Variable, VariableLifetime, VariableView};
use crate::builtin::{bool_value, copy_texts, copy_value, create_builtin_function, db_to_boolean,
    db_to_string, entry_views, number_read, value_view, value_views, with_entry, BuiltinFunction,
    DreamberdBoolean, DreamberdFunction, DreamberdMap, DreamberdString, DreamberdUndefined,
    DreamberdValue, ValueView};
use crate::clock::Clock;
use crate::events::{event_matches, parse_event, sets_off, EventBus, InputEvent};
use crate::number::{Arithmetic, DreamberdNumber};
use crate::processor::expression_tree::{expr_view, expr_views, plain_error, token_type_name,
    ExprView, ExpressionTreeNode};
use crate::processor::syntax_tree::{stmt_view, stmt_views, texts, AfterStatement, ClassDeclaration,
    CodeStatement, Conditional, ExportStatement, FunctionDefinition, ImportStatement, StmtView,
    WhenStatement};
use crate::rules::{has_modifier, is_global_declaration, read_lifetime};
use crate::scope::{assign, declare, declare_global, declared, enter, fresh_variable, leave, lookup,
    previous, reverse, reversed, stack_view, sweep_all, swept_all, tidy, value_of_variable,
    ItemAssignment, LASTING};
use crate::semantics::{after_views, aliases_listed, bare, builtin_step, called, declared_machine,
    fires, formatted, item_failure, limit_failure, measure, swept, token_outcome,
    valid, waiting, with_notice, with_stack, EffectView, Failure, Machine, ModuleView, Outcome, Run,
    RunKind, WhenView};
use crate::text::{append_text, chars_of, decimal, decimal_text, is_whitespace, push_char, same_text,
    signed_text, whitespace};
use std::collections::VecDeque;
use vstd::prelude::*;

verus! {

/// What the evaluator asks of the world, in the order in which it asks.
#[derive(Debug, PartialEq)]
pub enum Effect<'a> {
    /// A line that `print` wrote.
    Print(String),
    /// A line that tells what a statement did.
    Notice(String),
    /// A binding to keep for all later runs, with its confidence in percent.
    StoreGlobal { name: String, value: DreamberdValue<'a>, confidence: i32 },
    /// Source text to write to a file.
    WriteFile { path: String, content: String },
}

/// A source file that a program may import: its name, and its statements or the
/// message of the error that reading it gave.
#[derive(Debug, PartialEq)]
pub struct Module {
    pub name: String,
    pub statements: Result<Vec<CodeStatement>, String>,
}

/// A `when` statement that was registered: its condition, its body, and the names of
/// the variables that the condition reads.
#[derive(Debug, PartialEq)]
pub struct ReactiveWhen<'a> {
    pub condition: &'a ExpressionTreeNode,
    pub body: &'a Vec<CodeStatement>,
    pub dependent_variables: Vec<String>,
}

/// The evaluator and its state.
pub struct Interpreter<'a> {
    /// The namespaces, the innermost last. The first is the global one.
    pub namespaces: Vec<Namespace<'a>>,
    pub filename: String,
    pub code: String,
    /// How many statements were run, counted from 1.
    pub current_line: u64,
    pub when_statements: Vec<ReactiveWhen<'a>>,
    /// The `after` statements that wait for their event.
    pub after_statements: VecDeque<&'a AfterStatement>,
    pub aliases: AliasTable,
    pub events: EventBus,
    /// What the evaluator asked of the world and nobody has taken yet.
    pub effects: Vec<Effect<'a>>,
    /// The source files that the program may import.
    pub modules: &'a Vec<Module>,
    pub clock: Clock,
    /// How deep statements and expressions may nest while they run.
    pub depth_limit: usize,
}

/// How deep statements and expressions may nest unless the limit is changed.
pub const DEFAULT_DEPTH_LIMIT: usize = 600;

/// The view of an effect.
pub open spec fn effect_view<'a>(e: Effect<'a>) -> EffectView {
    match e {
        Effect::Print(line) => EffectView::Print(line@),
        Effect::Notice(line) => EffectView::Notice(line@),
        Effect::StoreGlobal { name, value, confidence } => EffectView::StoreGlobal {
            name: name@,
            value: value_view(value),
            confidence,
        },
        Effect::WriteFile { path, content } => EffectView::WriteFile {
            path: path@,
            content: content@,
        },
    }
}

/// The views of some effects.
pub open spec fn effect_views<'a>(effects: Seq<Effect<'a>>) -> Seq<EffectView> {
    Seq::new(effects.len(), |i: int| effect_view(effects[i]))
}

/// The view of a registered `when`.
pub open spec fn when_view<'a>(w: ReactiveWhen<'a>) -> WhenView {
    WhenView {
        condition: expr_view(*w.condition),
        body: stmt_views(w.body@),
        dependent_variables: texts(w.dependent_variables@),
    }
}

/// The views of some registered `when` statements.
pub open spec fn when_views<'a>(registered: Seq<ReactiveWhen<'a>>) -> Seq<WhenView> {
    Seq::new(registered.len(), |i: int| when_view(registered[i]))
}

/// The view of a source file that may be imported.
pub open spec fn module_view(m: Module) -> ModuleView {
    ModuleView {
        name: m.name@,
        statements: match m.statements {
            Ok(statements) => Ok(stmt_views(statements@)),
            Err(message) => Err(message@),
        },
    }
}

/// The views of some source files.
pub open spec fn module_views(modules: Seq<Module>) -> Seq<ModuleView> {
    Seq::new(modules.len(), |i: int| module_view(modules[i]))
}

/// An error as the outcome of a run.
pub open spec fn failure_of(e: DreamberdError) -> Outcome {
    Outcome::Failed(Failure { formatted: e is InterpretationError, message: e.text() })
}

/// What evaluating an expression gave, as the outcome of a run.
pub open spec fn value_outcome<'a>(r: Result<DreamberdValue<'a>, DreamberdError>) -> Outcome {
    match r {
        Ok(v) => Outcome::Value(value_view(v)),
        Err(e) => failure_of(e),
    }
}

/// What running statements gave, as the outcome of a run.
pub open spec fn maybe_outcome<'a>(r: Result<Option<DreamberdValue<'a>>, DreamberdError>) -> Outcome {
    match r {
        Ok(Some(v)) => Outcome::Maybe(Some(value_view(v))),
        Ok(None) => Outcome::Maybe(None),
        Err(e) => failure_of(e),
    }
}

/// What evaluating some expressions gave, as the outcome of a run.
pub open spec fn values_outcome<'a>(r: Result<Vec<DreamberdValue<'a>>, DreamberdError>) -> Outcome {
    match r {
        Ok(values) => Outcome::Values(value_views(values@)),
        Err(e) => failure_of(e),
    }
}

/// What a step without a value gave, as the outcome of a run.
pub open spec fn done_outcome(r: Result<(), DreamberdError>) -> Outcome {
    match r {
        Ok(()) => Outcome::Done,
        Err(e) => failure_of(e),
    }
}

/// A statement without a value of its own, as the outcome of the run of a statement.
pub open spec fn statement_outcome(r: Result<(), DreamberdError>) -> Outcome {
    match r {
        Ok(()) => Outcome::Maybe(None),
        Err(e) => failure_of(e),
    }
}

/// Some names without those that came before: each name once, in the order of its
/// first coming.
pub open spec fn deduplicated(names: Seq<Seq<char>>) -> Seq<Seq<char>>
    decreases names.len(),
{
    if names.len() == 0 {
        Seq::empty()
    } else if deduplicated(names.drop_last()).contains(names.last()) {
        deduplicated(names.drop_last())
    } else {
        deduplicated(names.drop_last()).push(names.last())
    }
}

/// The names that an expression reads, in the order in which they stand.
pub open spec fn named_in(expr: ExprView) -> Seq<Seq<char>>
    decreases expr,
{
    match expr {
        ExprView::Value(token) => if token.token_type == TokenType::Name {
            seq![token.value]
        } else {
            Seq::empty()
        },
        ExprView::UnaryOp { expression, .. } => named_in(*expression),
        ExprView::BinaryOp { left, right, .. } => named_in(*left) + named_in(*right),
        ExprView::Function { args, .. } => named_in_first(args, args.len()),
        ExprView::Constructor { .. } => Seq::empty(),
        ExprView::Index { value, index } => named_in(*value) + named_in(*index),
        ExprView::List { values } => named_in_first(values, values.len()),
    }
}

/// The names that the first `n` of some expressions read.
pub open spec fn named_in_first(exprs: Seq<ExprView>, n: nat) -> Seq<Seq<char>>
    decreases exprs, n,
{
    if n == 0 || n > exprs.len() {
        Seq::empty()
    } else {
        named_in_first(exprs, (n - 1) as nat) + named_in(exprs[n - 1])
    }
}

proof fn lemma_push_name(items: Seq<String>, item: String)
    ensures
        texts(items.push(item)) == texts(items).push(item@),
{
    assert(texts(items.push(item)) =~= texts(items).push(item@));
}

fn collect_from_all(exprs: &Vec<ExpressionTreeNode>, vars: &mut Vec<String>)
    ensures
        texts(final(vars)@) == texts(old(vars)@) + named_in_first(
            expr_views(exprs@),
            exprs@.len(),
        ),
    decreases exprs,
{
    let mut i: usize = 0;
    assert(texts(vars@) + named_in_first(expr_views(exprs@), 0) =~= texts(vars@));
    while i < exprs.len()
        invariant
            i <= exprs.len(),
            texts(vars@) == texts(old(vars)@) + named_in_first(expr_views(exprs@), i as nat),
        decreases exprs.len() - i,
    {
        let ghost before = texts(vars@);
        collect_variables_from_expression(&exprs[i], vars);
        assert(texts(vars@) =~= texts(old(vars)@) + named_in_first(
            expr_views(exprs@),
            (i + 1) as nat,
        )) by {
            assert(expr_views(exprs@)[i as int] == expr_view(exprs@[i as int]));
        }
        i += 1;
    }
}

/// Appends to `vars` the names that `expr` reads.
pub fn collect_variables_from_expression(expr: &ExpressionTreeNode, vars: &mut Vec<String>)
    ensures
        texts(final(vars)@) == texts(old(vars)@) + named_in(expr_view(*expr)),
    decreases expr,
{
    match expr {
        ExpressionTreeNode::Value(val) => {
            if val.token.token_type == TokenType::Name {
                proof {
                    lemma_push_name(vars@, val.token.value);
                }
                vars.push(val.token.value.clone());
                assert(texts(vars@) =~= texts(old(vars)@) + seq![val.token.value@]);
            } else {
                assert(texts(vars@) =~= texts(old(vars)@) + Seq::<Seq<char>>::empty());
            }
        },
        ExpressionTreeNode::BinaryOp(op) => {
            collect_variables_from_expression(&op.left, vars);
            collect_variables_from_expression(&op.right, vars);
            assert(texts(vars@) =~= texts(old(vars)@) + (named_in(expr_view(*op.left)) + named_in(
                expr_view(*op.right),
            )));
        },
        ExpressionTreeNode::UnaryOp(op) => {
            collect_variables_from_expression(&op.expression, vars);
        },
        ExpressionTreeNode::Function(func) => {
            collect_from_all(&func.args, vars);
        },
        ExpressionTreeNode::Index(index) => {
            collect_variables_from_expression(&index.value, vars);
            collect_variables_from_expression(&index.index, vars);
            assert(texts(vars@) =~= texts(old(vars)@) + (named_in(expr_view(*index.value))
                + named_in(expr_view(*index.index))));
        },
        ExpressionTreeNode::List(list) => {
            collect_from_all(&list.values, vars);
        },
        ExpressionTreeNode::Constructor(_) => {
            assert(texts(vars@) =~= texts(old(vars)@) + Seq::<Seq<char>>::empty());
        },
    }
}

proof fn lemma_contains_pushed<A>(s: Seq<A>, x: A, y: A)
    ensures
        s.push(x).contains(y) <==> (s.contains(y) || x == y),
{
    if s.push(x).contains(y) {
        let i = choose|i: int| 0 <= i < s.push(x).len() && s.push(x)[i] == y;
        if i < s.len() {
            assert(s[i] == y);
        }
    }
    if s.contains(y) {
        let i = choose|i: int| 0 <= i < s.len() && s[i] == y;
        assert(s.push(x)[i] == y);
    }
    if x == y {
        assert(s.push(x)[s.len() as int] == y);
    }
}

/// Whether `name` is among the strings.
pub fn listed(names: &Vec<String>, name: &str) -> (r: bool)
    ensures
        r == texts(names@).contains(name@),
{
    let mut i: usize = 0;
    while i < names.len()
        invariant
            i <= names.len(),
            forall|j: int| 0 <= j < i ==> texts(names@)[j] != name@,
        decreases names.len() - i,
    {
        if same_text(names[i].as_str(), name) {
            assert(texts(names@)[i as int] == name@);
            return true;
        }
        i += 1;
    }
    false
}

/// The names of the variables that `expr` reads: each of them once, in the order in
/// which they first stand.
pub fn extract_variable_dependencies(expr: &ExpressionTreeNode) -> (vars: Vec<String>)
    ensures
        texts(vars@) == deduplicated(named_in(expr_view(*expr))),
        forall|name: Seq<char>|
            texts(vars@).contains(name) <==> named_in(expr_view(*expr)).contains(name),
        texts(vars@).no_duplicates(),
{
    let mut all: Vec<String> = Vec::new();
    collect_variables_from_expression(expr, &mut all);
    assert(texts(all@) =~= named_in(expr_view(*expr)));
    let mut vars: Vec<String> = Vec::new();
    let mut i: usize = 0;
    while i < all.len()
        invariant
            i <= all.len(),
            texts(vars@).no_duplicates(),
            texts(vars@) == deduplicated(texts(all@).take(i as int)),
            forall|name: Seq<char>|
                texts(vars@).contains(name) <==> texts(all@).take(i as int).contains(name),
        decreases all.len() - i,
    {
        let ghost seen = texts(vars@);
        let ghost prefix = texts(all@).take(i as int);
        let ghost current = all@[i as int]@;
        assert(texts(all@).take(i + 1) =~= prefix.push(current));
        assert(prefix.push(current).drop_last() =~= prefix);
        assert(forall|name: Seq<char>| seen.contains(name) <==> prefix.contains(name));
        if !listed(&vars, all[i].as_str()) {
            proof {
                lemma_push_name(vars@, all@[i as int]);
            }
            vars.push(all[i].clone());
            assert forall|name: Seq<char>| texts(vars@).contains(name) <==> prefix.push(
                current,
            ).contains(name) by {
                lemma_contains_pushed(seen, current, name);
                lemma_contains_pushed(prefix, current, name);
            }
            assert(texts(vars@).no_duplicates()) by {
                assert forall|a: int, b: int|
                    0 <= a < texts(vars@).len() && 0 <= b < texts(vars@).len() && a
                        != b implies texts(vars@)[a] != texts(vars@)[b] by {
                    if a < seen.len() && b < seen.len() {
                        assert(seen[a] != seen[b]);
                    } else if a < seen.len() {
                        assert(seen[a] != current) by {
                            if seen[a] == current {
                                assert(seen.contains(current));
                            }
                        }
                    } else if b < seen.len() {
                        assert(seen[b] != current) by {
                            if seen[b] == current {
                                assert(seen.contains(current));
                            }
                        }
                    }
                }
            }
        } else {
            assert forall|name: Seq<char>| texts(vars@).contains(name) <==> prefix.push(
                current,
            ).contains(name) by {
                lemma_contains_pushed(prefix, current, name);
            }
        }
        i += 1;
    }
    assert(texts(all@).take(all.len() as int) =~= texts(all@));
    vars
}

/// The `after` statements of a queue that the event named `key` sets off, if `wanted`,
/// or those that it does not set off, in the order of the queue.
pub open spec fn selected<'a>(queue: Seq<&'a AfterStatement>, key: Seq<char>, wanted: bool) -> Seq<
    &'a AfterStatement,
>
    decreases queue.len(),
{
    if queue.len() == 0 {
        Seq::empty()
    } else if sets_off(queue.last().event@, key) == wanted {
        selected(queue.drop_last(), key, wanted).push(queue.last())
    } else {
        selected(queue.drop_last(), key, wanted)
    }
}

/// Takes out of the queue the `after` statements that the event named `key` sets off,
/// and gives them in the order in which they waited.
pub fn take_matching<'a>(queue: &mut VecDeque<&'a AfterStatement>, key: &str) -> (matching: Vec<
    &'a AfterStatement,
>)
    ensures
        matching@ == selected(old(queue)@, key@, true),
        final(queue)@ == selected(old(queue)@, key@, false),
{
    let mut matching: Vec<&'a AfterStatement> = Vec::new();
    let mut remaining: VecDeque<&'a AfterStatement> = VecDeque::new();
    let ghost original = queue@;
    let ghost mut done: Seq<&'a AfterStatement> = Seq::empty();
    assert(done + queue@ =~= original);
    while queue.len() > 0
        invariant
            done + queue@ == original,
            matching@ == selected(done, key@, true),
            remaining@ == selected(done, key@, false),
        decreases queue.len(),
    {
        let ghost rest = queue@;
        match queue.pop_front() {
            Some(stmt) => {
                proof {
                    assert(done.push(stmt) + queue@ =~= done + rest);
                    assert(done.push(stmt).drop_last() =~= done);
                    done = done.push(stmt);
                }
                if event_matches(stmt.event.as_str(), key) {
                    matching.push(stmt);
                } else {
                    remaining.push_back(stmt);
                }
            },
            None => {},
        }
    }
    assert(done =~= original);
    *queue = remaining;
    matching
}

/// Whether a value holds no number in any part that is written out as source text.
pub open spec fn plain(v: ValueView) -> bool
    decreases v,
{
    match v {
        ValueView::Number(_) => false,
        ValueView::List { values, .. } => forall|i: int|
            0 <= i < values.len() ==> plain(#[trigger] values[i]),
        ValueView::Mapping { values } => forall|i: int|
            0 <= i < values.len() ==> plain((#[trigger] values[i]).1),
        ValueView::Object { namespace, .. } => forall|i: int|
            0 <= i < namespace.len() ==> plain((#[trigger] namespace[i]).1),
        _ => true,
    }
}

/// A text with a backslash before each quote and each backslash, so that it reads
/// back as itself between double quotes.
pub open spec fn escaped(s: Seq<char>) -> Seq<char>
    decreases s.len(),
{
    if s.len() == 0 {
        Seq::empty()
    } else if crate::processor::lexer::escapable(s.last()) {
        escaped(s.drop_last()) + seq!['\\', s.last()]
    } else {
        escaped(s.drop_last()).push(s.last())
    }
}

/// The first `n` of some texts, set apart by a comma and a space.
pub open spec fn listed_texts(items: Seq<Seq<char>>, n: nat) -> Seq<char>
    decreases n,
{
    if n == 0 || n > items.len() {
        Seq::empty()
    } else if n == 1 {
        items[0]
    } else {
        listed_texts(items, (n - 1) as nat) + ", "@ + items[n - 1]
    }
}

/// What stands for the body of a function in source text: nothing for an empty body,
/// else a comment that says how many statements it has.
pub open spec fn body_note(statements: nat) -> Seq<char> {
    if statements == 0 {
        Seq::empty()
    } else {
        "/* "@ + decimal(statements) + " statements */"@
    }
}

/// The first `n` items of a list as source text, set apart by a comma and a space.
pub open spec fn source_items(items: Seq<ValueView>, n: nat, depth: nat) -> Seq<char>
    decreases items, n,
{
    if n == 0 || n > items.len() {
        Seq::empty()
    } else if n == 1 {
        source_of(items[0], depth)
    } else {
        source_items(items, (n - 1) as nat, depth) + ", "@ + source_of(items[n - 1], depth)
    }
}

/// One property as source text: the key in double quotes, a colon, the value.
pub open spec fn source_property(key: Seq<char>, value: Seq<char>) -> Seq<char> {
    "\""@ + key + "\": "@ + value
}

/// The first `n` properties as source text, set apart by a comma and a space.
pub open spec fn source_entries(entries: Seq<(Seq<char>, ValueView)>, n: nat, depth: nat) -> Seq<
    char,
>
    decreases entries, n,
{
    if n == 0 || n > entries.len() {
        Seq::empty()
    } else if n == 1 {
        source_property(entries[0].0, source_of(entries[0].1, depth))
    } else {
        source_entries(entries, (n - 1) as nat, depth) + ", "@ + source_property(
            entries[n - 1].0,
            source_of(entries[n - 1].1, depth),
        )
    }
}

/// A value that holds no number as source text, `depth` levels inside the value that
/// is written. A text stands in double quotes, with a backslash before each quote and
/// each backslash in it; a list
/// in brackets; a map in braces; a function as its head and a note on its body; an
/// object as a constructor call with its properties in a comment. Anything else, and
/// anything more than ten levels deep, is `undefined`.
pub open spec fn source_of(v: ValueView, depth: nat) -> Seq<char>
    decreases v,
{
    if depth > 10 {
        "undefined"@
    } else {
        match v {
            ValueView::Number(_) => Seq::empty(),
            ValueView::String(s) => "\""@ + escaped(s) + "\""@,
            ValueView::Boolean(Some(true)) => "true"@,
            ValueView::Boolean(Some(false)) => "false"@,
            ValueView::Boolean(None) => "maybe"@,
            ValueView::List { values, .. } => "["@ + source_items(values, values.len(), depth + 1)
                + "]"@,
            ValueView::Mapping { values } => "{"@ + source_entries(
                values,
                values.len(),
                depth + 1,
            ) + "}"@,
            ValueView::Function { args, code, is_async, .. } => (if is_async {
                "async function("@
            } else {
                "function("@
            }) + listed_texts(args, args.len()) + ") => {\n  "@ + body_note(code.len()) + "\n}"@,
            ValueView::Object { class_name, namespace } => if namespace.len() == 0 {
                "new "@ + class_name + "()"@
            } else {
                "new "@ + class_name + "() /* with properties: "@ + source_entries(
                    namespace,
                    namespace.len(),
                    depth + 1,
                ) + " */"@
            },
            _ => "undefined"@,
        }
    }
}

proof fn lemma_plain_object(class_name: Seq<char>, namespace: Seq<(Seq<char>, ValueView)>)
    requires
        plain(ValueView::Object { class_name, namespace }),
    ensures
        forall|i: int| 0 <= i < namespace.len() ==> plain((#[trigger] namespace[i]).1),
{
    assert forall|i: int| 0 <= i < namespace.len() implies plain((#[trigger] namespace[i]).1) by {
        let v = ValueView::Object { class_name, namespace };
        assert(v->Object_namespace[i] == namespace[i]);
    }
}

fn escape_quotes(text: &str) -> (r: String)
    ensures
        r@ == escaped(text@),
{
    let chars = chars_of(text);
    let mut r = String::new();
    let mut i: usize = 0;
    assert(chars@.take(0) =~= Seq::<char>::empty());
    while i < chars.len()
        invariant
            i <= chars.len(),
            chars@ == text@,
            r@ == escaped(chars@.take(i as int)),
        decreases chars.len() - i,
    {
        proof {
            assert(chars@.take(i + 1).drop_last() =~= chars@.take(i as int));
        }
        if chars[i] == '"' || chars[i] == '\'' || chars[i] == '\\' {
            let ghost before = r@;
            push_char(&mut r, '\\');
            push_char(&mut r, chars[i]);
            assert(r@ =~= before + seq!['\\', chars@[i as int]]);
        } else {
            push_char(&mut r, chars[i]);
        }
        i += 1;
    }
    assert(chars@.take(chars.len() as int) =~= chars@);
    r
}

fn list_texts(items: &Vec<String>) -> (r: String)
    ensures
        r@ == listed_texts(texts(items@), items@.len()),
{
    let mut r = String::new();
    let mut i: usize = 0;
    while i < items.len()
        invariant
            i <= items.len(),
            r@ == listed_texts(texts(items@), i as nat),
        decreases items.len() - i,
    {
        if i > 0 {
            append_text(&mut r, ", ");
        }
        append_text(&mut r, items[i].as_str());
        assert(r@ =~= listed_texts(texts(items@), (i + 1) as nat));
        i += 1;
    }
    r
}

/// The first `n` of some texts as properties, each after its key in double quotes and
/// a colon, set apart by a comma and a space.
pub open spec fn listed_properties(keys: Seq<Seq<char>>, texts: Seq<Seq<char>>, n: nat) -> Seq<
    char,
>
    decreases n,
{
    if n == 0 || n > texts.len() || n > keys.len() {
        Seq::empty()
    } else if n == 1 {
        source_property(keys[0], texts[0])
    } else {
        listed_properties(keys, texts, (n - 1) as nat) + ", "@ + source_property(
            keys[n - 1],
            texts[n - 1],
        )
    }
}

/// The keys of some entries.
pub open spec fn keys_of(entries: Seq<(Seq<char>, ValueView)>) -> Seq<Seq<char>> {
    Seq::new(entries.len(), |i: int| entries[i].0)
}

/// Whether `s` is some entries written as properties, with `ops` writing the numbers.
pub open spec fn writes_properties<N: Arithmetic>(
    ops: &N,
    entries: Seq<(Seq<char>, ValueView)>,
    depth: nat,
    s: Seq<char>,
) -> bool {
    exists|texts: Seq<Seq<char>>|
        texts.len() == entries.len() && (forall|i: int|
            0 <= i < entries.len() ==> writes(ops, entries[i].1, depth, #[trigger] texts[i])) && s
            == listed_properties(keys_of(entries), texts, texts.len())
}

/// Whether `s` is a value written as source text, `depth` levels inside the value that
/// is written, with `ops` writing the numbers: a number is what `ops` writes for it;
/// lists, maps and objects hold their parts so written; anything else is as
/// `source_of` says.
pub open spec fn writes<N: Arithmetic>(ops: &N, v: ValueView, depth: nat, s: Seq<char>) -> bool
    decreases v,
{
    if depth > 10 {
        s == "undefined"@
    } else {
        match v {
            ValueView::Number(bits) => exists|written: String| #[trigger]
                call_ensures(N::literal, (ops, bits), written) && written@ == s,
            ValueView::List { values, .. } => exists|texts: Seq<Seq<char>>|
                texts.len() == values.len() && (forall|i: int|
                    0 <= i < values.len() ==> writes(
                        ops,
                        values[i],
                        depth + 1,
                        #[trigger] texts[i],
                    )) && s == "["@ + crate::builtin::listed(texts, texts.len()) + "]"@,
            ValueView::Mapping { values } => exists|texts: Seq<Seq<char>>|
                texts.len() == values.len() && (forall|i: int|
                    0 <= i < values.len() ==> writes(
                        ops,
                        values[i].1,
                        depth + 1,
                        #[trigger] texts[i],
                    )) && s == "{"@ + listed_properties(keys_of(values), texts, texts.len()) + "}"@,
            ValueView::Object { class_name, namespace } => if namespace.len() == 0 {
                s == "new "@ + class_name + "()"@
            } else {
                exists|texts: Seq<Seq<char>>|
                    texts.len() == namespace.len() && (forall|i: int|
                        0 <= i < namespace.len() ==> writes(
                            ops,
                            namespace[i].1,
                            depth + 1,
                            #[trigger] texts[i],
                        )) && s == "new "@ + class_name + "() /* with properties: "@
                        + listed_properties(keys_of(namespace), texts, texts.len()) + " */"@
            },
            _ => s == source_of(v, depth),
        }
    }
}

proof fn lemma_properties_prefix(
    keys: Seq<Seq<char>>,
    texts: Seq<Seq<char>>,
    more: Seq<char>,
    n: nat,
)
    requires
        n <= texts.len(),
    ensures
        listed_properties(keys, texts.push(more), n) == listed_properties(keys, texts, n),
    decreases n,
{
    if n > 1 {
        lemma_properties_prefix(keys, texts, more, (n - 1) as nat);
        assert(texts.push(more)[n - 1] == texts[n - 1]);
    } else if n == 1 {
        assert(texts.push(more)[0] == texts[0]);
    }
}

proof fn lemma_listed_more(texts: Seq<Seq<char>>, more: Seq<char>, n: nat)
    requires
        n <= texts.len(),
    ensures
        crate::builtin::listed(texts.push(more), n) == crate::builtin::listed(texts, n),
    decreases n,
{
    if n > 1 {
        lemma_listed_more(texts, more, (n - 1) as nat);
        assert(texts.push(more)[n - 1] == texts[n - 1]);
    } else if n == 1 {
        assert(texts.push(more)[0] == texts[0]);
    }
}

fn serialize_entries<'a, N: Arithmetic>(
    entries: &Vec<(String, DreamberdValue<'a>)>,
    depth: usize,
    ops: &N,
) -> (r: String)
    requires
        depth <= 11,
    ensures
        writes_properties(ops, entry_views(entries@), depth as nat, r@),
        (forall|i: int| 0 <= i < entries@.len() ==> plain((#[trigger] entry_views(entries@)[i]).1))
            ==> r@ == source_entries(entry_views(entries@), entries@.len(), depth as nat),
    decreases entries,
{
    let mut r = String::new();
    let ghost views = entry_views(entries@);
    let ghost keys = keys_of(views);
    let ghost all_plain = forall|i: int| 0 <= i < entries@.len() ==> plain((#[trigger] views[i]).1);
    let ghost mut texts: Seq<Seq<char>> = Seq::empty();
    let mut i: usize = 0;
    assert(r@ =~= listed_properties(keys, texts, 0));
    while i < entries.len()
        invariant
            i <= entries.len(),
            depth <= 11,
            views == entry_views(entries@),
            keys == keys_of(views),
            all_plain == (forall|i: int|
                0 <= i < entries@.len() ==> plain((#[trigger] views[i]).1)),
            all_plain ==> r@ == source_entries(views, i as nat, depth as nat),
            texts.len() == i,
            forall|j: int| 0 <= j < i ==> writes(ops, views[j].1, depth as nat, #[trigger] texts[j]),
            r@ == listed_properties(keys, texts, i as nat),
        decreases entries.len() - i,
    {
        if i > 0 {
            append_text(&mut r, ", ");
        }
        let value = serialize_value_to_expression(&entries[i].1, depth, ops);
        append_text(&mut r, "\"");
        append_text(&mut r, entries[i].0.as_str());
        append_text(&mut r, "\": ");
        append_text(&mut r, value.as_str());
        proof {
            let before = texts;
            texts = texts.push(value@);
            assert forall|j: int| 0 <= j < i + 1 implies writes(
                ops,
                views[j].1,
                depth as nat,
                #[trigger] texts[j],
            ) by {
                if j < i {
                    assert(texts[j] == before[j]);
                }
            }
            lemma_properties_prefix(keys, before, value@, before.len());
            assert(texts[i as int] == value@);
            assert(keys[i as int] == entries@[i as int].0@);
            assert(r@ =~= listed_properties(keys, texts, (i + 1) as nat));
            if all_plain {
                assert(plain(views[i as int].1));
                assert(r@ =~= source_entries(views, (i + 1) as nat, depth as nat));
            }
        }
        i += 1;
    }
    assert(views.len() == entries@.len());
    r
}

/// Writes a value as source text, `depth` levels inside the value that is written.
/// Numbers are written by `ops`.
#[verifier::loop_isolation(false)]
pub fn serialize_value_to_expression<'a, N: Arithmetic>(
    value: &DreamberdValue<'a>,
    depth: usize,
    ops: &N,
) -> (r: String)
    ensures
        writes(ops, value_view(*value), depth as nat, r@),
        plain(value_view(*value)) ==> r@ == source_of(value_view(*value), depth as nat),
    decreases value,
{
    if depth > 10 {
        return String::from_str("undefined");
    }
    match value {
        DreamberdValue::Number(n) => {
            let written = ops.literal(n.bits);
            assert(call_ensures(N::literal, (ops, n.bits), written));
            written
        },
        DreamberdValue::String(s) => {
            let mut r = String::from_str("\"");
            append_text(&mut r, escape_quotes(s.value.as_str()).as_str());
            append_text(&mut r, "\"");
            r
        },
        DreamberdValue::Boolean(b) => match b.value {
            Some(true) => String::from_str("true"),
            Some(false) => String::from_str("false"),
            None => String::from_str("maybe"),
        },
        DreamberdValue::List(list) => {
            let mut r = String::from_str("[");
            let ghost items = value_views(list.values@);
            let ghost mut texts: Seq<Seq<char>> = Seq::empty();
            let mut i: usize = 0;
            assert(value_view(*value) == (ValueView::List {
                values: items,
                indexer: list.indexer@,
            }));
            assert(r@ =~= "["@ + source_items(items, 0, (depth + 1) as nat));
            assert(r@ =~= "["@ + crate::builtin::listed(texts, 0));
            while i < list.values.len()
                invariant
                    i <= list.values.len(),
                    items == value_views(list.values@),
                    value_view(*value) is List,
                    value_view(*value)->List_values == items,
                    plain(value_view(*value)) ==> r@ == "["@ + source_items(
                        items,
                        i as nat,
                        (depth + 1) as nat,
                    ),
                    texts.len() == i,
                    forall|j: int|
                        0 <= j < i ==> writes(
                            ops,
                            items[j],
                            (depth + 1) as nat,
                            #[trigger] texts[j],
                        ),
                    r@ == "["@ + crate::builtin::listed(texts, i as nat),
                decreases list.values.len() - i,
            {
                if i > 0 {
                    append_text(&mut r, ", ");
                }
                let item = serialize_value_to_expression(&list.values[i], depth + 1, ops);
                append_text(&mut r, item.as_str());
                proof {
                    let before = texts;
                    texts = texts.push(item@);
                    assert forall|j: int| 0 <= j < i + 1 implies writes(
                        ops,
                        items[j],
                        (depth + 1) as nat,
                        #[trigger] texts[j],
                    ) by {
                        if j < i {
                            assert(texts[j] == before[j]);
                        }
                    }
                    lemma_listed_more(before, item@, before.len());
                    assert(texts[i as int] == item@);
                    assert(r@ =~= "["@ + crate::builtin::listed(texts, (i + 1) as nat));
                    if plain(value_view(*value)) {
                        assert(plain(items[i as int]));
                        assert(r@ =~= "["@ + source_items(
                            items,
                            (i + 1) as nat,
                            (depth + 1) as nat,
                        ));
                    }
                }
                i += 1;
            }
            append_text(&mut r, "]");
            assert(items.len() == list.values@.len());
            assert(r@ == "["@ + crate::builtin::listed(texts, texts.len()) + "]"@);
            r
        },
        DreamberdValue::Mapping(map) => {
            let mut r = String::from_str("{");
            let inner = serialize_entries(&map.values, depth + 1, ops);
            append_text(&mut r, inner.as_str());
            append_text(&mut r, "}");
            assert(writes_properties(ops, entry_views(map.values@), (depth + 1) as nat, inner@));
            assert(value_view(*value) == (ValueView::Mapping {
                values: entry_views(map.values@),
            }));
            assert(r@ == "{"@ + inner@ + "}"@);
            proof {
                let d: nat = depth as nat;
                let entries = entry_views(map.values@);
                assert(writes_properties(ops, entries, d + 1, inner@));
                let texts = choose|texts: Seq<Seq<char>>|
                    texts.len() == entries.len() && (forall|i: int|
                        0 <= i < entries.len() ==> writes(
                            ops,
                            entries[i].1,
                            d + 1,
                            #[trigger] texts[i],
                        )) && inner@ == listed_properties(keys_of(entries), texts, texts.len());
                assert(r@ == "{"@ + listed_properties(keys_of(entries), texts, texts.len()) + "}"@);
            }
            r
        },
        DreamberdValue::Function(func) => {
            let mut r = if func.is_async {
                String::from_str("async function(")
            } else {
                String::from_str("function(")
            };
            append_text(&mut r, list_texts(&func.args).as_str());
            append_text(&mut r, ") => {\n  ");
            if func.code.len() > 0 {
                let ghost before = r@;
                append_text(&mut r, "/* ");
                append_text(&mut r, decimal_text(func.code.len() as u64).as_str());
                append_text(&mut r, " statements */");
                assert(r@ =~= before + body_note(func.code@.len()));
            } else {
                assert(r@ =~= r@ + body_note(0));
            }
            append_text(&mut r, "\n}");
            r
        },
        DreamberdValue::Object(obj) => {
            let mut r = String::from_str("new ");
            append_text(&mut r, obj.class_name.as_str());
            let ghost properties = entry_views(obj.namespace@);
            assert(properties.len() == obj.namespace@.len());
            assert(value_view(*value) == (ValueView::Object {
                class_name: obj.class_name@,
                namespace: properties,
            }));
            proof {
                if plain(value_view(*value)) {
                    lemma_plain_object(obj.class_name@, properties);
                }
            }
            if obj.namespace.len() == 0 {
                append_text(&mut r, "()");
            } else {
                append_text(&mut r, "() /* with properties: ");
                let inner = serialize_entries(&obj.namespace, depth + 1, ops);
                append_text(&mut r, inner.as_str());
                append_text(&mut r, " */");
                assert(writes_properties(ops, properties, (depth + 1) as nat, inner@));
                assert(r@ == "new "@ + obj.class_name@ + "() /* with properties: "@ + inner@
                    + " */"@);
                proof {
                    let d: nat = depth as nat;
                    assert(writes_properties(ops, properties, d + 1, inner@));
                    let texts = choose|texts: Seq<Seq<char>>|
                        texts.len() == properties.len() && (forall|i: int|
                            0 <= i < properties.len() ==> writes(
                                ops,
                                properties[i].1,
                                d + 1,
                                #[trigger] texts[i],
                            )) && inner@ == listed_properties(
                            keys_of(properties),
                            texts,
                            texts.len(),
                        );
                    assert(r@ == "new "@ + obj.class_name@ + "() /* with properties: "@
                        + listed_properties(keys_of(properties), texts, texts.len()) + " */"@);
                }
            }
            r
        },
        _ => String::from_str("undefined"),
    }
}

/// A declaration of `name` with a value as source text.
pub open spec fn declaration_source(name: Seq<char>, v: ValueView) -> Seq<char> {
    "const "@ + name + " = "@ + source_of(v, 0) + "!"@
}

/// Whether `s` is the declaration that gives `name` the value `v`, with `ops` writing
/// the numbers.
pub open spec fn writes_declaration<N: Arithmetic>(
    ops: &N,
    name: Seq<char>,
    v: ValueView,
    s: Seq<char>,
) -> bool {
    exists|expression: Seq<char>|
        #[trigger] writes(ops, v, 0, expression) && s == "const "@ + name + " = "@ + expression
            + "!"@
}

/// Writes the declaration that gives `var_name` the value `value`.
pub fn serialize_value_to_code<'a, N: Arithmetic>(
    var_name: &str,
    value: &DreamberdValue<'a>,
    ops: &N,
) -> (r: String)
    ensures
        writes_declaration(ops, var_name@, value_view(*value), r@),
        plain(value_view(*value)) ==> r@ == declaration_source(var_name@, value_view(*value)),
{
    let expression = serialize_value_to_expression(value, 0, ops);
    let mut r = String::from_str("const ");
    append_text(&mut r, var_name);
    append_text(&mut r, " = ");
    append_text(&mut r, expression.as_str());
    append_text(&mut r, "!");
    r
}

/// Whether a text holds nothing but white space.
pub open spec fn blank(s: Seq<char>) -> bool {
    forall|i: int| 0 <= i < s.len() ==> whitespace(#[trigger] s[i])
}

pub(crate) fn is_blank(chars: &Vec<char>, from: usize, to: usize) -> (r: bool)
    requires
        from <= to <= chars.len(),
    ensures
        r == blank(chars@.subrange(from as int, to as int)),
{
    let mut i: usize = from;
    while i < to
        invariant
            from <= i <= to <= chars.len(),
            forall|j: int| from <= j < i ==> whitespace(#[trigger] chars@[j]),
        decreases to - i,
    {
        if !is_whitespace(chars[i]) {
            assert(!whitespace(chars@.subrange(from as int, to as int)[i - from]));
            return false;
        }
        i += 1;
    }
    assert forall|k: int| 0 <= k < to - from implies whitespace(
        #[trigger] chars@.subrange(from as int, to as int)[k],
    ) by {
        assert(whitespace(chars@[from + k]));
    }
    true
}

/// Where the interpolation that opened before `from` closes: the index of the brace
/// that closes it, braces inside it counted, or the length if it never closes.
/// `open` is how many braces are open at `from`.
pub open spec fn closing_brace(chars: Seq<char>, from: int, open: nat) -> int
    decreases chars.len() - from,
{
    if 0 <= from < chars.len() {
        if chars[from] == '{' {
            closing_brace(chars, from + 1, open + 1)
        } else if chars[from] == '}' {
            if open <= 1 {
                from
            } else {
                closing_brace(chars, from + 1, (open - 1) as nat)
            }
        } else {
            closing_brace(chars, from + 1, open)
        }
    } else {
        from
    }
}

pub(crate) fn find_closing_brace(chars: &Vec<char>, from: usize) -> (end: usize)
    requires
        from <= chars.len(),
    ensures
        end == closing_brace(chars@, from as int, 1),
        from <= end <= chars.len(),
{
    let mut i: usize = from;
    let mut open: u128 = 1;
    while i < chars.len()
        invariant
            from <= i <= chars.len(),
            1 <= open <= i - from + 1,
            closing_brace(chars@, from as int, 1) == closing_brace(chars@, i as int, open as nat),
        decreases chars.len() - i,
    {
        if chars[i] == '{' {
            open = open + 1;
        } else if chars[i] == '}' {
            if open <= 1 {
                return i;
            }
            open = open - 1;
        }
        i += 1;
    }
    i
}

pub(crate) fn limit_error() -> (e: DreamberdError)
    ensures
        e is NonFormattedError,
        failure_of(e) == limit_failure(),
{
    plain_error("Statements and expressions nest deeper than the limit allows")
}

pub(crate) fn formatted_error(parts: &Vec<&str>) -> (e: DreamberdError)
    ensures
        e is InterpretationError,
        failure_of(e) == formatted(joined(parts@)),
{
    DreamberdError::InterpretationError(concatenated(parts))
}

pub(crate) fn bare_error(parts: &Vec<&str>) -> (e: DreamberdError)
    ensures
        e is NonFormattedError,
        failure_of(e) == bare(joined(parts@)),
{
    DreamberdError::NonFormattedError(concatenated(parts))
}

pub(crate) fn simple_error(message: &str) -> (e: DreamberdError)
    ensures
        e is NonFormattedError,
        failure_of(e) == bare(message@),
{
    plain_error(message)
}

/// The first `n` of some texts, one after the other.
pub open spec fn chained(parts: Seq<&str>, n: nat) -> Seq<char>
    decreases n,
{
    if n == 0 || n > parts.len() {
        Seq::empty()
    } else {
        chained(parts, (n - 1) as nat) + parts[n - 1]@
    }
}

/// Some texts, one after the other.
pub open spec fn joined(parts: Seq<&str>) -> Seq<char> {
    if parts.len() == 1 {
        parts[0]@
    } else if parts.len() == 2 {
        parts[0]@ + parts[1]@
    } else if parts.len() == 3 {
        parts[0]@ + parts[1]@ + parts[2]@
    } else if parts.len() == 4 {
        parts[0]@ + parts[1]@ + parts[2]@ + parts[3]@
    } else if parts.len() == 5 {
        parts[0]@ + parts[1]@ + parts[2]@ + parts[3]@ + parts[4]@
    } else {
        chained(parts, parts.len())
    }
}

proof fn lemma_joined(parts: Seq<&str>)
    ensures
        chained(parts, parts.len()) == joined(parts),
{
    reveal_with_fuel(chained, 6);
    assert(Seq::<char>::empty() + parts[0]@ =~= parts[0]@);
    if parts.len() <= 5 {
        assert(chained(parts, parts.len()) =~= joined(parts));
    }
}

fn concatenated(parts: &Vec<&str>) -> (r: String)
    ensures
        r@ == joined(parts@),
{
    let mut r = String::new();
    let mut i: usize = 0;
    while i < parts.len()
        invariant
            i <= parts.len(),
            r@ == chained(parts@, i as nat),
        decreases parts.len() - i,
    {
        append_text(&mut r, parts[i]);
        i += 1;
    }
    proof {
        lemma_joined(parts@);
    }
    r
}

pub(crate) fn undefined_value<'a>() -> (v: DreamberdValue<'a>)
    ensures
        value_view(v) == ValueView::Undefined,
{
    DreamberdValue::Undefined(DreamberdUndefined)
}

/// A run without readings of the clock and without events.
pub open spec fn run_of(
    kind: RunKind,
    before: Machine,
    after: Machine,
    result: Outcome,
    parts: Seq<Run>,
) -> Run {
    Run { kind, before, after, result, parts, readings: Seq::empty(), events: Seq::empty() }
}

/// Whether `run` is a run of the kind `kind` that took the evaluator from `before` to
/// `after` and gave `result`.
pub open spec fn performed<'a>(
    run: Run,
    kind: RunKind,
    before: Interpreter<'a>,
    after: Interpreter<'a>,
    result: Outcome,
) -> bool {
    run.kind == kind && run.before == before.machine() && run.after == after.machine()
        && run.result == result
}

/// The kind of the run of an expression.
pub open spec fn expression_run(expr: ExpressionTreeNode, depth: usize) -> RunKind {
    RunKind::Expression { expr: expr_view(expr), depth: depth as nat }
}

/// The kind of the run of a statement.
pub open spec fn statement_run(statement: CodeStatement, depth: usize) -> RunKind {
    RunKind::Statement { statement: stmt_view(statement), depth: depth as nat }
}

/// The kind of the run of some statements as a block.
pub open spec fn block_run(statements: Seq<CodeStatement>, depth: usize) -> RunKind {
    RunKind::Block { statements: stmt_views(statements), depth: depth as nat }
}

/// What a statement returned, if it returned, as the outcome of a run.
pub open spec fn returned<'a>(result: Option<DreamberdValue<'a>>) -> Outcome {
    Outcome::Maybe(
        match result {
            Some(v) => Some(value_view(v)),
            None => None,
        },
    )
}

/// Taking the `after` statements that an event sets off, or the others, out of a
/// queue is the same on the statements and on their views.
pub proof fn lemma_waiting<'a>(queue: Seq<&'a AfterStatement>, key: Seq<char>, wanted: bool)
    ensures
        after_views(selected(queue, key, wanted)) == waiting(after_views(queue), key, wanted),
    decreases queue.len(),
{
    if queue.len() > 0 {
        lemma_waiting(queue.drop_last(), key, wanted);
        assert(after_views(queue).drop_last() =~= after_views(queue.drop_last()));
        assert(after_views(queue).last() == crate::semantics::after_view(*queue.last()));
        if sets_off(queue.last().event@, key) == wanted {
            assert(after_views(selected(queue.drop_last(), key, wanted).push(queue.last()))
                =~= after_views(selected(queue.drop_last(), key, wanted)).push(
                crate::semantics::after_view(*queue.last()),
            ));
        }
    } else {
        assert(after_views(selected(queue, key, wanted)) =~= Seq::empty());
    }
}

/// What every step of the evaluator keeps: there is a global namespace; no namespace
/// is taken off the stack that the step did not put there; no namespace comes to bind
/// an identifier twice; the line counter does not go back; effects and registered
/// `when` statements are only added.
pub open spec fn follows<'a>(after: Interpreter<'a>, before: Interpreter<'a>) -> bool {
    &&& after.namespaces@.len() >= 1
    &&& after.namespaces@.len() >= before.namespaces@.len()
    &&& tidy(before.namespaces@) ==> tidy(after.namespaces@)
    &&& after.current_line >= before.current_line
    &&& after.depth_limit == before.depth_limit
    &&& after.modules == before.modules
    &&& after.effects@.len() >= before.effects@.len()
    &&& forall|i: int|
        0 <= i < before.effects@.len() ==> #[trigger] after.effects@[i] == before.effects@[i]
    &&& after.when_statements@.len() >= before.when_statements@.len()
    &&& forall|i: int|
        0 <= i < before.when_statements@.len() ==> #[trigger] after.when_statements@[i]
            == before.when_statements@[i]
}

/// Whether a condition with this value sets off the body of a `when`: it does unless
/// the value counts as false. Maybe sets it off, which it does not for `if`.
pub fn sets_off_when<'a>(value: &DreamberdValue<'a>) -> (r: bool)
    ensures
        r == fires(value_view(*value)),
{
    match db_to_boolean(value).value {
        Some(false) => false,
        _ => true,
    }
}

/// Whether none of the registered `when` statements reads the variable `name`.
pub open spec fn unwatched<'a>(registered: Seq<ReactiveWhen<'a>>, name: Seq<char>) -> bool {
    forall|i: int|
        0 <= i < registered.len() ==> !texts(
            (#[trigger] registered[i]).dependent_variables@,
        ).contains(name)
}

/// The binding that the runtime makes for one of its own values.
pub open spec fn runtime_binding(name: Seq<char>, value: ValueView) -> EntryView {
    EntryView::Variable(fresh_variable(name, value))
}

/// The global namespace of a fresh interpreter: the runtime functions `print`, `sqrt`,
/// `len`, `alias`, `unalias`, `list_aliases` and `trigger`, and the truth values
/// `true`, `false` and `maybe`.
pub open spec fn initial_globals() -> NamespaceView {
    seq![
        (
            "print"@,
            runtime_binding(
                "print"@,
                ValueView::BuiltinFunction { name: "print"@, arg_count: -1i32 },
            ),
        ),
        (
            "sqrt"@,
            runtime_binding("sqrt"@, ValueView::BuiltinFunction { name: "sqrt"@, arg_count: 1 }),
        ),
        (
            "len"@,
            runtime_binding("len"@, ValueView::BuiltinFunction { name: "len"@, arg_count: 1 }),
        ),
        (
            "alias"@,
            runtime_binding(
                "alias"@,
                ValueView::BuiltinFunction { name: "alias"@, arg_count: 2 },
            ),
        ),
        (
            "unalias"@,
            runtime_binding(
                "unalias"@,
                ValueView::BuiltinFunction { name: "unalias"@, arg_count: 1 },
            ),
        ),
        (
            "list_aliases"@,
            runtime_binding(
                "list_aliases"@,
                ValueView::BuiltinFunction { name: "list_aliases"@, arg_count: 0 },
            ),
        ),
        (
            "trigger"@,
            runtime_binding(
                "trigger"@,
                ValueView::BuiltinFunction { name: "trigger"@, arg_count: 1 },
            ),
        ),
        ("true"@, runtime_binding("true"@, ValueView::Boolean(Some(true)))),
        ("false"@, runtime_binding("false"@, ValueView::Boolean(Some(false)))),
        ("maybe"@, runtime_binding("maybe"@, ValueView::Boolean(None))),
    ]
}

fn runtime_entry<'a>(name: &str, value: DreamberdValue<'a>) -> (r: (String, NamespaceEntry<'a>))
    ensures
        r.0@ == name@,
        r.1@ == runtime_binding(name@, value_view(value)),
{
    let lifetime = VariableLifetime::new(value, LASTING, 100, true, true);
    let variable = Variable::new(String::from_str(name), lifetime);
    (String::from_str(name), NamespaceEntry::Variable(variable))
}

fn runtime_function<'a>(name: &str, arg_count: i32) -> (r: (String, NamespaceEntry<'a>))
    ensures
        r.0@ == name@,
        r.1@ == runtime_binding(name@, ValueView::BuiltinFunction { name: name@, arg_count }),
{
    runtime_entry(name, DreamberdValue::BuiltinFunction(create_builtin_function(name, arg_count)))
}

/// The global namespace of a fresh interpreter.
pub fn initialize_builtins<'a>() -> (ns: Namespace<'a>)
    ensures
        ns@ == initial_globals(),
{
    let mut entries: Vec<(String, NamespaceEntry<'a>)> = Vec::new();
    entries.push(runtime_function("print", -1));
    entries.push(runtime_function("sqrt", 1));
    entries.push(runtime_function("len", 1));
    entries.push(runtime_function("alias", 2));
    entries.push(runtime_function("unalias", 1));
    entries.push(runtime_function("list_aliases", 0));
    entries.push(runtime_function("trigger", 1));
    entries.push(runtime_entry("true", DreamberdValue::Boolean(DreamberdBoolean::true_val())));
    entries.push(runtime_entry("false", DreamberdValue::Boolean(DreamberdBoolean::false_val())));
    entries.push(runtime_entry("maybe", DreamberdValue::Boolean(DreamberdBoolean::maybe())));
    let ns = Namespace { entries };
    assert(ns@ =~= initial_globals());
    ns
}

/// The binding of a value kept from an earlier run: it cannot be reset or changed and
/// does not end.
pub open spec fn kept_binding(name: Seq<char>, value: ValueView, confidence: Option<i32>) -> EntryView {
    EntryView::Variable(
        VariableView {
            name,
            lifetimes: seq![
                LifetimeView {
                    value,
                    duration: u64::MAX,
                    confidence: match confidence {
                        Some(c) => c,
                        None => 100,
                    },
                    can_be_reset: false,
                    can_edit_value: false,
                    created_at: 0,
                    created_line: 0,
                    is_time_based: false,
                },
            ],
            prev_values: Seq::empty(),
        },
    )
}

/// The binding that a declaration makes at line `line` and second `now`: a variable
/// that may be reset and changed if `var` is among the modifiers, with the lifetime
/// that the declaration writes.
pub open spec fn declared_binding(
    name: Seq<char>,
    modifiers: Seq<Seq<char>>,
    lifetime: Option<Seq<char>>,
    confidence: i32,
    value: ValueView,
    line: u64,
    now: u64,
) -> EntryView {
    EntryView::Variable(
        VariableView {
            name,
            lifetimes: seq![
                LifetimeView {
                    value,
                    duration: crate::rules::duration_of(lifetime),
                    confidence,
                    can_be_reset: crate::rules::mentions(modifiers, "var"@),
                    can_edit_value: crate::rules::mentions(modifiers, "var"@),
                    created_at: now,
                    created_line: line,
                    is_time_based: crate::rules::counted_in_seconds(lifetime),
                },
            ],
            prev_values: Seq::empty(),
        },
    )
}

/// The binding that a function definition makes.
pub open spec fn function_binding(definition: FunctionDefinition) -> EntryView {
    runtime_binding(
        definition.name@,
        ValueView::Function {
            name: definition.name@,
            args: texts(definition.args@),
            code: crate::processor::syntax_tree::stmt_views(definition.body@),
            is_async: definition.is_async,
        },
    )
}

/// The names that the runtime brings are all different.
pub proof fn lemma_initial_globals_distinct()
    ensures
        crate::builtin::distinct_keys(initial_globals()),
{
    reveal_strlit("print");
    reveal_strlit("sqrt");
    reveal_strlit("len");
    reveal_strlit("alias");
    reveal_strlit("unalias");
    reveal_strlit("list_aliases");
    reveal_strlit("trigger");
    reveal_strlit("true");
    reveal_strlit("false");
    reveal_strlit("maybe");
    assert("print"@[0] != "alias"@[0]);
    assert("print"@[0] != "false"@[0]);
    assert("print"@[0] != "maybe"@[0]);
    assert("alias"@[0] != "false"@[0]);
    assert("alias"@[0] != "maybe"@[0]);
    assert("false"@[0] != "maybe"@[0]);
    assert("sqrt"@[0] != "true"@[0]);
    assert("unalias"@[0] != "trigger"@[0]);
    let g = initial_globals();
    assert(g.len() == 10);
    assert(g[0].0 == "print"@);
    assert(g[1].0 == "sqrt"@);
    assert(g[2].0 == "len"@);
    assert(g[3].0 == "alias"@);
    assert(g[4].0 == "unalias"@);
    assert(g[5].0 == "list_aliases"@);
    assert(g[6].0 == "trigger"@);
    assert(g[7].0 == "true"@);
    assert(g[8].0 == "false"@);
    assert(g[9].0 == "maybe"@);
}

impl<'a> Interpreter<'a> {
    /// Whether the interpreter is as it should be: it has a global namespace, and no
    /// namespace binds an identifier twice.
    pub open spec fn wf(&self) -> bool {
        self.namespaces@.len() >= 1 && tidy(self.namespaces@)
    }

    /// The state of the evaluator as the rules of the language see it.
    pub open spec fn machine(&self) -> Machine {
        Machine {
            stack: stack_view(self.namespaces@),
            line: self.current_line,
            whens: when_views(self.when_statements@),
            afters: after_views(self.after_statements@),
            aliases: self.aliases@,
            effects: effect_views(self.effects@),
            modules: module_views(self.modules@),
            filename: self.filename@,
        }
    }

    /// An interpreter for the program `code` of the file `filename`, which may import
    /// `modules`. Its one namespace holds what the runtime brings.
    pub fn new(filename: String, code: String, modules: &'a Vec<Module>) -> (it: Self)
        ensures
            it.wf(),
            stack_view(it.namespaces@) == seq![initial_globals()],
            it.filename == filename,
            it.code == code,
            it.current_line == 1,
            it.when_statements@.len() == 0,
            it.after_statements@.len() == 0,
            it.effects@.len() == 0,
            it.aliases@.len() == 0,
            it.modules == modules,
            it.depth_limit == DEFAULT_DEPTH_LIMIT,
    {
        let mut namespaces: Vec<Namespace<'a>> = Vec::new();
        proof {
            crate::scope::lemma_tidy(namespaces@);
            lemma_initial_globals_distinct();
        }
        enter(&mut namespaces, initialize_builtins());
        assert(stack_view(namespaces@) =~= seq![initial_globals()]);
        Interpreter {
            namespaces,
            filename,
            code,
            current_line: 1,
            when_statements: Vec::new(),
            after_statements: VecDeque::new(),
            aliases: AliasTable::new(),
            events: EventBus::new(),
            effects: Vec::new(),
            modules,
            clock: Clock::start(),
            depth_limit: DEFAULT_DEPTH_LIMIT,
        }
    }

    /// Binds, in the global namespace, a value kept from an earlier run.
    pub fn load_immutable_global(
        &mut self,
        name: String,
        value: DreamberdValue<'a>,
        confidence: Option<i32>,
    )
        requires
            old(self).namespaces@.len() >= 1,
        ensures
            follows(*final(self), *old(self)),
            stack_view(final(self).namespaces@) == stack_view(old(self).namespaces@).update(
                0,
                with_entry(
                    stack_view(old(self).namespaces@)[0],
                    name@,
                    kept_binding(name@, value_view(value), confidence),
                ),
            ),
            final(self).effects == old(self).effects,
            final(self).when_statements == old(self).when_statements,
            final(self).current_line == old(self).current_line,
    {
        let ghost before = stack_view(self.namespaces@);
        let percent = match confidence {
            Some(c) => c,
            None => 100,
        };
        let lifetime = VariableLifetime::new(value, u64::MAX, percent, false, false);
        let variable = Variable::new(name.clone(), lifetime);
        declare_global(&mut self.namespaces, name, NamespaceEntry::Variable(variable));
    }

    /// Takes out of every namespace the variables whose active lifetime has ended at
    /// the present line and at second `now`.
    pub fn cleanup_expired_variables(&mut self, now: u64)
        ensures
            final(self).machine() == swept(old(self).machine(), now),
            stack_view(final(self).namespaces@) == swept_all(
                stack_view(old(self).namespaces@),
                old(self).current_line,
                now,
            ),
            final(self).namespaces@.len() == old(self).namespaces@.len(),
            tidy(old(self).namespaces@) ==> tidy(final(self).namespaces@),
            final(self).effects == old(self).effects,
            final(self).when_statements == old(self).when_statements,
            final(self).after_statements == old(self).after_statements,
            final(self).current_line == old(self).current_line,
            final(self).depth_limit == old(self).depth_limit,
            final(self).modules == old(self).modules,
    {
        sweep_all(&mut self.namespaces, self.current_line, now);
    }

    /// Takes all effects that wait, in the order in which they were asked for.
    pub fn take_effects(&mut self) -> (taken: Vec<Effect<'a>>)
        ensures
            taken == old(self).effects,
            final(self).effects@.len() == 0,
            final(self).namespaces == old(self).namespaces,
            final(self).when_statements == old(self).when_statements,
            final(self).current_line == old(self).current_line,
    {
        let mut taken: Vec<Effect<'a>> = Vec::new();
        std::mem::swap(&mut self.effects, &mut taken);
        taken
    }

    pub(crate) fn notice(&mut self, parts: &Vec<&str>)
        ensures
            final(self).machine() == with_notice(old(self).machine(), joined(parts@)),
            final(self).effects@ == old(self).effects@.push(final(self).effects@.last()),
            final(self).effects@.last() is Notice,
            final(self).effects@.last()->Notice_0@ == joined(parts@),
            final(self).namespaces == old(self).namespaces,
            final(self).when_statements == old(self).when_statements,
            final(self).after_statements == old(self).after_statements,
            final(self).current_line == old(self).current_line,
            final(self).depth_limit == old(self).depth_limit,
            final(self).modules == old(self).modules,
            final(self).aliases == old(self).aliases,
    {
        let text = concatenated(parts);
        self.effects.push(Effect::Notice(text));
        assert(self.machine().effects =~= old(self).machine().effects.push(
            EffectView::Notice(joined(parts@)),
        ));
    }

    /// Binds a declared variable in the innermost namespace. A declaration with three
    /// or more modifiers that are all `const` also asks to keep the binding for later
    /// runs.
    pub fn declare_variable(
        &mut self,
        name: &str,
        modifiers: &Vec<String>,
        lifetime: &Option<String>,
        confidence: i32,
        value: DreamberdValue<'a>,
        now: u64,
    )
        requires
            old(self).namespaces@.len() >= 1,
        ensures
            follows(*final(self), *old(self)),
            final(self).machine() == declared_machine(
                old(self).machine(),
                name@,
                texts(modifiers@),
                match *lifetime {
                    Some(t) => Some(t@),
                    None => None,
                },
                confidence,
                value_view(value),
                now,
            ),
            stack_view(final(self).namespaces@) == declared(
                stack_view(old(self).namespaces@),
                name@,
                declared_binding(
                    name@,
                    texts(modifiers@),
                    match *lifetime {
                        Some(t) => Some(t@),
                        None => None,
                    },
                    confidence,
                    value_view(value),
                    old(self).current_line,
                    now,
                ),
            ),
            final(self).namespaces@.len() == old(self).namespaces@.len(),
            crate::rules::declares_global(texts(modifiers@)) ==> {
                &&& final(self).effects@.len() == old(self).effects@.len() + 1
                &&& final(self).effects@.last() matches Effect::StoreGlobal {
                    name: stored,
                    value: kept,
                    confidence: percent,
                } && stored@ == name@ && value_view(kept) == value_view(value) && percent
                    == confidence
            },
            !crate::rules::declares_global(texts(modifiers@)) ==> final(self).effects == old(
                self,
            ).effects,
            final(self).when_statements == old(self).when_statements,
            final(self).after_statements == old(self).after_statements,
            final(self).current_line == old(self).current_line,
    {
        if is_global_declaration(modifiers) {
            self.effects.push(
                Effect::StoreGlobal {
                    name: String::from_str(name),
                    value: copy_value(&value),
                    confidence,
                },
            );
        }
        let changeable = has_modifier(modifiers, "var");
        let (duration, timed) = read_lifetime(lifetime);
        let lifetime = VariableLifetime::new_with_tracking(
            value,
            duration,
            confidence,
            changeable,
            changeable,
            self.current_line,
            timed,
            now,
        );
        let variable = Variable::new(String::from_str(name), lifetime);
        declare(&mut self.namespaces, String::from_str(name), NamespaceEntry::Variable(variable));
        proof {
            if crate::rules::declares_global(texts(modifiers@)) {
                assert(self.machine().effects =~= old(self).machine().effects.push(
                    EffectView::StoreGlobal {
                        name: name@,
                        value: value_view(value),
                        confidence,
                    },
                ));
            }
        }
    }

    /// Binds the function that a definition defines in the innermost namespace.
    pub fn execute_function_definition(&mut self, func_def: &'a FunctionDefinition)
        requires
            old(self).namespaces@.len() >= 1,
        ensures
            follows(*final(self), *old(self)),
            final(self).machine() == with_stack(
                old(self).machine(),
                declared(
                    stack_view(old(self).namespaces@),
                    func_def.name@,
                    function_binding(*func_def),
                ),
            ),
            stack_view(final(self).namespaces@) == declared(
                stack_view(old(self).namespaces@),
                func_def.name@,
                function_binding(*func_def),
            ),
            final(self).namespaces@.len() == old(self).namespaces@.len(),
            final(self).effects == old(self).effects,
            final(self).when_statements == old(self).when_statements,
            final(self).after_statements == old(self).after_statements,
            final(self).current_line == old(self).current_line,
    {
        let function = DreamberdFunction {
            name: func_def.name.clone(),
            args: copy_texts(&func_def.args),
            code: &func_def.body,
            is_async: func_def.is_async,
        };
        let lifetime = VariableLifetime::new(
            DreamberdValue::Function(function),
            LASTING,
            100,
            true,
            true,
        );
        let variable = Variable::new(func_def.name.clone(), lifetime);
        declare(&mut self.namespaces, func_def.name.clone(), NamespaceEntry::Variable(variable));
    }

    /// Puts an `after` statement into the queue of those that wait for their event.
    pub fn execute_after_statement(&mut self, after_stmt: &'a AfterStatement)
        requires
            old(self).namespaces@.len() >= 1,
        ensures
            follows(*final(self), *old(self)),
            final(self).machine() == (Machine {
                afters: old(self).machine().afters.push(crate::semantics::after_view(*after_stmt)),
                ..old(self).machine()
            }),
            final(self).after_statements@ == old(self).after_statements@.push(after_stmt),
            final(self).namespaces == old(self).namespaces,
            final(self).effects == old(self).effects,
            final(self).when_statements == old(self).when_statements,
            final(self).current_line == old(self).current_line,
    {
        self.after_statements.push_back(after_stmt);
        assert(self.machine().afters =~= old(self).machine().afters.push(
            crate::semantics::after_view(*after_stmt),
        ));
    }

    /// Undoes the latest change of the first variable that has a history, and tells
    /// what it did.
    pub fn execute_reverse_statement(&mut self)
        requires
            old(self).namespaces@.len() >= 1,
        ensures
            follows(*final(self), *old(self)),
            crate::semantics::reverse_step(old(self).machine(), final(self).machine()),
            stack_view(final(self).namespaces@) == reversed(stack_view(old(self).namespaces@)),
            final(self).namespaces@.len() == old(self).namespaces@.len(),
            final(self).effects@.len() == old(self).effects@.len() + 1,
            final(self).effects@.last() is Notice,
            final(self).when_statements == old(self).when_statements,
            final(self).after_statements == old(self).after_statements,
            final(self).current_line == old(self).current_line,
    {
        match reverse(&mut self.namespaces) {
            Some(name) => {
                let mut parts: Vec<&str> = Vec::new();
                parts.push("Reversed variable '");
                parts.push(name.as_str());
                parts.push("' to previous value");
                self.notice(&parts);
            },
            None => {
                let mut parts: Vec<&str> = Vec::new();
                parts.push("No operations to reverse");
                self.notice(&parts);
            },
        }
    }

    /// Asks to write the variable `export.name` as source text to the file
    /// `export.target_file`. Fails if no variable of that name has a value.
    pub fn execute_export_statement<N: Arithmetic>(
        &mut self,
        export_stmt: &ExportStatement,
        ops: &N,
    ) -> (r: Result<(), DreamberdError>)
        requires
            old(self).namespaces@.len() >= 1,
        ensures
            follows(*final(self), *old(self)),
            crate::semantics::export_step(
                ops,
                old(self).machine(),
                export_stmt.name@,
                export_stmt.target_file@,
                final(self).machine(),
                statement_outcome(r),
            ),
            final(self).namespaces == old(self).namespaces,
            final(self).when_statements == old(self).when_statements,
            final(self).after_statements == old(self).after_statements,
            final(self).current_line == old(self).current_line,
            match crate::scope::variable_value(
                stack_view(old(self).namespaces@),
                export_stmt.name@,
            ) {
                Some(value) => {
                    &&& r is Ok
                    &&& final(self).effects@.len() == old(self).effects@.len() + 2
                    &&& final(self).effects@[old(self).effects@.len() as int] matches Effect::WriteFile {
                        path,
                        content,
                    } && path@ == export_stmt.target_file@ && writes_declaration(
                        ops,
                        export_stmt.name@,
                        value,
                        content@,
                    ) && (plain(value) ==> content@ == declaration_source(
                        export_stmt.name@,
                        value,
                    ))
                },
                None => r is Err && r->Err_0 is InterpretationError && final(self).effects == old(
                    self,
                ).effects,
            },
    {
        let value = match value_of_variable(&self.namespaces, export_stmt.name.as_str()) {
            Some(v) => v,
            None => {
                let mut parts: Vec<&str> = Vec::new();
                parts.push("Cannot export undefined variable '");
                parts.push(export_stmt.name.as_str());
                parts.push("'");
                return Err(formatted_error(&parts));
            },
        };
        let content = serialize_value_to_code(export_stmt.name.as_str(), &value, ops);
        let ghost written = content@;
        self.effects.push(
            Effect::WriteFile { path: export_stmt.target_file.clone(), content },
        );
        assert(self.machine().effects =~= old(self).machine().effects.push(
            EffectView::WriteFile { path: export_stmt.target_file@, content: written },
        ));
        let mut parts: Vec<&str> = Vec::new();
        parts.push("Successfully exported variable '");
        parts.push(export_stmt.name.as_str());
        parts.push("' to '");
        parts.push(export_stmt.target_file.as_str());
        parts.push("'");
        self.notice(&parts);
        Ok(())
    }
}

/// The first `n` values as one line: each as text, set apart by single spaces.
pub open spec fn spaced(values: Seq<ValueView>, n: nat) -> Seq<char>
    decreases n,
{
    if n == 0 || n > values.len() {
        Seq::empty()
    } else if n == 1 {
        crate::builtin::rendered(values[0])
    } else {
        spaced(values, (n - 1) as nat) + " "@ + crate::builtin::rendered(values[n - 1])
    }
}

/// Whether none of the values holds a number.
pub open spec fn all_number_free(values: Seq<ValueView>) -> bool {
    forall|i: int| 0 <= i < values.len() ==> crate::builtin::number_free(#[trigger] values[i])
}

/// The first `n` of some texts, set apart by single spaces.
pub open spec fn spaced_texts(texts: Seq<Seq<char>>, n: nat) -> Seq<char>
    decreases n,
{
    if n == 0 || n > texts.len() {
        Seq::empty()
    } else if n == 1 {
        texts[0]
    } else {
        spaced_texts(texts, (n - 1) as nat) + " "@ + texts[n - 1]
    }
}

/// Whether `line` is the line that `print` writes for some values, with `ops` writing
/// the numbers: the values as text, set apart by single spaces.
pub open spec fn prints<N: Arithmetic>(ops: &N, values: Seq<ValueView>, line: Seq<char>) -> bool {
    exists|texts: Seq<Seq<char>>|
        texts.len() == values.len() && (forall|i: int|
            0 <= i < values.len() ==> crate::builtin::renders(
                ops,
                values[i],
                #[trigger] texts[i],
            )) && line == spaced_texts(texts, texts.len())
}

proof fn lemma_spaced_prefix(texts: Seq<Seq<char>>, more: Seq<char>, n: nat)
    requires
        n <= texts.len(),
    ensures
        spaced_texts(texts.push(more), n) == spaced_texts(texts, n),
    decreases n,
{
    if n > 1 {
        lemma_spaced_prefix(texts, more, (n - 1) as nat);
        assert(texts.push(more)[n - 1] == texts[n - 1]);
    } else if n == 1 {
        assert(texts.push(more)[0] == texts[0]);
    }
}

/// The line that `print` writes for some values.
pub fn print_line<'a, N: Arithmetic>(args: &Vec<DreamberdValue<'a>>, ops: &N) -> (line: String)
    ensures
        prints(ops, value_views(args@), line@),
        all_number_free(value_views(args@)) ==> line@ == spaced(value_views(args@), args@.len()),
{
    let mut line = String::new();
    let ghost values = value_views(args@);
    let ghost mut texts: Seq<Seq<char>> = Seq::empty();
    let mut i: usize = 0;
    assert(line@ =~= spaced_texts(texts, 0));
    while i < args.len()
        invariant
            i <= args.len(),
            values == value_views(args@),
            all_number_free(values) ==> line@ == spaced(values, i as nat),
            texts.len() == i,
            forall|j: int|
                0 <= j < i ==> crate::builtin::renders(ops, values[j], #[trigger] texts[j]),
            line@ == spaced_texts(texts, i as nat),
        decreases args.len() - i,
    {
        if i > 0 {
            append_text(&mut line, " ");
        }
        let text = db_to_string(&args[i], ops);
        append_text(&mut line, text.value.as_str());
        proof {
            let before = texts;
            texts = texts.push(text.value@);
            assert forall|j: int| 0 <= j < i + 1 implies crate::builtin::renders(
                ops,
                values[j],
                #[trigger] texts[j],
            ) by {
                if j < i {
                    assert(texts[j] == before[j]);
                }
            }
            lemma_spaced_prefix(before, text.value@, before.len());
            assert(texts[i as int] == text.value@);
            assert(line@ =~= spaced_texts(texts, (i + 1) as nat));
            if all_number_free(values) {
                assert(crate::builtin::number_free(values[i as int]));
                assert(line@ =~= spaced(values, (i + 1) as nat));
            }
        }
        i += 1;
    }
    assert(values.len() == args@.len());
    line
}

/// The error of an index assignment by statement that ended as `outcome` says.
pub(crate) fn index_assignment_error(name: &str, outcome: ItemAssignment, index: i64) -> (e: DreamberdError)
    requires
        !(outcome is Done),
    ensures
        e is InterpretationError,
        failure_of(e) == item_failure(name@, outcome, index as int),
{
    let mut parts: Vec<&str> = Vec::new();
    match outcome {
        ItemAssignment::Done => {
            parts.push("Index must be a number");
            formatted_error(&parts)
        },
        ItemAssignment::OutOfBounds(n) => {
            let index_text = signed_text(index);
            let length_text = decimal_text(n as u64);
            parts.push("Index ");
            parts.push(index_text.as_str());
            parts.push(" out of bounds for list of length ");
            parts.push(length_text.as_str());
            formatted_error(&parts)
        },
        ItemAssignment::NotAList => {
            parts.push("Variable '");
            parts.push(name);
            parts.push("' is not a list");
            formatted_error(&parts)
        },
        ItemAssignment::IsName => {
            parts.push("Cannot assign to index of a name");
            formatted_error(&parts)
        },
        ItemAssignment::Missing => {
            parts.push("Variable '");
            parts.push(name);
            parts.push("' not found");
            formatted_error(&parts)
        },
    }
}

pub(crate) fn clamp_to_i32(n: i64) -> (r: i64)
    ensures
        r == if n > i32::MAX {
            i32::MAX as i64
        } else if n < i32::MIN {
            i32::MIN as i64
        } else {
            n
        },
{
    if n > 0x7FFF_FFFF {
        0x7FFF_FFFF
    } else if n < -0x8000_0000 {
        -0x8000_0000
    } else {
        n
    }
}

impl<'a> Interpreter<'a> {
    /// Runs the runtime function called `name` on `args`. `print` asks for a line to
    /// be printed; `alias` and `unalias` change the aliases; `trigger` publishes an
    /// event; `sqrt` and `len` compute; an unknown name yields undefined.
    pub fn call_builtin<N: Arithmetic>(
        &mut self,
        name: &str,
        args: &Vec<DreamberdValue<'a>>,
        ops: &N,
    ) -> (r: DreamberdValue<'a>)
        requires
            old(self).namespaces@.len() >= 1,
        ensures
            follows(*final(self), *old(self)),
            builtin_step(
                ops,
                old(self).machine(),
                name@,
                value_views(args@),
                final(self).machine(),
                value_view(r),
            ),
            final(self).namespaces == old(self).namespaces,
            final(self).when_statements == old(self).when_statements,
            final(self).after_statements == old(self).after_statements,
            final(self).current_line == old(self).current_line,
            name@ == "print"@ ==> {
                &&& final(self).effects@.len() == old(self).effects@.len() + 1
                &&& final(self).effects@.last() is Print
                &&& prints(ops, value_views(args@), final(self).effects@.last()->Print_0@)
                &&& all_number_free(value_views(args@)) ==> final(self).effects@.last()->Print_0@
                    == spaced(value_views(args@), args@.len())
                &&& value_view(r) == ValueView::Undefined
                &&& final(self).aliases == old(self).aliases
            },
            name@ != "print"@ ==> final(self).effects == old(self).effects,
            name@ == "unalias"@ && args@.len() >= 1 && value_view(args@[0]) is String ==> {
                let alias = value_view(args@[0])->String_0;
                let known = crate::alias::aliased(old(self).aliases@, alias) is Some;
                &&& value_view(r) == ValueView::Boolean(Some(known))
                &&& known ==> final(self).aliases@ == old(self).aliases@.remove(
                    crate::alias::find_alias(old(self).aliases@, alias, 0),
                )
                &&& !known ==> final(self).aliases@ == old(self).aliases@
            },
            name@ == "list_aliases"@ ==> {
                &&& value_view(r) == (ValueView::Mapping {
                    values: aliases_listed(old(self).aliases@, old(self).aliases@.len()),
                })
                &&& final(self).aliases == old(self).aliases
            },
            name@ == "sqrt"@ ==> final(self).aliases == old(self).aliases && (if args@.len() >= 1
                && value_view(args@[0]) is Number {
                value_view(r) is Number && call_ensures(
                    N::square_root,
                    (ops, value_view(args@[0])->Number_0),
                    value_view(r)->Number_0,
                )
            } else {
                value_view(r) == ValueView::Undefined
            }),
            name@ == "len"@ ==> final(self).aliases == old(self).aliases && (if args@.len() >= 1
                && measure(value_view(args@[0])) is Some {
                value_view(r) is Number && call_ensures(
                    N::from_count,
                    (ops, measure(value_view(args@[0]))->0),
                    value_view(r)->Number_0,
                )
            } else {
                value_view(r) == ValueView::Undefined
            }),
            name@ == "trigger"@ ==> value_view(r) is Boolean && final(self).aliases == old(
                self,
            ).aliases,
            name@ == "alias"@ && args@.len() >= 2 && value_view(args@[0]) is String && value_view(
                args@[1],
            ) is String ==> {
                let original = value_view(args@[0])->String_0;
                let new_name = value_view(args@[1])->String_0;
                let ok = crate::alias::admissible(old(self).aliases@, original, new_name);
                &&& value_view(r) == ValueView::Boolean(Some(ok))
                &&& ok ==> final(self).aliases@ == old(self).aliases@.push((new_name, original))
                &&& !ok ==> final(self).aliases@ == old(self).aliases@
            },
    {
        proof {
            reveal_strlit("print");
            reveal_strlit("sqrt");
            reveal_strlit("len");
            reveal_strlit("alias");
            reveal_strlit("unalias");
            reveal_strlit("list_aliases");
            reveal_strlit("trigger");
            assert("print"@.len() == 5);
            assert("sqrt"@.len() == 4);
            assert("len"@.len() == 3);
            assert("alias"@.len() == 5);
            assert("unalias"@.len() == 7);
            assert("list_aliases"@.len() == 12);
            assert("trigger"@.len() == 7);
            assert("print"@[0] != "alias"@[0]);
            assert("unalias"@[0] != "trigger"@[0]);
        }
        if same_text(name, "print") {
            let line = print_line(args, ops);
            let ghost printed = line@;
            self.effects.push(Effect::Print(line));
            assert(self.machine().effects =~= old(self).machine().effects.push(
                EffectView::Print(printed),
            ));
            return undefined_value();
        }
        if same_text(name, "sqrt") {
            if args.len() > 0 {
                if let DreamberdValue::Number(n) = &args[0] {
                    let bits = ops.square_root(n.bits);
                    assert(call_ensures(N::square_root, (ops, n.bits), bits));
                    return DreamberdValue::Number(DreamberdNumber::new(bits));
                }
            }
            return undefined_value();
        }
        if same_text(name, "len") {
            if args.len() > 0 {
                match &args[0] {
                    DreamberdValue::String(s) => {
                        let n = s.value.as_str().unicode_len();
                        let bits = ops.from_count(n);
                        assert(call_ensures(N::from_count, (ops, n), bits));
                        return DreamberdValue::Number(DreamberdNumber::new(bits));
                    },
                    DreamberdValue::List(l) => {
                        assert(value_views(l.values@).len() == l.values@.len());
                        let n = l.values.len();
                        let bits = ops.from_count(n);
                        assert(call_ensures(N::from_count, (ops, n), bits));
                        return DreamberdValue::Number(DreamberdNumber::new(bits));
                    },
                    _ => {},
                }
            }
            return undefined_value();
        }
        if same_text(name, "alias") {
            if args.len() >= 2 {
                if let DreamberdValue::String(original) = &args[0] {
                    if let DreamberdValue::String(new_name) = &args[1] {
                        let ok = alias(
                            &mut self.aliases,
                            original.value.as_str(),
                            new_name.value.as_str(),
                        );
                        return bool_value(ok);
                    }
                }
            }
            return bool_value(false);
        }
        if same_text(name, "unalias") {
            if args.len() >= 1 {
                if let DreamberdValue::String(name) = &args[0] {
                    let ok = unalias(&mut self.aliases, name.value.as_str());
                    return bool_value(ok);
                }
            }
            return bool_value(false);
        }
        if same_text(name, "list_aliases") {
            let listed = list_aliases(&self.aliases);
            let mut map = DreamberdMap::new();
            let mut i: usize = 0;
            let ghost table = self.aliases@;
            assert(entry_views(map.values@) =~= aliases_listed(table, 0));
            while i < listed.len()
                invariant
                    i <= listed.len(),
                    crate::alias::alias_views(listed@) == table,
                    entry_views(map.values@) == aliases_listed(table, i as nat),
                decreases listed.len() - i,
            {
                assert(crate::alias::alias_views(listed@)[i as int] == (
                    listed@[i as int].0@,
                    listed@[i as int].1@,
                ));
                map.insert(
                    listed[i].0.clone(),
                    DreamberdValue::String(DreamberdString::new(listed[i].1.clone())),
                );
                i += 1;
            }
            return DreamberdValue::Mapping(map);
        }
        if same_text(name, "trigger") {
            if args.len() >= 1 {
                if let DreamberdValue::String(text) = &args[0] {
                    let ev = parse_event(text.value.as_str());
                    let sent = self.events.publish(ev);
                    return bool_value(sent);
                }
            }
            return bool_value(false);
        }
        undefined_value()
    }

    /// The value of a token that is a literal or a name: a text for a string, a
    /// number for a numeral, and for a name what it is bound to. An unbound name and
    /// any other kind of token are errors.
    pub fn value_of_token<N: Arithmetic>(&self, token: &Token, ops: &N) -> (r: Result<
        DreamberdValue<'a>,
        DreamberdError,
    >)
        ensures
            token_outcome(ops, self.machine(), token@, value_outcome(r)),
            token.token_type == TokenType::String ==> r is Ok && value_view(r->Ok_0)
                == ValueView::String(token.value@),
            token.token_type == TokenType::Number ==> r is Ok && value_view(r->Ok_0) is Number
                && crate::builtin::reads_number(ops, token.value@, value_view(r->Ok_0)->Number_0),
            token.token_type == TokenType::Name ==> match crate::scope::resolve(
                stack_view(self.namespaces@),
                token.value@,
            ) {
                Some(e) => r is Ok && value_view(r->Ok_0) == crate::scope::entry_value(e),
                None => r is Err && r->Err_0 is NonFormattedError,
            },
            token.token_type != TokenType::String && token.token_type != TokenType::Number
                && token.token_type != TokenType::Name ==> r is Err && r->Err_0
                is NonFormattedError,
    {
        match token.token_type {
            TokenType::String => Ok(
                DreamberdValue::String(DreamberdString::new(token.value.clone())),
            ),
            TokenType::Number => {
                let text = token.value.as_str();
                let parsed = ops.parse(text);
                assert(call_ensures(N::parse, (ops, text), parsed));
                Ok(DreamberdValue::Number(number_read(parsed)))
            },
            TokenType::Name => match lookup(&self.namespaces, token.value.as_str()) {
                Some(v) => Ok(v),
                None => {
                    let mut parts: Vec<&str> = Vec::new();
                    parts.push("Undefined variable: ");
                    parts.push(token.value.as_str());
                    Err(bare_error(&parts))
                },
            },
            _ => {
                let mut parts: Vec<&str> = Vec::new();
                parts.push("Unexpected token type in value node: ");
                parts.push(token_type_name(token.token_type));
                Err(bare_error(&parts))
            },
        }
    }

    /// Runs the statements of a program, or of one line of it, one after the other.
    /// Before each statement what has expired is swept out and the events that wait
    /// are handled; after each the line counter goes up by one. A statement that
    /// returns a value ends the run. At the end the `after` statements that still
    /// wait are run, and events are handled once more. What was done is a valid run
    /// of the statements as a block.
    pub fn interpret_code_statements<N: Arithmetic>(
        &mut self,
        statements: &'a Vec<CodeStatement>,
        ops: &N,
    ) -> (r: Result<Option<DreamberdValue<'a>>, DreamberdError>)
        requires
            old(self).namespaces@.len() >= 1,
        ensures
            exists|run: Run| #[trigger]
                valid(ops, run) && performed(
                    run,
                    block_run(statements@, old(self).depth_limit),
                    *old(self),
                    *final(self),
                    maybe_outcome(r),
                ),
            follows(*final(self), *old(self)),
            old(self).wf() ==> final(self).wf(),
            r is Ok ==> final(self).namespaces@.len() == old(self).namespaces@.len(),
            r is Ok ==> final(self).after_statements@.len() == 0,
            statements@.len() == 0 && old(self).after_statements@.len() == 0 ==> r is Ok && r->Ok_0
                is None && *final(self) == *old(self),
    {
        let depth = self.depth_limit;
        let (r, Ghost(run)) = self.run_block(statements, ops, depth);
        assert(valid(ops, run));
        r
    }

    /// Handles the events that wait and runs the `after` statements that wait: one
    /// round of waiting for events once a program has finished. What was done is a
    /// valid run of handling the events and, unless that failed, a valid run of the
    /// `after` statements from the state that it left.
    pub fn run_pending<N: Arithmetic>(&mut self, ops: &N) -> (r: Result<(), DreamberdError>)
        requires
            old(self).namespaces@.len() >= 1,
        ensures
            exists|polled: Run, flushed: Run|
                {
                    &&& #[trigger] valid(ops, polled)
                    &&& polled.kind == RunKind::Poll { depth: old(self).depth_limit as nat }
                    &&& polled.before == old(self).machine()
                    &&& if polled.result is Failed {
                        final(self).machine() == polled.after && done_outcome(r) == polled.result
                    } else {
                        &&& #[trigger] valid(ops, flushed)
                        &&& flushed.kind == RunKind::Flush { depth: old(self).depth_limit as nat }
                        &&& flushed.before == polled.after
                        &&& flushed.after == final(self).machine()
                        &&& flushed.result == done_outcome(r)
                    }
                },
            follows(*final(self), *old(self)),
            old(self).wf() ==> final(self).wf(),
            r is Ok ==> final(self).namespaces@.len() == old(self).namespaces@.len(),
            r is Ok ==> final(self).after_statements@.len() == 0,
    {
        let depth = self.depth_limit;
        let (polled, Ghost(first)) = self.poll_input_events(ops, depth);
        match polled {
            Ok(()) => {},
            Err(e) => {
                assert(valid(ops, first));
                return Err(e);
            },
        }
        let (r, Ghost(second)) = self.execute_scheduled_after_statements(ops, depth);
        assert(valid(ops, first) && valid(ops, second));
        r
    }

    /// Gives one statement of a program its turn, as a block does: what has expired is
    /// swept out, the events that wait are handled, the statement runs, and the line
    /// counter goes up by one. Gives the value that the statement returned, if it
    /// returned one. What was done is a valid run of the turn. A program whose
    /// statements have their turns one by one and that is then closed has run as
    /// `interpret_code_statements` runs it; between the turns a caller may do what the
    /// evaluator asked of the world.
    pub fn run_turn<N: Arithmetic>(&mut self, statement: &'a CodeStatement, ops: &N) -> (r: Result<
        Option<DreamberdValue<'a>>,
        DreamberdError,
    >)
        requires
            old(self).namespaces@.len() >= 1,
        ensures
            exists|run: Run| #[trigger]
                valid(ops, run) && performed(
                    run,
                    RunKind::Turn {
                        statement: stmt_view(*statement),
                        depth: old(self).depth_limit as nat,
                    },
                    *old(self),
                    *final(self),
                    maybe_outcome(r),
                ),
            follows(*final(self), *old(self)),
            old(self).wf() ==> final(self).wf(),
            r is Ok ==> final(self).namespaces@.len() == old(self).namespaces@.len(),
    {
        let depth = self.depth_limit;
        let (r, Ghost(run)) = self.take_turn(statement, ops, depth);
        assert(valid(ops, run));
        r
    }

    /// Closes a program whose statements have had their turns: the `after` statements
    /// that still wait are run, and then the events that wait are handled. What was
    /// done is a valid run of the closing of a block.
    pub fn close<N: Arithmetic>(&mut self, ops: &N) -> (r: Result<(), DreamberdError>)
        requires
            old(self).namespaces@.len() >= 1,
        ensures
            exists|run: Run| #[trigger]
                valid(ops, run) && performed(
                    run,
                    RunKind::Closing { depth: old(self).depth_limit as nat },
                    *old(self),
                    *final(self),
                    done_outcome(r),
                ),
            follows(*final(self), *old(self)),
            old(self).wf() ==> final(self).wf(),
            r is Ok ==> final(self).namespaces@.len() == old(self).namespaces@.len(),
            r is Ok ==> final(self).after_statements@.len() == 0,
    {
        let depth = self.depth_limit;
        let (r, Ghost(run)) = self.close_block(ops, depth);
        assert(valid(ops, run));
        r
    }

    /// Handles one input event: the `after` statements that wait for it leave the
    /// queue, in the order in which they waited, and their bodies are run. With nothing
    /// in the queue nothing happens. What was done is a valid run of handling the
    /// event.
    pub fn process_input_event<N: Arithmetic>(&mut self, ev: &InputEvent, ops: &N) -> (r: Result<
        (),
        DreamberdError,
    >)
        requires
            old(self).namespaces@.len() >= 1,
        ensures
            exists|run: Run| #[trigger]
                valid(ops, run) && performed(
                    run,
                    RunKind::Event { event: ev@, depth: old(self).depth_limit as nat },
                    *old(self),
                    *final(self),
                    done_outcome(r),
                ),
            follows(*final(self), *old(self)),
            old(self).wf() ==> final(self).wf(),
            r is Ok ==> final(self).namespaces@.len() == old(self).namespaces@.len(),
            old(self).after_statements@.len() == 0 ==> r is Ok && *final(self) == *old(self),
    {
        let depth = self.depth_limit;
        let (r, Ghost(run)) = self.process_event_within(ev, ops, depth);
        assert(valid(ops, run));
        r
    }
}

/// The names of the files that a statement imports, in the order in which the import
/// statements stand, those inside blocks among them.
pub open spec fn imports_of(statement: StmtView) -> Seq<Seq<char>>
    decreases statement,
{
    match statement {
        StmtView::ImportStatement { name } => seq![name],
        StmtView::FunctionDefinition { body, .. } => imports_in(body, body.len()),
        StmtView::ClassDeclaration { body, .. } => imports_in(body, body.len()),
        StmtView::Conditional { body, else_body, .. } => imports_in(body, body.len()) + (match else_body {
            Some(other) => imports_in(other, other.len()),
            None => Seq::empty(),
        }),
        StmtView::WhenStatement { body, .. } => imports_in(body, body.len()),
        StmtView::AfterStatement { body, .. } => imports_in(body, body.len()),
        _ => Seq::empty(),
    }
}

/// The names of the files that the first `n` of some statements import.
pub open spec fn imports_in(statements: Seq<StmtView>, n: nat) -> Seq<Seq<char>>
    decreases statements, n,
{
    if n == 0 || n > statements.len() {
        Seq::empty()
    } else {
        imports_in(statements, (n - 1) as nat) + imports_of(statements[n - 1])
    }
}

fn collect_imports(statements: &Vec<CodeStatement>, names: &mut Vec<String>)
    ensures
        texts(final(names)@) == texts(old(names)@) + imports_in(
            stmt_views(statements@),
            statements@.len(),
        ),
    decreases statements,
{
    let mut i: usize = 0;
    assert(texts(names@) + imports_in(stmt_views(statements@), 0) =~= texts(names@));
    while i < statements.len()
        invariant
            i <= statements.len(),
            texts(names@) == texts(old(names)@) + imports_in(stmt_views(statements@), i as nat),
        decreases statements.len() - i,
    {
        let ghost before = texts(names@);
        let ghost views = stmt_views(statements@);
        assert(views[i as int] == stmt_view(statements@[i as int]));
        collect_imports_of(&statements[i], names);
        assert(texts(names@) =~= texts(old(names)@) + imports_in(views, (i + 1) as nat));
        i += 1;
    }
}

fn collect_imports_of(statement: &CodeStatement, names: &mut Vec<String>)
    ensures
        texts(final(names)@) == texts(old(names)@) + imports_of(stmt_view(*statement)),
    decreases statement,
{
    let ghost before = texts(names@);
    match statement {
        CodeStatement::ImportStatement(import) => {
            proof {
                lemma_push_name(names@, import.name);
            }
            names.push(import.name.clone());
            assert(texts(names@) =~= before + seq![import.name@]);
        },
        CodeStatement::FunctionDefinition(f) => {
            collect_imports(&f.body, names);
            assert(stmt_views(f.body@).len() == f.body@.len());
        },
        CodeStatement::ClassDeclaration(c) => {
            collect_imports(&c.body, names);
            assert(stmt_views(c.body@).len() == c.body@.len());
        },
        CodeStatement::Conditional(c) => {
            collect_imports(&c.body, names);
            assert(stmt_views(c.body@).len() == c.body@.len());
            match &c.else_body {
                Some(other) => {
                    collect_imports(other, names);
                    assert(stmt_views(other@).len() == other@.len());
                    assert(texts(names@) =~= before + (imports_in(
                        stmt_views(c.body@),
                        c.body@.len(),
                    ) + imports_in(stmt_views(other@), other@.len())));
                },
                None => {
                    assert(texts(names@) =~= before + (imports_in(
                        stmt_views(c.body@),
                        c.body@.len(),
                    ) + Seq::<Seq<char>>::empty()));
                },
            }
        },
        CodeStatement::WhenStatement(w) => {
            collect_imports(&w.body, names);
            assert(stmt_views(w.body@).len() == w.body@.len());
        },
        CodeStatement::AfterStatement(a) => {
            collect_imports(&a.body, names);
            assert(stmt_views(a.body@).len() == a.body@.len());
        },
        _ => {
            assert(texts(names@) =~= before + Seq::<Seq<char>>::empty());
        },
    }
}

/// The names of the files that some statements import, those inside blocks among
/// them: the files that must be at hand before the statements are run.
pub fn imported_names(statements: &Vec<CodeStatement>) -> (names: Vec<String>)
    ensures
        texts(names@) == imports_in(stmt_views(statements@), statements@.len()),
{
    let mut names: Vec<String> = Vec::new();
    collect_imports(statements, &mut names);
    assert(texts(names@) =~= imports_in(stmt_views(statements@), statements@.len()));
    names
}

} // verus!
