//! What running a program means. A run is a tree: every node is one use of a rule of
//! the language, with the state before and after it, its result, and the runs of
//! its parts. What the evaluator does is always such a run.

use crate::alias::{admissible, aliased, canonical_token, find_alias, AliasView};
use crate::base::{line_error_text, OperatorType, TokenType, TokenView};
use crate::binding::{bound, EntryView, LifetimeView, NameView, NamespaceView, VariableView};
use crate::builtin::{fresh_indexer, negated, reads_number, truth_of, with_entry, ValueView};
use crate::events::{key_of, sets_off, EventView};
use crate::number::{Arithmetic, IndexParts};
use crate::processor::expression_tree::{expression_of, kind_name, ExprView};
use crate::processor::lexer::{lex, padded, unclosed_string_message, Lexed};
use crate::processor::syntax_tree::{stmt_views, texts, AfterStatement, StmtView};
use crate::rules::{applies, declares_global, indexes, key_for, string_index};
use crate::scope::{declared, deleted, entry_value, first_history_level, first_with_history,
    item_assigned, list_assigned, list_level, previous_of, reassigned, resolve, reversed,
    stack_assigned, swept_all, variable_level, variable_value, ItemAssignment, Reassignment};
use crate::text::{decimal, signed_decimal};
use vstd::prelude::*;

verus! {

/// A registered `when`, with texts as sequences of characters.
pub struct WhenView {
    pub condition: ExprView,
    pub body: Seq<StmtView>,
    pub dependent_variables: Seq<Seq<char>>,
}

/// An `after` statement that waits, with texts as sequences of characters.
pub struct AfterView {
    pub event: Seq<char>,
    pub body: Seq<StmtView>,
}

/// What the evaluator asked of the world, with texts as sequences of characters.
pub enum EffectView {
    Print(Seq<char>),
    Notice(Seq<char>),
    StoreGlobal { name: Seq<char>, value: ValueView, confidence: i32 },
    WriteFile { path: Seq<char>, content: Seq<char> },
}

/// A source file that may be imported, with texts as sequences of characters.
pub struct ModuleView {
    pub name: Seq<char>,
    pub statements: Result<Seq<StmtView>, Seq<char>>,
}

/// The state of the evaluator, as far as the rules of the language speak of it.
pub struct Machine {
    pub stack: Seq<NamespaceView>,
    pub line: u64,
    pub whens: Seq<WhenView>,
    pub afters: Seq<AfterView>,
    pub aliases: AliasView,
    pub effects: Seq<EffectView>,
    pub modules: Seq<ModuleView>,
    pub filename: Seq<char>,
}

/// How a failure is told: whether its message shows a place in the source, and the
/// message.
pub struct Failure {
    pub formatted: bool,
    pub message: Seq<char>,
}

/// What a run yields.
pub enum Outcome {
    /// The value of an expression.
    Value(ValueView),
    /// What a statement or a block returned, if it returned.
    Maybe(Option<ValueView>),
    /// The values of some expressions.
    Values(Seq<ValueView>),
    /// Nothing: the run is done.
    Done,
    /// The run failed.
    Failed(Failure),
}

/// Which rule a run uses, and on what.
pub enum RunKind {
    /// Statements, one after the other, and then what still waits.
    Block { statements: Seq<StmtView>, depth: nat },
    /// The turn of one statement of a block.
    Turn { statement: StmtView, depth: nat },
    /// The end of a block: the `after` statements that wait, and the events.
    Closing { depth: nat },
    /// Handling the events that wait.
    Poll { depth: nat },
    /// Handling one event.
    Event { event: EventView, depth: nat },
    /// Running the `after` statements that wait.
    Flush { depth: nat },
    /// One statement.
    Statement { statement: StmtView, depth: nat },
    /// One expression.
    Expression { expr: ExprView, depth: nat },
    /// A string with parts to evaluate.
    Interpolation { text: Seq<char>, depth: nat },
    /// Some expressions, one after the other.
    All { exprs: Seq<ExprView>, depth: nat },
    /// Assigning to a variable, with what that sets off.
    AssignVariable { name: Seq<char>, value: ValueView, depth: nat },
    /// Assigning to an item of a list.
    AssignIndex { target: ExprView, index: ExprView, value: ValueView, depth: nat },
    /// Re-running the `when` statements that read a variable.
    Trigger { name: Seq<char>, depth: nat },
    /// Re-running one `when` statement, if it reads the variable.
    Reaction { index: nat, name: Seq<char>, depth: nat },
}

/// A run: one use of a rule, with the runs of its parts.
pub struct Run {
    pub kind: RunKind,
    pub before: Machine,
    pub after: Machine,
    pub result: Outcome,
    /// The runs of the parts, in the order in which they ran.
    pub parts: Seq<Run>,
    /// The seconds that the clock showed, one reading for each time it was read.
    pub readings: Seq<u64>,
    /// The events that were waiting.
    pub events: Seq<EventView>,
}

/// Whether an outcome is a failure.
pub open spec fn failed(o: Outcome) -> bool {
    o is Failed
}

/// A failure with a bare message.
pub open spec fn bare(message: Seq<char>) -> Outcome {
    Outcome::Failed(Failure { formatted: false, message })
}

/// A failure whose message shows a place in the source.
pub open spec fn formatted(message: Seq<char>) -> Outcome {
    Outcome::Failed(Failure { formatted: true, message })
}

/// The message of the failure when statements and expressions nest too deep.
pub open spec fn limit_message() -> Seq<char> {
    "Statements and expressions nest deeper than the limit allows"@
}

/// The failure when statements and expressions nest too deep.
pub open spec fn limit_failure() -> Outcome {
    bare(limit_message())
}

/// The view of an `after` statement.
pub open spec fn after_view(a: AfterStatement) -> AfterView {
    AfterView { event: a.event@, body: stmt_views(a.body@) }
}

/// The views of the `after` statements of a queue.
pub open spec fn after_views<'a>(queue: Seq<&'a AfterStatement>) -> Seq<AfterView> {
    Seq::new(queue.len(), |i: int| after_view(*queue[i]))
}

/// A machine with another stack.
pub open spec fn with_stack(m: Machine, stack: Seq<NamespaceView>) -> Machine {
    Machine { stack, ..m }
}

/// A machine with one more effect.
pub open spec fn with_effect(m: Machine, effect: EffectView) -> Machine {
    Machine { effects: m.effects.push(effect), ..m }
}

/// A machine with one more notice.
pub open spec fn with_notice(m: Machine, text: Seq<char>) -> Machine {
    with_effect(m, EffectView::Notice(text))
}

/// A machine whose line counter is one further, unless it is at its end.
pub open spec fn line_advanced(m: Machine) -> Machine {
    Machine {
        line: if m.line < u64::MAX {
            (m.line + 1) as u64
        } else {
            m.line
        },
        ..m
    }
}

/// Whether part `i` of a run is a run of kind `kind` that starts from `m`.
pub open spec fn part_is(run: Run, i: int, kind: RunKind, m: Machine) -> bool {
    0 <= i < run.parts.len() && run.parts[i].kind == kind && run.parts[i].before == m
}

/// Whether a run ends with its part `i`: that part is its last, and the run ends as
/// the part does, with the result of the part.
pub open spec fn ends_with_part(run: Run, i: int) -> bool {
    run.parts.len() == i + 1 && run.after == run.parts[i].after && run.result
        == run.parts[i].result
}

/// Whether a run has no parts, changes nothing, and yields `result`.
pub open spec fn ends_here(run: Run, result: Outcome) -> bool {
    run.parts.len() == 0 && run.after == run.before && run.result == result
}

/// Whether a run has no parts, ends in `after`, and yields `result`.
pub open spec fn steps_to(run: Run, after: Machine, result: Outcome) -> bool {
    run.parts.len() == 0 && run.after == after && run.result == result
}

/// Whether `o` is what a token that is a literal or a name yields in the state `m`:
/// a text for a string; for a numeral the number that `ops` reads; for a name what
/// it is bound to, or a failure if it is bound to nothing; for any other token a
/// failure.
pub open spec fn token_outcome<N: Arithmetic>(ops: &N, m: Machine, token: TokenView, o: Outcome) -> bool {
    match token.token_type {
        TokenType::String => o == Outcome::Value(ValueView::String(token.value)),
        TokenType::Number => o is Value && o->Value_0 is Number && reads_number(
            ops,
            token.value,
            o->Value_0->Number_0,
        ),
        TokenType::Name => o == (match resolve(m.stack, token.value) {
            Some(e) => Outcome::Value(entry_value(e)),
            None => bare("Undefined variable: "@ + token.value),
        }),
        _ => o == bare("Unexpected token type in value node: "@ + kind_name(token.token_type)),
    }
}

/// The rule of a literal or a name: an interpolated string is evaluated as such;
/// any other token yields what `token_outcome` says and changes nothing.
pub open spec fn value_rule<N: Arithmetic>(ops: &N, run: Run, token: TokenView, depth: nat) -> bool {
    if token.token_type == TokenType::InterpolatedString {
        part_is(run, 0, RunKind::Interpolation { text: token.value, depth }, run.before)
            && ends_with_part(run, 0)
    } else {
        run.parts.len() == 0 && run.after == run.before && token_outcome(
            ops,
            run.before,
            token,
            run.result,
        )
    }
}

/// Whether an expression is a name and nothing more.
pub open spec fn is_name(expr: ExprView) -> bool {
    expr is Value && expr->Value_0.token_type == TokenType::Name
}

/// The rule of a binary operator. `=` with a name or an indexing on its left assigns
/// the value of its right side and yields that value; any other operator, and `=`
/// with anything else on its left, evaluates both sides and applies the operator.
pub open spec fn binary_rule<N: Arithmetic>(
    ops: &N,
    run: Run,
    left: ExprView,
    right: ExprView,
    operator: OperatorType,
    depth: nat,
) -> bool {
    let inner = (depth - 1) as nat;
    if depth == 0 {
        ends_here(run, limit_failure())
    } else if operator == OperatorType::E {
        &&& part_is(run, 0, RunKind::Expression { expr: right, depth: inner }, run.before)
        &&& if failed(run.parts[0].result) {
            ends_with_part(run, 0)
        } else {
            let value = run.parts[0].result->Value_0;
            let second = if is_name(left) {
                RunKind::AssignVariable { name: left->Value_0.value, value, depth }
            } else if left is Index {
                RunKind::AssignIndex {
                    target: *left->Index_value,
                    index: *left->Index_index,
                    value,
                    depth,
                }
            } else {
                RunKind::Expression { expr: left, depth: inner }
            };
            &&& part_is(run, 1, second, run.parts[0].after)
            &&& run.parts.len() == 2
            &&& run.after == run.parts[1].after
            &&& if failed(run.parts[1].result) {
                run.result == run.parts[1].result
            } else if is_name(left) || left is Index {
                run.result == Outcome::Value(value)
            } else {
                run.result is Value && applies(
                    ops,
                    OperatorType::E,
                    run.parts[1].result->Value_0,
                    value,
                    run.result->Value_0,
                )
            }
        }
    } else {
        &&& part_is(run, 0, RunKind::Expression { expr: left, depth: inner }, run.before)
        &&& if failed(run.parts[0].result) {
            ends_with_part(run, 0)
        } else {
            &&& part_is(
                run,
                1,
                RunKind::Expression { expr: right, depth: inner },
                run.parts[0].after,
            )
            &&& run.parts.len() == 2
            &&& run.after == run.parts[1].after
            &&& if failed(run.parts[1].result) {
                run.result == run.parts[1].result
            } else {
                run.result is Value && applies(
                    ops,
                    operator,
                    run.parts[0].result->Value_0,
                    run.parts[1].result->Value_0,
                    run.result->Value_0,
                )
            }
        }
    }
}

/// The rule of a unary operator: `;` yields the opposite of the truth value of its
/// operand; any other operator yields the operand.
pub open spec fn unary_rule(run: Run, operator: TokenView, expression: ExprView, depth: nat) -> bool {
    if depth == 0 {
        ends_here(run, limit_failure())
    } else {
        &&& part_is(
            run,
            0,
            RunKind::Expression { expr: expression, depth: (depth - 1) as nat },
            run.before,
        )
        &&& run.parts.len() == 1
        &&& run.after == run.parts[0].after
        &&& if failed(run.parts[0].result) {
            run.result == run.parts[0].result
        } else if operator.token_type == TokenType::Semicolon {
            run.result == Outcome::Value(
                ValueView::Boolean(negated(truth_of(run.parts[0].result->Value_0))),
            )
        } else {
            run.result == run.parts[0].result
        }
    }
}

/// The rule of indexing: both sides are evaluated, and the result is what `indexes`
/// says.
pub open spec fn index_rule<N: Arithmetic>(
    ops: &N,
    run: Run,
    value: ExprView,
    index: ExprView,
    depth: nat,
) -> bool {
    let inner = (depth - 1) as nat;
    if depth == 0 {
        ends_here(run, limit_failure())
    } else {
        &&& part_is(run, 0, RunKind::Expression { expr: value, depth: inner }, run.before)
        &&& if failed(run.parts[0].result) {
            ends_with_part(run, 0)
        } else {
            &&& part_is(
                run,
                1,
                RunKind::Expression { expr: index, depth: inner },
                run.parts[0].after,
            )
            &&& run.parts.len() == 2
            &&& run.after == run.parts[1].after
            &&& if failed(run.parts[1].result) {
                run.result == run.parts[1].result
            } else {
                run.result is Value && indexes(
                    ops,
                    run.parts[0].result->Value_0,
                    run.parts[1].result->Value_0,
                    run.result->Value_0,
                )
            }
        }
    }
}

/// The rule of a list in brackets: its items are evaluated, and the result is a fresh
/// list of their values.
pub open spec fn list_rule(run: Run, values: Seq<ExprView>, depth: nat) -> bool {
    &&& part_is(run, 0, RunKind::All { exprs: values, depth }, run.before)
    &&& run.parts.len() == 1
    &&& run.after == run.parts[0].after
    &&& if failed(run.parts[0].result) {
        run.result == run.parts[0].result
    } else {
        run.result == Outcome::Value(
            ValueView::List {
                values: run.parts[0].result->Values_0,
                indexer: fresh_indexer(run.parts[0].result->Values_0.len()),
            },
        )
    }
}

/// The entries of the map that a constructor call makes of the first `n` values: the
/// class under `__class__`, and each value under `arg` and its number.
pub open spec fn constructed(class_name: Seq<char>, values: Seq<ValueView>, n: nat) -> Seq<
    (Seq<char>, ValueView),
>
    decreases n,
{
    if n == 0 || n > values.len() {
        seq![("__class__"@, ValueView::String(class_name))]
    } else {
        with_entry(
            constructed(class_name, values, (n - 1) as nat),
            "arg"@ + decimal((n - 1) as nat),
            values[n - 1],
        )
    }
}

/// The rule of a constructor call: its arguments are evaluated, and the result is a
/// map of the class name and the arguments.
pub open spec fn constructor_rule(
    run: Run,
    class_name: TokenView,
    args: Seq<ExprView>,
    depth: nat,
) -> bool {
    &&& part_is(run, 0, RunKind::All { exprs: args, depth }, run.before)
    &&& run.parts.len() == 1
    &&& run.after == run.parts[0].after
    &&& if failed(run.parts[0].result) {
        run.result == run.parts[0].result
    } else {
        run.result == Outcome::Value(
            ValueView::Mapping {
                values: constructed(
                    class_name.value,
                    run.parts[0].result->Values_0,
                    run.parts[0].result->Values_0.len(),
                ),
            },
        )
    }
}

/// The namespace of a call: the first `n` parameters, each bound to its argument as
/// a name.
pub open spec fn call_scope(params: Seq<Seq<char>>, args: Seq<ValueView>, n: nat) -> NamespaceView
    decreases n,
{
    if n == 0 || n > params.len() || n > args.len() {
        Seq::empty()
    } else {
        with_entry(
            call_scope(params, args, (n - 1) as nat),
            params[n - 1],
            EntryView::Name(NameView { name: params[n - 1], value: args[n - 1] }),
        )
    }
}

/// How many parameters of a call get an argument.
pub open spec fn bound_count(params: Seq<Seq<char>>, args: Seq<ValueView>) -> nat {
    if params.len() <= args.len() {
        params.len()
    } else {
        args.len()
    }
}

/// What `len` measures of a value: the characters of a text, the items of a list.
pub open spec fn measure(v: ValueView) -> Option<usize> {
    match v {
        ValueView::String(s) => Some(s.len() as usize),
        ValueView::List { values, .. } => Some(values.len() as usize),
        _ => None,
    }
}

/// The first `n` aliases of a table as the entries of a map.
pub open spec fn aliases_listed(table: AliasView, n: nat) -> Seq<(Seq<char>, ValueView)>
    decreases n,
{
    if n == 0 || n > table.len() {
        Seq::empty()
    } else {
        with_entry(
            aliases_listed(table, (n - 1) as nat),
            table[n - 1].0,
            ValueView::String(table[n - 1].1),
        )
    }
}

/// Whether `value` and `after` are what the runtime function `name` yields and
/// leaves on `args` in the state `m`. `print` asks for a line; `sqrt` and `len` ask
/// `ops` for a number; `alias` and `unalias` change the aliases and tell whether they
/// did; `list_aliases` yields the aliases as a map; `trigger` tells whether the event
/// was taken; any other name yields undefined.
pub open spec fn builtin_step<N: Arithmetic>(
    ops: &N,
    m: Machine,
    name: Seq<char>,
    args: Seq<ValueView>,
    after: Machine,
    value: ValueView,
) -> bool {
    if name == "print"@ {
        &&& after.effects.len() == m.effects.len() + 1
        &&& after.effects.last() is Print
        &&& crate::interpreter::prints(ops, args, after.effects.last()->Print_0)
        &&& after == with_effect(m, after.effects.last())
        &&& value == ValueView::Undefined
    } else if name == "sqrt"@ {
        &&& after == m
        &&& if args.len() >= 1 && args[0] is Number {
            value is Number && call_ensures(
                N::square_root,
                (ops, args[0]->Number_0),
                value->Number_0,
            )
        } else {
            value == ValueView::Undefined
        }
    } else if name == "len"@ {
        &&& after == m
        &&& if args.len() >= 1 && measure(args[0]) is Some {
            value is Number && call_ensures(
                N::from_count,
                (ops, measure(args[0])->0),
                value->Number_0,
            )
        } else {
            value == ValueView::Undefined
        }
    } else if name == "alias"@ {
        if args.len() >= 2 && args[0] is String && args[1] is String {
            let ok = admissible(m.aliases, args[0]->String_0, args[1]->String_0);
            &&& value == ValueView::Boolean(Some(ok))
            &&& after == (Machine {
                aliases: if ok {
                    m.aliases.push((args[1]->String_0, args[0]->String_0))
                } else {
                    m.aliases
                },
                ..m
            })
        } else {
            value == ValueView::Boolean(Some(false)) && after == m
        }
    } else if name == "unalias"@ {
        if args.len() >= 1 && args[0] is String {
            let known = aliased(m.aliases, args[0]->String_0) is Some;
            &&& value == ValueView::Boolean(Some(known))
            &&& after == (Machine {
                aliases: if known {
                    m.aliases.remove(find_alias(m.aliases, args[0]->String_0, 0))
                } else {
                    m.aliases
                },
                ..m
            })
        } else {
            value == ValueView::Boolean(Some(false)) && after == m
        }
    } else if name == "list_aliases"@ {
        after == m && value == (ValueView::Mapping {
            values: aliases_listed(m.aliases, m.aliases.len()),
        })
    } else if name == "trigger"@ {
        &&& after == m
        &&& value is Boolean
        &&& value->Boolean_0 is Some
        &&& !(args.len() >= 1 && args[0] is String) ==> value == ValueView::Boolean(Some(false))
    } else {
        after == m && value == ValueView::Undefined
    }
}

/// Whether a name is one of `current`, `previous` and `next`.
pub open spec fn temporal(name: Seq<char>) -> bool {
    name == "current"@ || name == "previous"@ || name == "next"@
}

/// The rule of the calls `current(x)`, `previous(x)` and `next(x)`: each takes one
/// argument; `current` yields the value of its argument; `previous` yields the value
/// that the variable had before its latest change; `next` yields undefined.
pub open spec fn temporal_rule(run: Run, name: Seq<char>, args: Seq<ExprView>, depth: nat) -> bool {
    if name == "current"@ {
        if args.len() != 1 {
            ends_here(run, bare("current() expects 1 argument"@))
        } else {
            part_is(
                run,
                0,
                RunKind::Expression { expr: args[0], depth: (depth - 1) as nat },
                run.before,
            ) && ends_with_part(run, 0)
        }
    } else if name == "previous"@ {
        if args.len() != 1 {
            ends_here(run, bare("previous() expects 1 argument"@))
        } else if is_name(args[0]) {
            ends_here(
                run,
                Outcome::Value(previous_of(run.before.stack, args[0]->Value_0.value)),
            )
        } else {
            ends_here(run, bare("previous() expects a variable name"@))
        }
    } else {
        if args.len() != 1 {
            ends_here(run, bare("next() expects 1 argument"@))
        } else if is_name(args[0]) {
            ends_here(run, Outcome::Value(ValueView::Undefined))
        } else {
            ends_here(run, bare("next() expects a variable name"@))
        }
    }
}

/// The rule of a call. What is called is looked up as a name is; a function of the
/// program runs its body in a new namespace that binds its parameters to the values
/// of the arguments, and yields what the body returns, or undefined; a function of
/// the runtime does what `builtin_step` says; anything else cannot be called.
pub open spec fn call_rule<N: Arithmetic>(
    ops: &N,
    run: Run,
    name: TokenView,
    args: Seq<ExprView>,
    depth: nat,
) -> bool {
    if depth == 0 {
        ends_here(run, limit_failure())
    } else if temporal(name.value) {
        temporal_rule(run, name.value, args, depth)
    } else {
        exists|callee: Outcome| #[trigger] calls(ops, run, name, callee, args, depth)
    }
}

/// Whether a run is that of a call of `callee`, which is what the name of the call
/// stands for: a name written as a string with parts to evaluate is evaluated first.
pub open spec fn calls<N: Arithmetic>(
    ops: &N,
    run: Run,
    name: TokenView,
    callee: Outcome,
    args: Seq<ExprView>,
    depth: nat,
) -> bool {
    let interpolated = name.token_type == TokenType::InterpolatedString;
    let base: int = if interpolated {
        1
    } else {
        0
    };
    let start = if interpolated {
        run.parts[0].after
    } else {
        run.before
    };
    &&& interpolated ==> part_is(
        run,
        0,
        RunKind::Interpolation { text: name.value, depth },
        run.before,
    )
    &&& if interpolated {
        callee == run.parts[0].result
    } else {
        token_outcome(ops, run.before, name, callee)
    }
    &&& called(ops, run, callee, base, start, args, depth)
}

/// The rest of a call, once what is called is known.
pub open spec fn called<N: Arithmetic>(
    ops: &N,
    run: Run,
    callee: Outcome,
    base: int,
    start: Machine,
    args: Seq<ExprView>,
    depth: nat,
) -> bool {
    if failed(callee) {
        run.parts.len() == base && run.after == start && run.result == callee
    } else {
        match callee->Value_0 {
            ValueView::Function { args: params, code, .. } => {
                &&& part_is(run, base, RunKind::All { exprs: args, depth }, start)
                &&& if failed(run.parts[base].result) {
                    ends_with_part(run, base)
                } else {
                    let values = run.parts[base].result->Values_0;
                    let entered = with_stack(
                        run.parts[base].after,
                        run.parts[base].after.stack.push(
                            call_scope(params, values, bound_count(params, values)),
                        ),
                    );
                    &&& part_is(
                        run,
                        base + 1,
                        RunKind::Block { statements: code, depth: (depth - 1) as nat },
                        entered,
                    )
                    &&& run.parts.len() == base + 2
                    &&& if failed(run.parts[base + 1].result) {
                        run.after == run.parts[base + 1].after && run.result
                            == run.parts[base + 1].result
                    } else {
                        run.after == with_stack(
                            run.parts[base + 1].after,
                            run.parts[base + 1].after.stack.drop_last(),
                        ) && run.result == Outcome::Value(
                            match run.parts[base + 1].result->Maybe_0 {
                                Some(v) => v,
                                None => ValueView::Undefined,
                            },
                        )
                    }
                }
            },
            ValueView::BuiltinFunction { name, .. } => {
                &&& part_is(run, base, RunKind::All { exprs: args, depth }, start)
                &&& run.parts.len() == base + 1
                &&& if failed(run.parts[base].result) {
                    run.after == run.parts[base].after && run.result == run.parts[base].result
                } else {
                    run.result is Value && builtin_step(
                        ops,
                        run.parts[base].after,
                        name,
                        run.parts[base].result->Values_0,
                        run.after,
                        run.result->Value_0,
                    )
                }
            },
            _ => run.parts.len() == base && run.after == start && run.result == bare(
                "Not a function"@,
            ),
        }
    }
}

/// Whether each of some runs starts where the one before it ended, the first of them
/// from `start`.
pub open spec fn in_sequence(parts: Seq<Run>, start: Machine) -> bool {
    &&& parts.len() > 0 ==> parts[0].before == start
    &&& forall|i: int, j: int|
        0 <= i && j == i + 1 && j < parts.len() ==> (#[trigger] parts[j]).before
            == (#[trigger] parts[i]).after
}

/// Runs that are in sequence stay so when one more run follows the last.
pub proof fn lemma_in_sequence_push(parts: Seq<Run>, start: Machine, next: Run)
    requires
        in_sequence(parts, start),
        next.before == (if parts.len() == 0 {
            start
        } else {
            parts.last().after
        }),
    ensures
        in_sequence(parts.push(next), start),
{
    let more = parts.push(next);
    assert forall|i: int, j: int| 0 <= i && j == i + 1 && j < more.len() implies (
    #[trigger] more[j]).before == (#[trigger] more[i]).after by {
        if j < parts.len() {
            assert(more[j] == parts[j]);
            assert(more[i] == parts[i]);
        } else {
            assert(more[i] == parts.last());
        }
    }
}

/// The state after the parts up to `n`, which start from `start`.
pub open spec fn reached(run: Run, n: int, start: Machine) -> Machine {
    if n <= 0 {
        start
    } else {
        run.parts[n - 1].after
    }
}

/// The rule of some expressions, one after the other: each is evaluated in the state
/// that the one before it left; the first failure ends the run; without a failure the
/// run yields all values.
pub open spec fn all_rule(run: Run, exprs: Seq<ExprView>, depth: nat) -> bool {
    if depth == 0 {
        ends_here(
            run,
            if exprs.len() > 0 {
                limit_failure()
            } else {
                Outcome::Values(Seq::empty())
            },
        )
    } else {
        &&& run.parts.len() <= exprs.len()
        &&& in_sequence(run.parts, run.before)
        &&& forall|i: int|
            0 <= i < run.parts.len() ==> (#[trigger] run.parts[i]).kind == (RunKind::Expression {
                expr: exprs[i],
                depth: (depth - 1) as nat,
            })
        &&& forall|i: int| 0 <= i < run.parts.len() - 1 ==> !failed((#[trigger] run.parts[i]).result)
        &&& run.after == reached(run, run.parts.len() as int, run.before)
        &&& if run.parts.len() > 0 && failed(run.parts.last().result) {
            run.result == run.parts.last().result
        } else {
            &&& run.parts.len() == exprs.len()
            &&& run.result is Values
            &&& run.result->Values_0.len() == exprs.len()
            &&& forall|i: int|
                0 <= i < exprs.len() ==> Outcome::Value(#[trigger] run.result->Values_0[i])
                    == run.parts[i].result
        }
    }
}

/// The rule of an assignment to a variable: the stack changes as `stack_assigned`
/// says; if a variable of that name existed, the `when` statements that read it are
/// run again.
pub open spec fn assign_variable_rule(run: Run, name: Seq<char>, value: ValueView, depth: nat) -> bool {
    let assigned = with_stack(run.before, stack_assigned(run.before.stack, name, value));
    if variable_level(run.before.stack, name, run.before.stack.len() as int) >= 0 {
        part_is(run, 0, RunKind::Trigger { name, depth }, assigned) && ends_with_part(run, 0)
    } else {
        steps_to(run, assigned, Outcome::Done)
    }
}

/// The rule of re-running the `when` statements that read a variable: each `when`
/// that was registered when the run began has its turn, in the order of
/// registration; the first failure ends the run.
pub open spec fn trigger_rule(run: Run, name: Seq<char>, depth: nat) -> bool {
    &&& run.parts.len() <= run.before.whens.len()
    &&& in_sequence(run.parts, run.before)
    &&& forall|i: int|
        0 <= i < run.parts.len() ==> (#[trigger] run.parts[i]).kind == (RunKind::Reaction {
            index: i as nat,
            name,
            depth,
        })
    &&& forall|i: int| 0 <= i < run.parts.len() - 1 ==> !failed((#[trigger] run.parts[i]).result)
    &&& run.after == reached(run, run.parts.len() as int, run.before)
    &&& if run.parts.len() > 0 && failed(run.parts.last().result) {
        run.result == run.parts.last().result
    } else {
        run.parts.len() == run.before.whens.len() && run.result == Outcome::Done
    }
}

/// Whether a condition with this value sets off the body of a `when`: it does unless
/// the value counts as false.
pub open spec fn fires(v: ValueView) -> bool {
    truth_of(v) != Some(false)
}

/// The rule of the turn of one `when`: if it reads the variable, its condition is
/// evaluated, and its body is run if the condition is not false.
pub open spec fn reaction_rule(run: Run, index: nat, name: Seq<char>, depth: nat) -> bool {
    let inner = (depth - 1) as nat;
    if index >= run.before.whens.len() || !run.before.whens[index as int].dependent_variables.contains(
        name,
    ) {
        ends_here(run, Outcome::Done)
    } else if depth == 0 {
        ends_here(run, limit_failure())
    } else {
        let when = run.before.whens[index as int];
        &&& part_is(
            run,
            0,
            RunKind::Expression { expr: when.condition, depth: inner },
            run.before,
        )
        &&& if failed(run.parts[0].result) {
            ends_with_part(run, 0)
        } else if fires(run.parts[0].result->Value_0) {
            &&& part_is(
                run,
                1,
                RunKind::Block { statements: when.body, depth: inner },
                run.parts[0].after,
            )
            &&& run.parts.len() == 2
            &&& run.after == run.parts[1].after
            &&& run.result == if failed(run.parts[1].result) {
                run.parts[1].result
            } else {
                Outcome::Done
            }
        } else {
            run.parts.len() == 1 && run.after == run.parts[0].after && run.result
                == Outcome::Done
        }
    }
}

/// Whether `after` and `found` are what putting `value` into the list called `name`
/// under the index that the number `bits` asks for leaves, with `ops` telling what
/// the number is as an index.
pub open spec fn list_put<N: Arithmetic>(
    ops: &N,
    stack: Seq<NamespaceView>,
    name: Seq<char>,
    bits: u64,
    value: ValueView,
    after: Seq<NamespaceView>,
) -> bool {
    exists|parts: IndexParts| #[trigger]
        call_ensures(N::index_parts, (ops, bits), parts) && after == list_assigned(
            stack,
            name,
            key_for(parts, bits),
            parts.floor,
            value,
        )
}

/// The rule of an assignment to an item of a list. The list must be named; the index
/// is evaluated; the value goes into the innermost list of that name, under the
/// index.
pub open spec fn assign_index_rule<N: Arithmetic>(
    ops: &N,
    run: Run,
    target: ExprView,
    index: ExprView,
    value: ValueView,
    depth: nat,
) -> bool {
    if !is_name(target) {
        ends_here(run, bare("Index assignment only supported on variable references"@))
    } else if depth == 0 {
        ends_here(run, limit_failure())
    } else {
        let name = target->Value_0.value;
        &&& part_is(
            run,
            0,
            RunKind::Expression { expr: index, depth: (depth - 1) as nat },
            run.before,
        )
        &&& run.parts.len() == 1
        &&& if failed(run.parts[0].result) {
            run.after == run.parts[0].after && run.result == run.parts[0].result
        } else {
            let at = run.parts[0].after;
            let found = list_level(at.stack, name, at.stack.len() as int) >= 0;
            let missing = bare("Variable '"@ + name + "' not found or is not a list"@);
            if run.parts[0].result->Value_0 is Number {
                &&& run.after == with_stack(at, run.after.stack)
                &&& list_put(
                    ops,
                    at.stack,
                    name,
                    run.parts[0].result->Value_0->Number_0,
                    value,
                    run.after.stack,
                )
                &&& run.result == if found {
                    Outcome::Done
                } else {
                    missing
                }
            } else {
                run.after == at && run.result == missing
            }
        }
    }
}

/// The state after a declaration: the innermost namespace binds the name as
/// `declared_binding` says; a declaration for all later runs asks to keep the
/// binding first.
pub open spec fn declared_machine(
    m: Machine,
    name: Seq<char>,
    modifiers: Seq<Seq<char>>,
    lifetime: Option<Seq<char>>,
    confidence: i32,
    value: ValueView,
    now: u64,
) -> Machine {
    let kept = if declares_global(modifiers) {
        with_effect(m, EffectView::StoreGlobal { name, value, confidence })
    } else {
        m
    };
    with_stack(
        kept,
        declared(
            m.stack,
            name,
            crate::interpreter::declared_binding(
                name,
                modifiers,
                lifetime,
                confidence,
                value,
                m.line,
                now,
            ),
        ),
    )
}

/// The binding that a class declaration makes: a variable that holds the one object
/// of the class, that cannot be reset, and that does not end.
pub open spec fn class_binding(name: Seq<char>, properties: Seq<(Seq<char>, ValueView)>) -> EntryView {
    EntryView::Variable(
        VariableView {
            name,
            lifetimes: seq![
                LifetimeView {
                    value: ValueView::Object { class_name: name, namespace: properties },
                    duration: u64::MAX,
                    confidence: 100,
                    can_be_reset: false,
                    can_edit_value: true,
                    created_at: 0,
                    created_line: 0,
                    is_time_based: false,
                },
            ],
            prev_values: Seq::empty(),
        },
    )
}

/// The first place at or after `from` where the module called `name` stands, or the
/// number of modules.
pub open spec fn module_place(modules: Seq<ModuleView>, name: Seq<char>, from: int) -> int
    decreases modules.len() - from,
{
    if 0 <= from < modules.len() && modules[from].name != name {
        module_place(modules, name, from + 1)
    } else {
        from
    }
}

/// The rule of a statement that is an expression.
pub open spec fn expression_statement_rule(run: Run, expression: ExprView, depth: nat) -> bool {
    if depth == 0 {
        ends_here(run, limit_failure())
    } else {
        &&& part_is(
            run,
            0,
            RunKind::Expression { expr: expression, depth: (depth - 1) as nat },
            run.before,
        )
        &&& run.parts.len() == 1
        &&& run.after == run.parts[0].after
        &&& run.result == if failed(run.parts[0].result) {
            run.parts[0].result
        } else {
            Outcome::Maybe(None)
        }
    }
}

/// The rule of a declaration: the value is evaluated, if there is one; the clock is
/// read; the innermost namespace binds the name.
pub open spec fn declaration_rule(
    run: Run,
    name: TokenView,
    modifiers: Seq<Seq<char>>,
    value: Option<ExprView>,
    lifetime: Option<Seq<char>>,
    confidence: i32,
    depth: nat,
) -> bool {
    match value {
        Some(expr) => if depth == 0 {
            ends_here(run, limit_failure())
        } else {
            &&& part_is(
                run,
                0,
                RunKind::Expression { expr, depth: (depth - 1) as nat },
                run.before,
            )
            &&& run.parts.len() == 1
            &&& if failed(run.parts[0].result) {
                run.after == run.parts[0].after && run.result == run.parts[0].result
            } else {
                &&& run.readings.len() == 1
                &&& run.after == declared_machine(
                    run.parts[0].after,
                    name.value,
                    modifiers,
                    lifetime,
                    confidence,
                    run.parts[0].result->Value_0,
                    run.readings[0],
                )
                &&& run.result == Outcome::Maybe(None)
            }
        },
        None => {
            &&& run.parts.len() == 0
            &&& run.readings.len() == 1
            &&& run.after == declared_machine(
                run.before,
                name.value,
                modifiers,
                lifetime,
                confidence,
                ValueView::Undefined,
                run.readings[0],
            )
            &&& run.result == Outcome::Maybe(None)
        },
    }
}

/// The rule of a return: the value is evaluated, if there is one, and returned;
/// without one, undefined is returned.
pub open spec fn return_rule(run: Run, value: Option<ExprView>, depth: nat) -> bool {
    match value {
        Some(expr) => if depth == 0 {
            ends_here(run, limit_failure())
        } else {
            &&& part_is(
                run,
                0,
                RunKind::Expression { expr, depth: (depth - 1) as nat },
                run.before,
            )
            &&& run.parts.len() == 1
            &&& run.after == run.parts[0].after
            &&& run.result == if failed(run.parts[0].result) {
                run.parts[0].result
            } else {
                Outcome::Maybe(Some(run.parts[0].result->Value_0))
            }
        },
        None => ends_here(run, Outcome::Maybe(Some(ValueView::Undefined))),
    }
}

/// The rule of `if`: the condition is evaluated; the block runs only if the
/// condition is true, and the other block, if there is one, otherwise. Maybe is not
/// true.
pub open spec fn conditional_rule(
    run: Run,
    condition: ExprView,
    body: Seq<StmtView>,
    else_body: Option<Seq<StmtView>>,
    depth: nat,
) -> bool {
    let inner = (depth - 1) as nat;
    if depth == 0 {
        ends_here(run, limit_failure())
    } else {
        &&& part_is(run, 0, RunKind::Expression { expr: condition, depth: inner }, run.before)
        &&& if failed(run.parts[0].result) {
            ends_with_part(run, 0)
        } else if truth_of(run.parts[0].result->Value_0) == Some(true) {
            part_is(
                run,
                1,
                RunKind::Block { statements: body, depth: inner },
                run.parts[0].after,
            ) && ends_with_part(run, 1)
        } else {
            match else_body {
                Some(other) => part_is(
                    run,
                    1,
                    RunKind::Block { statements: other, depth: inner },
                    run.parts[0].after,
                ) && ends_with_part(run, 1),
                None => run.parts.len() == 1 && run.after == run.parts[0].after && run.result
                    == Outcome::Maybe(None),
            }
        }
    }
}

/// The rule of `when`: the condition is evaluated; the body runs at once if the
/// condition is not false; then the statement is registered with the names that its
/// condition reads. A failure registers nothing.
pub open spec fn when_rule(run: Run, condition: ExprView, body: Seq<StmtView>, depth: nat) -> bool {
    let inner = (depth - 1) as nat;
    let registered = WhenView {
        condition,
        body,
        dependent_variables: crate::interpreter::deduplicated(
            crate::interpreter::named_in(condition),
        ),
    };
    if depth == 0 {
        ends_here(run, limit_failure())
    } else {
        &&& part_is(run, 0, RunKind::Expression { expr: condition, depth: inner }, run.before)
        &&& if failed(run.parts[0].result) {
            ends_with_part(run, 0)
        } else if fires(run.parts[0].result->Value_0) {
            &&& part_is(
                run,
                1,
                RunKind::Block { statements: body, depth: inner },
                run.parts[0].after,
            )
            &&& run.parts.len() == 2
            &&& if failed(run.parts[1].result) {
                run.after == run.parts[1].after && run.result == run.parts[1].result
            } else {
                run.after == (Machine {
                    whens: run.parts[1].after.whens.push(registered),
                    ..run.parts[1].after
                }) && run.result == Outcome::Maybe(None)
            }
        } else {
            run.parts.len() == 1 && run.after == (Machine {
                whens: run.parts[0].after.whens.push(registered),
                ..run.parts[0].after
            }) && run.result == Outcome::Maybe(None)
        }
    }
}

/// Whether some namespace of a stack binds `name`.
pub open spec fn bound_somewhere(stack: Seq<NamespaceView>, name: Seq<char>) -> bool {
    exists|i: int| 0 <= i < stack.len() && bound(#[trigger] stack[i], name) is Some
}

/// The rule of `delete`: a name is taken out of every namespace, and this is told if
/// any held it; a literal is only told of; anything else is evaluated and told of.
pub open spec fn delete_rule(run: Run, target: ExprView, depth: nat) -> bool {
    if target is Value {
        let token = target->Value_0;
        &&& run.parts.len() == 0
        &&& run.result == Outcome::Maybe(None)
        &&& run.after == (match token.token_type {
            TokenType::Name => {
                let gone = with_stack(run.before, deleted(run.before.stack, token.value));
                if bound_somewhere(run.before.stack, token.value) {
                    with_notice(gone, "Deleted variable: "@ + token.value)
                } else {
                    gone
                }
            },
            TokenType::String => with_notice(run.before, "Deleted keyword: "@ + token.value),
            _ => with_notice(run.before, "Deleted literal: "@ + token.value),
        })
    } else if depth == 0 {
        ends_here(run, limit_failure())
    } else {
        &&& part_is(
            run,
            0,
            RunKind::Expression { expr: target, depth: (depth - 1) as nat },
            run.before,
        )
        &&& run.parts.len() == 1
        &&& if failed(run.parts[0].result) {
            run.after == run.parts[0].after && run.result == run.parts[0].result
        } else {
            run.after == with_notice(
                run.parts[0].after,
                "Deleted "@ + crate::builtin::kind_of(run.parts[0].result->Value_0),
            ) && run.result == Outcome::Maybe(None)
        }
    }
}

/// The rule of an assignment by statement: the value is evaluated, and the outermost
/// binding of the name takes it, unless it is a variable that may not be reset.
pub open spec fn variable_assignment_rule(run: Run, target: ExprView, value: ExprView, depth: nat) -> bool {
    if depth == 0 {
        ends_here(run, limit_failure())
    } else {
        &&& part_is(
            run,
            0,
            RunKind::Expression { expr: value, depth: (depth - 1) as nat },
            run.before,
        )
        &&& run.parts.len() == 1
        &&& if failed(run.parts[0].result) {
            run.after == run.parts[0].after && run.result == run.parts[0].result
        } else if target is Value {
            let name = target->Value_0.value;
            let change = reassigned(run.parts[0].after.stack, name, run.parts[0].result->Value_0);
            &&& run.after == with_stack(run.parts[0].after, change.0)
            &&& run.result == (match change.1 {
                Reassignment::Done => Outcome::Maybe(None),
                Reassignment::Constant => formatted(
                    "Cannot reassign constant variable '"@ + name + "'"@,
                ),
                Reassignment::Missing => formatted("Variable '"@ + name + "' not found"@),
            })
        } else {
            run.after == run.parts[0].after && run.result == formatted(
                "Complex assignment targets not yet implemented"@,
            )
        }
    }
}

/// The failure of an index assignment by statement that did not go through.
pub open spec fn item_failure(name: Seq<char>, outcome: ItemAssignment, index: int) -> Outcome {
    match outcome {
        ItemAssignment::Done => Outcome::Maybe(None),
        ItemAssignment::OutOfBounds(n) => formatted(
            "Index "@ + signed_decimal(index) + " out of bounds for list of length "@ + decimal(
                n as nat,
            ),
        ),
        ItemAssignment::NotAList => formatted("Variable '"@ + name + "' is not a list"@),
        ItemAssignment::IsName => formatted("Cannot assign to index of a name"@),
        ItemAssignment::Missing => formatted("Variable '"@ + name + "' not found"@),
    }
}

/// Whether `after` and `result` are what an index assignment by statement leaves and
/// yields, with `ops` telling what the number `bits` is as an index: the item with
/// that index, counted from -1, of the list of the outermost binding of `name`
/// becomes `value`.
pub open spec fn item_put<N: Arithmetic>(
    ops: &N,
    stack: Seq<NamespaceView>,
    name: Seq<char>,
    bits: u64,
    value: ValueView,
    after: Seq<NamespaceView>,
    result: Outcome,
) -> bool {
    exists|parts: IndexParts| #[trigger]
        call_ensures(N::index_parts, (ops, bits), parts) && {
            let index = string_index(parts);
            let change = item_assigned(stack, name, index + 1, value);
            after == change.0 && result == item_failure(name, change.1, index as int)
        }
}

/// The rule of an index assignment by statement: the index and the value are
/// evaluated, and the item is replaced as `item_put` says.
pub open spec fn index_assignment_rule<N: Arithmetic>(
    ops: &N,
    run: Run,
    target: ExprView,
    index: ExprView,
    value: ExprView,
    depth: nat,
) -> bool {
    let inner = (depth - 1) as nat;
    if depth == 0 {
        ends_here(run, limit_failure())
    } else {
        &&& part_is(run, 0, RunKind::Expression { expr: index, depth: inner }, run.before)
        &&& if failed(run.parts[0].result) {
            ends_with_part(run, 0)
        } else {
            &&& part_is(
                run,
                1,
                RunKind::Expression { expr: value, depth: inner },
                run.parts[0].after,
            )
            &&& run.parts.len() == 2
            &&& if failed(run.parts[1].result) {
                run.after == run.parts[1].after && run.result == run.parts[1].result
            } else if !(target is Value) {
                run.after == run.parts[1].after && run.result == formatted(
                    "Complex index assignment targets not yet supported"@,
                )
            } else if !(run.parts[0].result->Value_0 is Number) {
                run.after == run.parts[1].after && run.result == formatted(
                    "Index must be a number"@,
                )
            } else {
                run.after == with_stack(run.parts[1].after, run.after.stack) && item_put(
                    ops,
                    run.parts[1].after.stack,
                    target->Value_0.value,
                    run.parts[0].result->Value_0->Number_0,
                    run.parts[1].result->Value_0,
                    run.after.stack,
                    run.result,
                )
            }
        }
    }
}

/// The rule of a class declaration: the statements of the body run in a new
/// namespace, one after the other and without sweeps between them; then the
/// namespace is taken off and becomes the properties of the one object of the class,
/// which the enclosing namespace binds. A failure leaves the namespace on the stack.
pub open spec fn class_rule(run: Run, name: Seq<char>, body: Seq<StmtView>, depth: nat) -> bool {
    let entered = with_stack(run.before, run.before.stack.push(Seq::empty()));
    if depth == 0 {
        ends_here(run, limit_failure())
    } else {
        &&& run.parts.len() <= body.len()
        &&& in_sequence(run.parts, entered)
        &&& forall|i: int|
            0 <= i < run.parts.len() ==> (#[trigger] run.parts[i]).kind == (RunKind::Statement {
                statement: body[i],
                depth: (depth - 1) as nat,
            })
        &&& forall|i: int| 0 <= i < run.parts.len() - 1 ==> !failed((#[trigger] run.parts[i]).result)
        &&& if run.parts.len() > 0 && failed(run.parts.last().result) {
            run.after == run.parts.last().after && run.result == run.parts.last().result
        } else {
            let end = reached(run, run.parts.len() as int, entered);
            &&& run.parts.len() == body.len()
            &&& run.result == Outcome::Maybe(None)
            &&& run.after == with_notice(
                with_stack(
                    end,
                    declared(
                        end.stack.drop_last(),
                        name,
                        class_binding(
                            name,
                            crate::scope::collapsed(end.stack.last(), end.stack.last().len()),
                        ),
                    ),
                ),
                "Class '"@ + name + "' declared"@,
            )
        }
    }
}

/// The rule of `import`: the statements of the file run in place. A file that is not
/// at hand, or that could not be read, is a failure.
pub open spec fn import_rule(run: Run, name: Seq<char>, depth: nat) -> bool {
    let at = module_place(run.before.modules, name, 0);
    if depth == 0 {
        ends_here(run, limit_failure())
    } else if at >= run.before.modules.len() {
        ends_here(
            run,
            formatted("Failed to import file '"@ + name + ".gom': the file is not at hand"@),
        )
    } else {
        match run.before.modules[at].statements {
            Err(message) => ends_here(
                run,
                formatted("Failed to import file '"@ + name + ".gom': "@ + message),
            ),
            Ok(statements) => {
                &&& part_is(
                    run,
                    0,
                    RunKind::Block { statements, depth: (depth - 1) as nat },
                    run.before,
                )
                &&& run.parts.len() == 1
                &&& if failed(run.parts[0].result) {
                    run.after == run.parts[0].after && run.result == run.parts[0].result
                } else {
                    run.after == with_notice(
                        run.parts[0].after,
                        "Successfully imported variables from '"@ + name + ".gom'"@,
                    ) && run.result == Outcome::Maybe(None)
                }
            },
        }
    }
}

/// Whether `after` and `result` are what `export` leaves and yields in the state
/// `before`: the value of the innermost variable of that name is written as a
/// declaration, with `ops` writing the numbers; the evaluator asks to write that text
/// to the file, and tells so. A name without a value is a failure.
pub open spec fn export_step<N: Arithmetic>(
    ops: &N,
    before: Machine,
    name: Seq<char>,
    target_file: Seq<char>,
    after: Machine,
    result: Outcome,
) -> bool {
    match variable_value(before.stack, name) {
        None => after == before && result == formatted(
            "Cannot export undefined variable '"@ + name + "'"@,
        ),
        Some(value) => {
            let at = before.effects.len() as int;
            &&& result == Outcome::Maybe(None)
            &&& after.effects.len() == at + 2
            &&& after.effects[at] is WriteFile
            &&& crate::interpreter::writes_declaration(
                ops,
                name,
                value,
                after.effects[at]->WriteFile_content,
            )
            &&& after == with_notice(
                with_effect(
                    before,
                    EffectView::WriteFile {
                        path: target_file,
                        content: after.effects[at]->WriteFile_content,
                    },
                ),
                "Successfully exported variable '"@ + name + "' to '"@ + target_file + "'"@,
            )
        },
    }
}

/// Whether `after` is what `reverse` leaves in the state `before`: the stack changes
/// as `reversed` says, and what was done is told.
pub open spec fn reverse_step(before: Machine, after: Machine) -> bool {
    let stack = before.stack;
    let level = first_history_level(stack, 0);
    after == with_notice(
        with_stack(before, reversed(stack)),
        if 0 <= level < stack.len() {
            "Reversed variable '"@ + stack[level][first_with_history(stack[level], 0)].0
                + "' to previous value"@
        } else {
            "No operations to reverse"@
        },
    )
}

/// The rule of a statement.
pub open spec fn statement_rule<N: Arithmetic>(ops: &N, run: Run, statement: StmtView, depth: nat) -> bool {
    match statement {
        StmtView::ExpressionStatement { expression, .. } => expression_statement_rule(
            run,
            expression,
            depth,
        ),
        StmtView::VariableDeclaration { name, modifiers, value, lifetime, confidence, .. } => {
            declaration_rule(run, name, modifiers, value, lifetime, confidence, depth)
        },
        StmtView::FunctionDefinition { name, args, body, is_async, .. } => steps_to(
            run,
            with_stack(
                run.before,
                declared(
                    run.before.stack,
                    name,
                    crate::interpreter::runtime_binding(
                        name,
                        ValueView::Function { name, args, code: body, is_async },
                    ),
                ),
            ),
            Outcome::Maybe(None),
        ),
        StmtView::ReturnStatement { value, .. } => return_rule(run, value, depth),
        StmtView::Conditional { condition, body, else_body, .. } => conditional_rule(
            run,
            condition,
            body,
            else_body,
            depth,
        ),
        StmtView::WhenStatement { condition, body } => when_rule(run, condition, body, depth),
        StmtView::DeleteStatement { target } => delete_rule(run, target, depth),
        StmtView::VariableAssignment { target, value, .. } => variable_assignment_rule(
            run,
            target,
            value,
            depth,
        ),
        StmtView::AfterStatement { event, body } => steps_to(
            run,
            Machine { afters: run.before.afters.push(AfterView { event, body }), ..run.before },
            Outcome::Maybe(None),
        ),
        StmtView::IndexAssignment { target, index, value, .. } => index_assignment_rule(
            ops,
            run,
            target,
            index,
            value,
            depth,
        ),
        StmtView::ClassDeclaration { name, body, .. } => class_rule(run, name, body, depth),
        StmtView::ImportStatement { name } => import_rule(run, name, depth),
        StmtView::ExportStatement { name, target_file } => run.parts.len() == 0 && export_step(
            ops,
            run.before,
            name,
            target_file,
            run.after,
            run.result,
        ),
        StmtView::ReverseStatement => run.parts.len() == 0 && run.result == Outcome::Maybe(None)
            && reverse_step(run.before, run.after),
    }
}

/// The rule of an expression.
pub open spec fn expression_rule<N: Arithmetic>(ops: &N, run: Run, expr: ExprView, depth: nat) -> bool {
    match expr {
        ExprView::Value(token) => value_rule(ops, run, token, depth),
        ExprView::BinaryOp { left, right, operator, .. } => binary_rule(
            ops,
            run,
            *left,
            *right,
            operator,
            depth,
        ),
        ExprView::UnaryOp { operator, expression } => unary_rule(run, operator, *expression, depth),
        ExprView::Function { name, args } => call_rule(ops, run, name, args, depth),
        ExprView::Constructor { class_name, args } => constructor_rule(
            run,
            class_name,
            args,
            depth,
        ),
        ExprView::Index { value, index } => index_rule(ops, run, *value, *index, depth),
        ExprView::List { values } => list_rule(run, values, depth),
    }
}

/// A machine after a sweep at second `now`: every namespace is without the variables
/// whose active lifetime has ended.
pub open spec fn swept(m: Machine, now: u64) -> Machine {
    with_stack(m, swept_all(m.stack, m.line, now))
}

/// The rule of the turn of a statement in a block: the clock is read and what has
/// expired is swept out; the events that wait are handled; the statement runs; the
/// line counter goes up by one. A failure ends the turn where it came.
pub open spec fn turn_rule(run: Run, statement: StmtView, depth: nat) -> bool {
    &&& run.readings.len() == 1
    &&& part_is(run, 0, RunKind::Poll { depth }, swept(run.before, run.readings[0]))
    &&& if failed(run.parts[0].result) {
        ends_with_part(run, 0)
    } else {
        &&& part_is(run, 1, RunKind::Statement { statement, depth }, run.parts[0].after)
        &&& run.parts.len() == 2
        &&& run.result == run.parts[1].result
        &&& run.after == if failed(run.parts[1].result) {
            run.parts[1].after
        } else {
            line_advanced(run.parts[1].after)
        }
    }
}

/// The rule of the end of a block: the `after` statements that wait are run, and
/// then the events that wait are handled.
pub open spec fn closing_rule(run: Run, depth: nat) -> bool {
    &&& part_is(run, 0, RunKind::Flush { depth }, run.before)
    &&& if failed(run.parts[0].result) {
        ends_with_part(run, 0)
    } else {
        part_is(run, 1, RunKind::Poll { depth }, run.parts[0].after) && ends_with_part(run, 1)
    }
}

/// How many of the parts of the run of a block are turns of statements: all but the
/// closing, if the run has come to it.
pub open spec fn turns(run: Run) -> int {
    if run.parts.len() > 0 && run.parts.last().kind is Closing {
        run.parts.len() - 1
    } else {
        run.parts.len() as int
    }
}

/// The rule of a block: its statements have their turns, in order, each from the
/// state that the one before it left, until one fails or returns a value or none is
/// left; unless one failed, the block closes, and yields what the last turn returned.
pub open spec fn block_rule(run: Run, statements: Seq<StmtView>, depth: nat) -> bool {
    let k = turns(run);
    &&& k <= statements.len()
    &&& in_sequence(run.parts, run.before)
    &&& forall|i: int|
        0 <= i < k ==> (#[trigger] run.parts[i]).kind == (RunKind::Turn {
            statement: statements[i],
            depth,
        })
    &&& forall|i: int|
        0 <= i < k - 1 ==> (#[trigger] run.parts[i]).result == Outcome::Maybe(None)
    &&& if k == run.parts.len() {
        k > 0 && failed(run.parts.last().result) && run.after == run.parts.last().after
            && run.result == run.parts.last().result
    } else {
        &&& k > 0 ==> run.parts[k - 1].result is Maybe
        &&& k < statements.len() ==> k > 0 && run.parts[k - 1].result->Maybe_0 is Some
        &&& run.parts[k].kind == RunKind::Closing { depth }
        &&& run.after == run.parts[k].after
        &&& run.result == if failed(run.parts[k].result) {
            run.parts[k].result
        } else if k == 0 {
            Outcome::Maybe(None)
        } else {
            run.parts[k - 1].result
        }
    }
}

/// The rule of handling the events that wait: each is handled, in the order in which
/// they came, from the state that the one before it left; the first failure ends the
/// run.
pub open spec fn poll_rule(run: Run, depth: nat) -> bool {
    &&& run.parts.len() <= run.events.len()
    &&& in_sequence(run.parts, run.before)
    &&& forall|i: int|
        0 <= i < run.parts.len() ==> (#[trigger] run.parts[i]).kind == (RunKind::Event {
            event: run.events[i],
            depth,
        })
    &&& forall|i: int| 0 <= i < run.parts.len() - 1 ==> !failed((#[trigger] run.parts[i]).result)
    &&& run.after == reached(run, run.parts.len() as int, run.before)
    &&& if run.parts.len() > 0 && failed(run.parts.last().result) {
        run.result == run.parts.last().result
    } else {
        run.parts.len() == run.events.len() && run.result == Outcome::Done
    }
}

/// The `after` statements of a queue that the event named `key` sets off, if `wanted`,
/// or those that it does not set off, in the order of the queue.
pub open spec fn waiting(afters: Seq<AfterView>, key: Seq<char>, wanted: bool) -> Seq<AfterView>
    decreases afters.len(),
{
    if afters.len() == 0 {
        Seq::empty()
    } else if sets_off(afters.last().event, key) == wanted {
        waiting(afters.drop_last(), key, wanted).push(afters.last())
    } else {
        waiting(afters.drop_last(), key, wanted)
    }
}

/// The rule of handling one event: the `after` statements that it sets off leave the
/// queue, and their bodies run in the order in which they waited, each from the state
/// that the one before it left; the first failure ends the run.
pub open spec fn event_rule(run: Run, event: EventView, depth: nat) -> bool {
    let key = key_of(event);
    let set_off = waiting(run.before.afters, key, true);
    let taken = Machine { afters: waiting(run.before.afters, key, false), ..run.before };
    if run.before.afters.len() == 0 {
        ends_here(run, Outcome::Done)
    } else if depth == 0 {
        steps_to(
            run,
            taken,
            if set_off.len() > 0 {
                limit_failure()
            } else {
                Outcome::Done
            },
        )
    } else {
        &&& run.parts.len() <= set_off.len()
        &&& in_sequence(run.parts, taken)
        &&& forall|i: int|
            0 <= i < run.parts.len() ==> (#[trigger] run.parts[i]).kind == (RunKind::Block {
                statements: set_off[i].body,
                depth: (depth - 1) as nat,
            })
        &&& forall|i: int| 0 <= i < run.parts.len() - 1 ==> !failed((#[trigger] run.parts[i]).result)
        &&& run.after == reached(run, run.parts.len() as int, taken)
        &&& if run.parts.len() > 0 && failed(run.parts.last().result) {
            run.result == run.parts.last().result
        } else {
            run.parts.len() == set_off.len() && run.result == Outcome::Done
        }
    }
}

/// A machine without the first of the `after` statements that wait.
pub open spec fn popped(m: Machine) -> Machine {
    Machine { afters: m.afters.drop_first(), ..m }
}

/// The state in which the body of the first `after` statement that waits starts when
/// it is run without its event: the statement has left the queue, and this is told.
pub open spec fn flush_start(m: Machine) -> Machine {
    with_notice(
        popped(m),
        "Executing scheduled after statement for "@ + m.filename + ": "@ + m.afters[0].event,
    )
}

/// Whether `part` is the run of the body of the first `after` statement that waits in
/// the state `from`, when it is run without its event.
pub open spec fn flush_step(from: Machine, part: Run, depth: nat) -> bool {
    &&& from.afters.len() > 0
    &&& part.kind == (RunKind::Block {
        statements: from.afters[0].body,
        depth: (depth - 1) as nat,
    })
    &&& part.before == flush_start(from)
}

/// Whether each of some runs is the run of the body of the first `after` statement
/// that waited where the run before it ended, the first of them from `start`.
pub open spec fn flushes(parts: Seq<Run>, start: Machine, depth: nat) -> bool {
    &&& parts.len() > 0 ==> flush_step(start, parts[0], depth)
    &&& forall|i: int, j: int|
        0 <= i && j == i + 1 && j < parts.len() ==> flush_step(
            (#[trigger] parts[i]).after,
            #[trigger] parts[j],
            depth,
        )
}

/// Such runs stay so when one more follows the last.
pub proof fn lemma_flushes_push(parts: Seq<Run>, start: Machine, depth: nat, next: Run)
    requires
        flushes(parts, start, depth),
        flush_step(
            if parts.len() == 0 {
                start
            } else {
                parts.last().after
            },
            next,
            depth,
        ),
    ensures
        flushes(parts.push(next), start, depth),
{
    let more = parts.push(next);
    assert forall|i: int, j: int| 0 <= i && j == i + 1 && j < more.len() implies flush_step(
        (#[trigger] more[i]).after,
        #[trigger] more[j],
        depth,
    ) by {
        if j < parts.len() {
            assert(more[j] == parts[j]);
            assert(more[i] == parts[i]);
        } else {
            assert(more[i] == parts.last());
        }
    }
}

/// The rule of running the `after` statements that wait: as long as one waits, the
/// first leaves the queue and its body runs; the first failure ends the run.
pub open spec fn flush_rule(run: Run, depth: nat) -> bool {
    let n = run.parts.len() as int;
    let end = reached(run, n, run.before);
    &&& flushes(run.parts, run.before, depth)
    &&& forall|i: int| 0 <= i < n - 1 ==> !failed((#[trigger] run.parts[i]).result)
    &&& n > 0 ==> depth > 0
    &&& n <= usize::MAX
    &&& if n > 0 && failed(run.parts.last().result) {
        run.after == end && run.result == run.parts.last().result
    } else if end.afters.len() == 0 {
        run.after == end && run.result == Outcome::Done
    } else if depth == 0 {
        run.after == popped(end) && run.result == limit_failure()
    } else {
        n == usize::MAX && run.after == end && run.result == limit_failure()
    }
}

/// The state that a part of a string leaves: what its expression left, but after a
/// failure without the namespaces that the failure left on the stack.
pub open spec fn settled(part: Run, levels: nat) -> Machine {
    if failed(part.result) {
        with_stack(part.after, part.after.stack.take(levels as int))
    } else {
        part.after
    }
}

/// Whether each of some runs starts from the state that the one before it left,
/// settled, the first of them from `start`.
pub open spec fn settles(parts: Seq<Run>, start: Machine, levels: nat) -> bool {
    &&& parts.len() > 0 ==> parts[0].before == start
    &&& forall|i: int, j: int|
        0 <= i && j == i + 1 && j < parts.len() ==> (#[trigger] parts[j]).before == settled(
            #[trigger] parts[i],
            levels,
        )
}

/// Such runs stay so when one more follows the last.
pub proof fn lemma_settles_push(parts: Seq<Run>, start: Machine, levels: nat, next: Run)
    requires
        settles(parts, start, levels),
        next.before == (if parts.len() == 0 {
            start
        } else {
            settled(parts.last(), levels)
        }),
    ensures
        settles(parts.push(next), start, levels),
{
    let more = parts.push(next);
    assert forall|i: int, j: int| 0 <= i && j == i + 1 && j < more.len() implies (
    #[trigger] more[j]).before == settled(#[trigger] more[i], levels) by {
        if j < parts.len() {
            assert(more[j] == parts[j]);
            assert(more[i] == parts[i]);
        } else {
            assert(more[i] == parts.last());
        }
    }
}

/// The first `n` of some tokens without those that are white space.
pub open spec fn unspaced(tokens: Seq<TokenView>, n: nat) -> Seq<TokenView>
    decreases n,
{
    if n == 0 || n > tokens.len() {
        Seq::empty()
    } else if tokens[n - 1].token_type == TokenType::Whitespace {
        unspaced(tokens, (n - 1) as nat)
    } else {
        unspaced(tokens, (n - 1) as nat).push(tokens[n - 1])
    }
}

/// What stands between the braces of a part of a string.
pub enum Hole {
    /// Nothing but white space.
    Empty,
    /// Text that yields no tokens, with the message that says why.
    Unreadable(Seq<char>),
    /// Tokens that write no expression, with the message that says why.
    Malformed(Seq<char>),
    /// An expression.
    Expression(ExprView),
}

/// What the text between the braces of a part of a string is, with the aliases that
/// are in use: the text is turned into tokens, the white space among them is left
/// out, aliases are mapped back, and the tokens are read as one expression.
pub open spec fn hole_of(text: Seq<char>, aliases: AliasView) -> Hole {
    if crate::interpreter::blank(text) {
        Hole::Empty
    } else {
        match lex(padded(text), 0, 1, 0) {
            Lexed::Tokens(tokens) => match expression_of(
                unspaced(tokens, tokens.len()).map_values(
                    |t: TokenView| canonical_token(aliases, t),
                ),
            ) {
                Ok(tree) => Hole::Expression(tree),
                Err(message) => Hole::Malformed(message),
            },
            Lexed::BadString(line) => Hole::Unreadable(
                line_error_text(
                    "interpolation"@,
                    padded(text),
                    line,
                    unclosed_string_message(),
                ),
            ),
        }
    }
}

/// One piece of a string with parts to evaluate: a character, or a part in braces
/// with its `$`. It reaches from `from` up to `to`; `used` of the expressions of the
/// string were evaluated before it, and `left` once it is handled; `text` is what it gives.
pub struct Piece {
    pub from: int,
    pub to: int,
    pub used: int,
    pub left: int,
    pub text: Seq<char>,
}

/// The state after the first `k` of some runs of expressions of a string, which
/// started from `start`.
pub open spec fn settled_at(parts: Seq<Run>, start: Machine, levels: nat, k: int) -> Machine {
    if k <= 0 {
        start
    } else {
        settled(parts[k - 1], levels)
    }
}

/// Whether a piece is what the string `chars` has at `piece.from`. A character
/// gives itself. A part in braces reaches to the brace that closes it; it gives
/// `${EMPTY}` if it is blank, `${TOKEN_ERROR: ..}` or `${PARSE_ERROR: ..}` with the
/// message if it writes no expression; otherwise its expression is the next to be
/// evaluated, and it gives the value as text, with `ops` writing the numbers, or
/// `${ERROR: ..}` with the message of the failure.
pub open spec fn piece_rule<N: Arithmetic>(
    ops: &N,
    parts: Seq<Run>,
    start: Machine,
    levels: nat,
    chars: Seq<char>,
    depth: nat,
    piece: Piece,
) -> bool {
    let i = piece.from;
    &&& 0 <= i < chars.len()
    &&& 0 <= piece.used <= piece.left
    &&& if chars[i] == '$' && i + 1 < chars.len() && chars[i + 1] == '{' {
        let end = crate::interpreter::closing_brace(chars, i + 2, 1);
        &&& piece.to == if end < chars.len() {
            end + 1
        } else {
            chars.len() as int
        }
        &&& match hole_of(
            chars.subrange(i + 2, end),
            settled_at(parts, start, levels, piece.used).aliases,
        ) {
            Hole::Empty => piece.left == piece.used && piece.text == "${EMPTY}"@,
            Hole::Unreadable(message) => piece.left == piece.used && piece.text
                == "${TOKEN_ERROR: "@ + message + "}"@,
            Hole::Malformed(message) => piece.left == piece.used && piece.text
                == "${PARSE_ERROR: "@ + message + "}"@,
            Hole::Expression(tree) => {
                &&& piece.left == piece.used + 1
                &&& piece.used < parts.len()
                &&& parts[piece.used].kind == (RunKind::Expression {
                    expr: tree,
                    depth: (depth - 1) as nat,
                })
                &&& match parts[piece.used].result {
                    Outcome::Failed(failure) => piece.text == "${ERROR: "@ + failure.message
                        + "}"@,
                    Outcome::Value(v) => crate::builtin::renders(ops, v, piece.text),
                    _ => false,
                }
            },
        }
    } else {
        piece.to == i + 1 && piece.left == piece.used && piece.text == seq![chars[i]]
    }
}

/// A piece that is what the string has stays so when one more expression is
/// evaluated after it.
pub proof fn lemma_piece_stays<N: Arithmetic>(
    ops: &N,
    parts: Seq<Run>,
    start: Machine,
    levels: nat,
    chars: Seq<char>,
    depth: nat,
    piece: Piece,
    next: Run,
)
    requires
        piece_rule(ops, parts, start, levels, chars, depth, piece),
        piece.left <= parts.len(),
    ensures
        piece_rule(ops, parts.push(next), start, levels, chars, depth, piece),
{
    let more = parts.push(next);
    if piece.used > 0 {
        assert(more[piece.used - 1] == parts[piece.used - 1]);
    }
    assert(settled_at(more, start, levels, piece.used) == settled_at(
        parts,
        start,
        levels,
        piece.used,
    ));
    if piece.used < parts.len() {
        assert(more[piece.used] == parts[piece.used]);
    }
}

/// The texts of the first `n` pieces, one after the other.
pub open spec fn pieced(pieces: Seq<Piece>, n: nat) -> Seq<char>
    decreases n,
{
    if n == 0 || n > pieces.len() {
        Seq::empty()
    } else {
        pieced(pieces, (n - 1) as nat) + pieces[n - 1].text
    }
}

/// Whether some pieces follow one another: the first starts the string with no
/// expression evaluated, and each starts where the one before it ended.
pub open spec fn pieces_join(pieces: Seq<Piece>) -> bool {
    &&& pieces.len() > 0 ==> pieces[0].from == 0 && pieces[0].used == 0
    &&& forall|i: int, j: int|
        0 <= i && j == i + 1 && j < pieces.len() ==> (#[trigger] pieces[j]).from == (
        #[trigger] pieces[i]).to && pieces[j].used == pieces[i].left
}

/// Pieces that follow one another stay so when one more follows the last.
pub proof fn lemma_pieces_join_push(pieces: Seq<Piece>, next: Piece)
    requires
        pieces_join(pieces),
        pieces.len() == 0 ==> next.from == 0 && next.used == 0,
        pieces.len() > 0 ==> next.from == pieces.last().to && next.used == pieces.last().left,
    ensures
        pieces_join(pieces.push(next)),
{
    let more = pieces.push(next);
    assert forall|i: int, j: int| 0 <= i && j == i + 1 && j < more.len() implies (
    #[trigger] more[j]).from == (#[trigger] more[i]).to && more[j].used == more[i].left by {
        if j < pieces.len() {
            assert(more[j] == pieces[j]);
            assert(more[i] == pieces[i]);
        } else {
            assert(more[i] == pieces.last());
        }
    }
}

/// The text of pieces does not change when one more piece follows.
pub proof fn lemma_pieced_push(pieces: Seq<Piece>, next: Piece, n: nat)
    requires
        n <= pieces.len(),
    ensures
        pieced(pieces.push(next), n) == pieced(pieces, n),
    decreases n,
{
    if n > 0 {
        lemma_pieced_push(pieces, next, (n - 1) as nat);
        assert(pieces.push(next)[n - 1] == pieces[n - 1]);
    }
}

/// Whether `pieces` are the pieces of the string of a run, in order and all of them,
/// and the run yields their texts, one after the other.
pub open spec fn interpolates<N: Arithmetic>(
    ops: &N,
    run: Run,
    text: Seq<char>,
    depth: nat,
    pieces: Seq<Piece>,
) -> bool {
    let levels = run.before.stack.len();
    &&& pieces_join(pieces)
    &&& forall|i: int|
        0 <= i < pieces.len() ==> piece_rule(
            ops,
            run.parts,
            run.before,
            levels,
            text,
            depth,
            #[trigger] pieces[i],
        )
    &&& if pieces.len() == 0 {
        text.len() == 0 && run.parts.len() == 0
    } else {
        pieces.last().to == text.len() && pieces.last().left == run.parts.len()
    }
    &&& run.result == Outcome::Value(ValueView::String(pieced(pieces, pieces.len())))
}

/// The rule of a string with parts to evaluate: the string is cut into pieces, which
/// are characters and parts in braces; the expressions of the parts are evaluated in
/// order, each from the state that the one before it left; a failure of one of them
/// does not fail the string, and the namespaces that it left on the stack are taken
/// off; the string yields the texts of its pieces, one after the other.
pub open spec fn interpolation_rule<N: Arithmetic>(
    ops: &N,
    run: Run,
    text: Seq<char>,
    depth: nat,
) -> bool {
    let levels = run.before.stack.len();
    if depth == 0 {
        ends_here(run, limit_failure())
    } else {
        &&& settles(run.parts, run.before, levels)
        &&& run.after == settled_at(run.parts, run.before, levels, run.parts.len() as int)
        &&& exists|pieces: Seq<Piece>| #[trigger] interpolates(ops, run, text, depth, pieces)
    }
}

/// Whether a run follows the rule of its kind.
pub open spec fn follows_rule<N: Arithmetic>(ops: &N, run: Run) -> bool {
    match run.kind {
        RunKind::Block { statements, depth } => block_rule(run, statements, depth),
        RunKind::Turn { statement, depth } => turn_rule(run, statement, depth),
        RunKind::Closing { depth } => closing_rule(run, depth),
        RunKind::Poll { depth } => poll_rule(run, depth),
        RunKind::Event { event, depth } => event_rule(run, event, depth),
        RunKind::Flush { depth } => flush_rule(run, depth),
        RunKind::Statement { statement, depth } => statement_rule(ops, run, statement, depth),
        RunKind::Expression { expr, depth } => expression_rule(ops, run, expr, depth),
        RunKind::Interpolation { text, depth } => interpolation_rule(ops, run, text, depth),
        RunKind::All { exprs, depth } => all_rule(run, exprs, depth),
        RunKind::AssignVariable { name, value, depth } => assign_variable_rule(
            run,
            name,
            value,
            depth,
        ),
        RunKind::AssignIndex { target, index, value, depth } => assign_index_rule(
            ops,
            run,
            target,
            index,
            value,
            depth,
        ),
        RunKind::Trigger { name, depth } => trigger_rule(run, name, depth),
        RunKind::Reaction { index, name, depth } => reaction_rule(run, index, name, depth),
    }
}

/// Whether a run is one that the language allows: it follows the rule of its kind,
/// and so does every run below it. `ops` is the arithmetic that computed the numbers.
#[verifier::opaque]
pub open spec fn valid<N: Arithmetic>(ops: &N, run: Run) -> bool
    decreases run,
{
    &&& follows_rule(ops, run)
    &&& forall|i: int| 0 <= i < run.parts.len() ==> valid(ops, #[trigger] run.parts[i])
}

/// A run that follows the rule of its kind, and whose parts are valid, is valid.
pub proof fn lemma_valid<N: Arithmetic>(ops: &N, run: Run)
    requires
        follows_rule(ops, run),
        forall|i: int| 0 <= i < run.parts.len() ==> valid(ops, #[trigger] run.parts[i]),
    ensures
        valid(ops, run),
{
    reveal_with_fuel(valid, 1);
}

/// A valid run follows the rule of its kind, and its parts are valid.
pub proof fn lemma_valid_parts<N: Arithmetic>(ops: &N, run: Run)
    requires
        valid(ops, run),
    ensures
        follows_rule(ops, run),
        forall|i: int| 0 <= i < run.parts.len() ==> valid(ops, #[trigger] run.parts[i]),
{
    reveal_with_fuel(valid, 1);
}

} // verus!
