//! What holds whatever program runs: when a variable is there and when it is gone,
//! what a reverse restores, which aliases are taken, when a `when` runs, and that a
//! value that was written as source text comes back when the text is read, parsed and
//! run again.

use crate::alias::{admissible, aliased, canonical_token, find_alias, is_canonical, lemma_find_alias,
    AliasView};
use crate::base::{TokenType, TokenView};
use crate::binding::{assigned, bound, editable, expired, lasting, reverted, swept, unending,
    EntryView, NamespaceView, VariableView};
use crate::builtin::{distinct_keys, find_entry, lemma_find_entry, lemma_with_entry_distinct,
    with_entry, ValueView};
use crate::builtin::{fresh_indexer, reads_number, truth_of};
use crate::interpreter::{escaped, source_of};
use crate::number::Arithmetic;
use crate::processor::expression_tree::{expression_at, expression_of, primary_at, sequence_at,
    ExprView, Parsed};
use crate::interpreter::source_items;
use crate::processor::lexer::{is_digit, number_end, starts_number};
use crate::processor::lexer::{after, alphabetic, alphanumeric, body_scan, close_run, escapable,
    escape_at, interpolated, is_quote, lex, matching_pair, name_char, name_end, open_scan, padded,
    quote_count, scan, string_scan, Lexed};
use crate::processor::syntax_tree::{declaration_at, expression_end, is_modifier, program_of,
    significant, statement_at, statement_stops, statements_at, StmtView};
use crate::interpreter::declaration_source;
use crate::scope::{declared, entry_value, first_history_level, first_with_history, resolve,
    reversed, stack_assigned, swept_all, variable_level};
use crate::semantics::{declared_machine, failed, lemma_valid_parts, limit_failure, line_advanced,
    module_place, reaction_rule, swept as swept_machine, unspaced, valid, with_notice, with_stack,
    Machine, Outcome, Run, RunKind, WhenView};
use vstd::prelude::*;

verus! {

/// Where `find_entry` ends in a sequence with one more item.
pub proof fn lemma_find_pushed<V>(
    s: Seq<(Seq<char>, V)>,
    item: (Seq<char>, V),
    key: Seq<char>,
    from: int,
)
    requires
        0 <= from <= s.len(),
    ensures
        find_entry(s.push(item), key, from) == if find_entry(s, key, from) < s.len() {
            find_entry(s, key, from)
        } else if item.0 == key {
            s.len() as int
        } else {
            (s.len() + 1) as int
        },
    decreases s.len() - from,
{
    lemma_find_entry(s, key, from);
    if from < s.len() {
        assert(s.push(item)[from] == s[from]);
        if s[from].0 != key {
            lemma_find_pushed(s, item, key, from + 1);
        }
    } else {
        assert(s.push(item)[from] == item);
        assert(find_entry(s.push(item), key, from + 1) == from + 1);
    }
}

/// What a namespace with one more binding holds under `key`: what it held before, or
/// the new binding if it held nothing and the binding is of `key`.
pub proof fn lemma_bound_pushed(ns: NamespaceView, item: (Seq<char>, EntryView), key: Seq<char>)
    ensures
        bound(ns.push(item), key) == match bound(ns, key) {
            Some(e) => Some(e),
            None => if item.0 == key {
                Some(item.1)
            } else {
                None
            },
        },
{
    lemma_find_pushed(ns, item, key, 0);
    lemma_find_entry(ns, key, 0);
}

/// A namespace whose identifiers are all different holds under the identifier of its
/// last binding nothing before that binding.
proof fn lemma_last_is_only(ns: NamespaceView)
    requires
        distinct_keys(ns),
        ns.len() > 0,
    ensures
        bound(ns.drop_last(), ns.last().0) is None,
        distinct_keys(ns.drop_last()),
{
    let init = ns.drop_last();
    lemma_find_entry(init, ns.last().0, 0);
    let i = find_entry(init, ns.last().0, 0);
    if i < init.len() {
        assert(init[i] == ns[i]);
        assert(ns[i].0 != ns[ns.len() - 1].0);
    }
    assert forall|i: int, j: int| 0 <= i < j < init.len() implies init[i].0 != init[j].0 by {
        assert(init[i] == ns[i]);
        assert(init[j] == ns[j]);
    }
}

/// After a sweep a namespace whose identifiers are all different holds under `key`
/// what it held before if that lasts, and nothing otherwise.
pub proof fn lemma_bound_swept(ns: NamespaceView, key: Seq<char>, line: u64, now: u64)
    requires
        distinct_keys(ns),
    ensures
        bound(swept(ns, line, now), key) == match bound(ns, key) {
            Some(e) => if lasting(e, line, now) {
                Some(e)
            } else {
                None
            },
            None => None,
        },
    decreases ns.len(),
{
    if ns.len() == 0 {
        assert(find_entry(ns, key, 0) == 0);
        assert(swept(ns, line, now).len() == 0);
    } else {
        let init = ns.drop_last();
        let last = ns.last();
        lemma_last_is_only(ns);
        lemma_bound_swept(init, key, line, now);
        assert(init.push(last) =~= ns);
        lemma_bound_pushed(init, last, key);
        if lasting(last.1, line, now) {
            lemma_bound_pushed(swept(init, line, now), last, key);
        }
    }
}

/// What a namespace holds under `key` after `key` was bound in it.
pub proof fn lemma_bound_with_entry(ns: NamespaceView, key: Seq<char>, entry: EntryView)
    ensures
        bound(with_entry(ns, key, entry), key) == Some(entry),
{
    lemma_find_entry(ns, key, 0);
    let i = find_entry(ns, key, 0);
    if i < ns.len() {
        let updated = ns.update(i, (key, entry));
        lemma_find_unchanged_prefix(ns, updated, key, 0, i);
    } else {
        lemma_find_pushed(ns, (key, entry), key, 0);
    }
}

/// `find_entry` does not look past the place where it ends.
proof fn lemma_find_unchanged_prefix<V>(
    a: Seq<(Seq<char>, V)>,
    b: Seq<(Seq<char>, V)>,
    key: Seq<char>,
    from: int,
    end: int,
)
    requires
        0 <= from <= end < a.len(),
        a.len() == b.len(),
        forall|j: int| from <= j < end ==> a[j].0 != key && b[j].0 != key,
        b[end].0 == key,
    ensures
        find_entry(b, key, from) == end,
    decreases end - from,
{
    if from < end {
        lemma_find_unchanged_prefix(a, b, key, from + 1, end);
    }
}

/// A variable counted in lines, with a duration that has an end, that is declared in
/// the innermost namespace stays
/// there through every sweep at a line before the line it began at plus its
/// duration, and is gone from that namespace after a sweep at that line or a later
/// one: with a duration of `d` lines from line `L` it is there at line `L + d - 1`
/// and no longer at line `L + d`.
pub proof fn line_based_expiry(
    stack: Seq<NamespaceView>,
    name: Seq<char>,
    variable: VariableView,
    line: u64,
    now: u64,
)
    requires
        stack.len() > 0,
        distinct_keys(stack.last()),
        variable.lifetimes.len() > 0,
        !variable.lifetimes[0].is_time_based,
        variable.lifetimes[0].duration != unending(),
    ensures
        ({
            let after = swept_all(
                declared(stack, name, EntryView::Variable(variable)),
                line,
                now,
            );
            let ends = variable.lifetimes[0].created_line + variable.lifetimes[0].duration;
            &&& line < ends ==> resolve(after, name) == Some(EntryView::Variable(variable))
            &&& line >= ends ==> bound(after.last(), name) is None
        }),
{
    let entry = EntryView::Variable(variable);
    let innermost = with_entry(stack.last(), name, entry);
    let after = swept_all(declared(stack, name, entry), line, now);
    lemma_with_entry_distinct(stack.last(), name, entry);
    lemma_bound_with_entry(stack.last(), name, entry);
    lemma_bound_swept(innermost, name, line, now);
    assert(after.last() == swept(innermost, line, now));
}

/// A variable counted in seconds, with a duration of at least one second that has an
/// end, that is
/// declared in the innermost namespace is still there after a sweep at the second it
/// began at, stays there through every sweep before its duration has passed, and is
/// gone from that namespace after the first sweep at or after that.
pub proof fn time_based_expiry(
    stack: Seq<NamespaceView>,
    name: Seq<char>,
    variable: VariableView,
    line: u64,
    now: u64,
)
    requires
        stack.len() > 0,
        distinct_keys(stack.last()),
        variable.lifetimes.len() > 0,
        variable.lifetimes[0].is_time_based,
        variable.lifetimes[0].duration >= 1,
        variable.lifetimes[0].duration != unending(),
        now >= variable.lifetimes[0].created_at,
    ensures
        ({
            let after = swept_all(
                declared(stack, name, EntryView::Variable(variable)),
                line,
                now,
            );
            let elapsed = now - variable.lifetimes[0].created_at;
            &&& elapsed < variable.lifetimes[0].duration ==> resolve(after, name) == Some(
                EntryView::Variable(variable),
            )
            &&& elapsed == 0 ==> resolve(after, name) == Some(EntryView::Variable(variable))
            &&& elapsed >= variable.lifetimes[0].duration ==> bound(after.last(), name) is None
        }),
{
    let entry = EntryView::Variable(variable);
    let innermost = with_entry(stack.last(), name, entry);
    let after = swept_all(declared(stack, name, entry), line, now);
    lemma_with_entry_distinct(stack.last(), name, entry);
    lemma_bound_with_entry(stack.last(), name, entry);
    lemma_bound_swept(innermost, name, line, now);
    assert(after.last() == swept(innermost, line, now));
}

/// A variable whose duration stands for no end is never swept out: after a sweep at
/// any line and any second it is still what its name resolves to.
pub proof fn unending_lifetime_stays(
    stack: Seq<NamespaceView>,
    name: Seq<char>,
    variable: VariableView,
    line: u64,
    now: u64,
)
    requires
        stack.len() > 0,
        distinct_keys(stack.last()),
        variable.lifetimes.len() > 0,
        variable.lifetimes[0].duration == unending(),
    ensures
        !expired(variable.lifetimes[0], line, now),
        resolve(
            swept_all(declared(stack, name, EntryView::Variable(variable)), line, now),
            name,
        ) == Some(EntryView::Variable(variable)),
{
    let entry = EntryView::Variable(variable);
    let innermost = with_entry(stack.last(), name, entry);
    let after = swept_all(declared(stack, name, entry), line, now);
    lemma_with_entry_distinct(stack.last(), name, entry);
    lemma_bound_with_entry(stack.last(), name, entry);
    lemma_bound_swept(innermost, name, line, now);
    assert(after.last() == swept(innermost, line, now));
}

/// A declaration with the lifetime `Infinity`, and one without a lifetime, makes a
/// variable that never expires, whatever the line and the second.
pub proof fn infinity_never_expires(
    name: Seq<char>,
    modifiers: Seq<Seq<char>>,
    confidence: i32,
    value: ValueView,
    declared_line: u64,
    declared_at: u64,
    line: u64,
    now: u64,
)
    ensures
        crate::rules::duration_of(Some("Infinity"@)) == unending(),
        crate::rules::duration_of(None) == unending(),
        ({
            let made = crate::interpreter::declared_binding(
                name,
                modifiers,
                Some("Infinity"@),
                confidence,
                value,
                declared_line,
                declared_at,
            );
            made is Variable && !expired(made->Variable_0.lifetimes[0], line, now)
        }),
        ({
            let made = crate::interpreter::declared_binding(
                name,
                modifiers,
                None,
                confidence,
                value,
                declared_line,
                declared_at,
            );
            made is Variable && !expired(made->Variable_0.lifetimes[0], line, now)
        }),
{
}

/// Whether no variable of a stack has a history.
pub open spec fn no_history(stack: Seq<NamespaceView>) -> bool {
    first_history_level(stack, 0) >= stack.len()
}

/// Whether the binding in place `place` is a variable with a history.
pub open spec fn has_history(ns: NamespaceView, place: int) -> bool {
    ns[place].1 is Variable && ns[place].1->Variable_0.prev_values.len() > 0
}

proof fn lemma_first_with_history(ns: NamespaceView, from: int)
    requires
        0 <= from <= ns.len(),
    ensures
        from <= first_with_history(ns, from) <= ns.len(),
        first_with_history(ns, from) < ns.len() ==> has_history(ns, first_with_history(ns, from)),
        forall|j: int| from <= j < first_with_history(ns, from) ==> !has_history(ns, j),
    decreases ns.len() - from,
{
    if from < ns.len() && !has_history(ns, from) {
        lemma_first_with_history(ns, from + 1);
    }
}

proof fn lemma_first_history_level(stack: Seq<NamespaceView>, from: int)
    requires
        0 <= from <= stack.len(),
    ensures
        from <= first_history_level(stack, from) <= stack.len(),
        first_history_level(stack, from) < stack.len() ==> first_with_history(
            stack[first_history_level(stack, from)],
            0,
        ) < stack[first_history_level(stack, from)].len(),
        forall|i: int|
            from <= i < first_history_level(stack, from) ==> first_with_history(stack[i], 0)
                >= stack[i].len(),
    decreases stack.len() - from,
{
    if from < stack.len() && first_with_history(stack[from], 0) >= stack[from].len() {
        lemma_first_history_level(stack, from + 1);
    }
}

proof fn lemma_history_found_at(ns: NamespaceView, from: int, place: int)
    requires
        0 <= from <= place < ns.len(),
        has_history(ns, place),
        forall|j: int| from <= j < place ==> !has_history(ns, j),
    ensures
        first_with_history(ns, from) == place,
    decreases place - from,
{
    if from < place {
        assert(!has_history(ns, from));
        lemma_history_found_at(ns, from + 1, place);
    }
}

proof fn lemma_history_level_found_at(stack: Seq<NamespaceView>, from: int, level: int)
    requires
        0 <= from <= level < stack.len(),
        first_with_history(stack[level], 0) < stack[level].len(),
        forall|i: int| from <= i < level ==> first_with_history(stack[i], 0) >= stack[i].len(),
    ensures
        first_history_level(stack, from) == level,
    decreases level - from,
{
    if from < level {
        assert(first_with_history(stack[from], 0) >= stack[from].len());
        lemma_history_level_found_at(stack, from + 1, level);
    }
}

proof fn lemma_variable_level(stack: Seq<NamespaceView>, name: Seq<char>, upto: int)
    requires
        0 <= upto <= stack.len(),
    ensures
        -1 <= variable_level(stack, name, upto) < upto,
        variable_level(stack, name, upto) >= 0 ==> crate::scope::holds_variable(
            stack[variable_level(stack, name, upto)],
            name,
        ),
    decreases upto,
{
    if upto > 0 && !crate::scope::holds_variable(stack[upto - 1], name) {
        lemma_variable_level(stack, name, upto - 1);
    }
}

/// In a stack where no variable has a history, a reverse after one assignment to a
/// variable whose value may be changed gives back the stack as it was before the
/// assignment, the value of the variable with it; and a second reverse changes
/// nothing.
pub proof fn reverse_restores(stack: Seq<NamespaceView>, name: Seq<char>, value: ValueView)
    requires
        stack.len() > 0,
        no_history(stack),
        variable_level(stack, name, stack.len() as int) >= 0,
        editable(
            bound(stack[variable_level(stack, name, stack.len() as int)], name)->0->Variable_0,
        ),
    ensures
        reversed(stack_assigned(stack, name, value)) == stack,
        reversed(reversed(stack_assigned(stack, name, value))) == stack,
{
    let level = variable_level(stack, name, stack.len() as int);
    lemma_variable_level(stack, name, stack.len() as int);
    let ns = stack[level];
    let place = find_entry(ns, name, 0);
    lemma_find_entry(ns, name, 0);
    let v = ns[place].1->Variable_0;
    let changed = assigned(v, value);
    let ns1 = ns.update(place, (name, EntryView::Variable(changed)));
    let s1 = stack.update(level, ns1);
    assert(stack_assigned(stack, name, value) == s1);
    lemma_first_history_level(stack, 0);
    assert forall|i: int| 0 <= i < stack.len() implies first_with_history(stack[i], 0)
        >= stack[i].len() by {}
    lemma_first_with_history(ns, 0);
    assert(v.prev_values.len() == 0) by {
        assert(!has_history(ns, place));
    }
    assert forall|j: int| 0 <= j < place implies !has_history(ns1, j) by {
        assert(ns1[j] == ns[j]);
        assert(!has_history(ns, j));
    }
    assert(has_history(ns1, place));
    lemma_history_found_at(ns1, 0, place);
    assert forall|i: int| 0 <= i < level implies first_with_history(s1[i], 0) >= s1[i].len() by {
        assert(s1[i] == stack[i]);
    }
    lemma_history_level_found_at(s1, 0, level);
    let back = reverted(changed);
    assert(back.prev_values =~= v.prev_values);
    assert(back.lifetimes =~= v.lifetimes);
    assert(back == v);
    assert(ns1.update(place, (name, EntryView::Variable(back))) =~= ns);
    assert(reversed(s1) =~= stack);
}

/// A name that is a keyword, that is an alias already, or that an alias stands for
/// cannot become an alias.
pub proof fn alias_rejections(table: AliasView, original: Seq<char>, new_name: Seq<char>)
    ensures
        is_canonical(new_name) ==> !admissible(table, original, new_name),
        aliased(table, new_name) is Some ==> !admissible(table, original, new_name),
        crate::alias::stands_for(table, new_name) ==> !admissible(table, original, new_name),
{
}

proof fn lemma_find_alias_pushed(
    table: AliasView,
    item: (Seq<char>, Seq<char>),
    name: Seq<char>,
    from: int,
)
    requires
        0 <= from <= table.len(),
        find_alias(table, name, from) >= table.len(),
        item.0 == name,
    ensures
        find_alias(table.push(item), name, from) == table.len(),
    decreases table.len() - from,
{
    if from < table.len() {
        assert(table.push(item)[from] == table[from]);
        lemma_find_alias_pushed(table, item, name, from + 1);
    } else {
        assert(table.push(item)[from] == item);
    }
}

/// Once `new_name` has become an alias of `original`, a name token that is spelled
/// `new_name` is mapped back to `original`, and keeps its kind and its place.
pub proof fn alias_canonicalizes(
    table: AliasView,
    original: Seq<char>,
    new_name: Seq<char>,
    token: TokenView,
)
    requires
        admissible(table, original, new_name),
        token.token_type == TokenType::Name,
        token.value == new_name,
    ensures
        canonical_token(table.push((new_name, original)), token) == (TokenView {
            value: original,
            ..token
        }),
{
    lemma_find_alias(table, new_name, 0);
    lemma_find_alias_pushed(table, (new_name, original), new_name, 0);
}

/// A `when` whose condition counts as false when the statement runs does not run its
/// body then: the run of the statement has the run of the condition as its only part,
/// and it registers the statement with the names that the condition reads.
pub proof fn when_waits<N: Arithmetic>(
    ops: &N,
    run: Run,
    condition: ExprView,
    body: Seq<StmtView>,
    depth: nat,
)
    requires
        valid(ops, run),
        run.kind == (RunKind::Statement {
            statement: StmtView::WhenStatement { condition, body },
            depth,
        }),
        depth > 0,
        run.parts.len() > 0 ==> !failed(run.parts[0].result) && truth_of(
            run.parts[0].result->Value_0,
        ) == Some(false),
    ensures
        run.parts.len() == 1,
        run.parts[0].kind == (RunKind::Expression { expr: condition, depth: (depth - 1) as nat }),
        run.parts[0].before == run.before,
        run.result == Outcome::Maybe(None),
        run.after == (Machine {
            whens: run.parts[0].after.whens.push(
                WhenView {
                    condition,
                    body,
                    dependent_variables: crate::interpreter::deduplicated(
                        crate::interpreter::named_in(condition),
                    ),
                },
            ),
            ..run.parts[0].after
        }),
{
    lemma_valid_parts(ops, run);
}

/// An assignment to a variable that exists gives every `when` that was registered its
/// turn, in the order of registration and until one fails: a `when` that does not
/// read the variable does nothing; one that reads it has its condition evaluated, and
/// its body run as a block unless the condition counts as false.
pub proof fn assignment_sets_off<N: Arithmetic>(
    ops: &N,
    run: Run,
    name: Seq<char>,
    value: ValueView,
    depth: nat,
)
    requires
        valid(ops, run),
        run.kind == (RunKind::AssignVariable { name, value, depth }),
        variable_level(run.before.stack, name, run.before.stack.len() as int) >= 0,
    ensures
        run.parts.len() == 1,
        run.parts[0].kind == (RunKind::Trigger { name, depth }),
        run.parts[0].before == with_stack(
            run.before,
            stack_assigned(run.before.stack, name, value),
        ),
        run.after == run.parts[0].after,
        run.result == run.parts[0].result,
        forall|i: int|
            0 <= i < run.parts[0].parts.len() ==> reaction_rule(
                #[trigger] run.parts[0].parts[i],
                i as nat,
                name,
                depth,
            ),
        !failed(run.result) ==> run.parts[0].parts.len() == run.before.whens.len(),
{
    lemma_valid_parts(ops, run);
    let trigger = run.parts[0];
    lemma_valid_parts(ops, trigger);
    assert forall|i: int| 0 <= i < trigger.parts.len() implies reaction_rule(
        #[trigger] trigger.parts[i],
        i as nat,
        name,
        depth,
    ) by {
        lemma_valid_parts(ops, trigger.parts[i]);
    }
}

/// What a character is written as between double quotes.
pub open spec fn escaped_one(c: char) -> Seq<char> {
    if escapable(c) {
        seq!['\\', c]
    } else {
        seq![c]
    }
}

/// A text with one more character in front is written as that character and then the
/// text.
pub proof fn lemma_escaped_front(c: char, t: Seq<char>)
    ensures
        escaped(seq![c] + t) == escaped_one(c) + escaped(t),
    decreases t.len(),
{
    let whole = seq![c] + t;
    if t.len() == 0 {
        assert(whole.drop_last() =~= Seq::<char>::empty());
        assert(whole.last() == c);
        assert(escaped(whole.drop_last()) =~= Seq::<char>::empty());
        assert(escaped(whole) =~= escaped_one(c) + escaped(t));
    } else {
        assert(whole.drop_last() =~= seq![c] + t.drop_last());
        assert(whole.last() == t.last());
        lemma_escaped_front(c, t.drop_last());
        assert(escaped(whole) =~= escaped_one(c) + escaped(t));
    }
}

/// The lexer reads a text that is written with its backslashes, up to the double
/// quote behind it, as the text.
pub proof fn lemma_body_reads(chars: Seq<char>, curr: int, s: Seq<char>, value: Seq<char>)
    requires
        0 <= curr,
        curr + escaped(s).len() < chars.len(),
        chars.subrange(curr, curr + escaped(s).len()) == escaped(s),
        chars[curr + escaped(s).len()] == '"',
    ensures
        body_scan(chars, curr, 2, value) == Some((curr + escaped(s).len(), value + s)),
    decreases s.len(),
{
    if s.len() == 0 {
        assert(value + s =~= value);
        assert(!escape_at(chars, curr));
        assert(close_run(chars, curr, 0, 2) == (curr, true));
    } else {
        let c = s[0];
        let t = s.subrange(1, s.len() as int);
        let written = escaped(s);
        assert(s =~= seq![c] + t);
        lemma_escaped_front(c, t);
        assert(written == escaped_one(c) + escaped(t));
        assert(chars[curr] == written[0]);
        if escapable(c) {
            assert(chars[curr + 1] == written[1]);
            assert(escape_at(chars, curr));
            assert(chars.subrange(curr + 2, curr + 2 + escaped(t).len()) =~= escaped(t)) by {
                assert forall|k: int| 0 <= k < escaped(t).len() implies chars[curr + 2 + k]
                    == escaped(t)[k] by {
                    assert(chars[curr + 2 + k] == written[2 + k]);
                }
            }
            lemma_body_reads(chars, curr + 2, t, value.push(c));
            assert(value.push(c) + t =~= value + s);
        } else {
            assert(chars[curr] == c);
            assert(!escape_at(chars, curr));
            assert(!is_quote(c));
            assert(close_run(chars, curr, 0, 2) == (curr, false));
            assert(value + chars.subrange(curr, curr + 1) =~= value.push(c));
            assert(chars.subrange(curr + 1, curr + 1 + escaped(t).len()) =~= escaped(t)) by {
                assert forall|k: int| 0 <= k < escaped(t).len() implies chars[curr + 1 + k]
                    == escaped(t)[k] by {
                    assert(chars[curr + 1 + k] == written[1 + k]);
                }
            }
            lemma_body_reads(chars, curr + 1, t, value.push(c));
            assert(value.push(c) + t =~= value + s);
        }
    }
}

/// The first character of a text as it is written is no quote.
proof fn lemma_escaped_starts(s: Seq<char>)
    requires
        s.len() > 0,
    ensures
        escaped(s).len() > 0,
        !is_quote(escaped(s)[0]),
{
    let c = s[0];
    let t = s.subrange(1, s.len() as int);
    assert(s =~= seq![c] + t);
    lemma_escaped_front(c, t);
}

/// Every text reads back as itself, wherever it stands: where a source holds at `at`
/// what export writes for a text, which is the text between double quotes with a
/// backslash before each quote and each backslash, the lexer reads one string there,
/// with that text, up to its closing quote. So does a text inside a list.
pub proof fn text_reads_back_anywhere(chars: Seq<char>, at: int, s: Seq<char>, depth: nat)
    requires
        depth <= 10,
        0 <= at,
        at + source_of(ValueView::String(s), depth).len() <= chars.len(),
        chars.subrange(at, at + source_of(ValueView::String(s), depth).len()) == source_of(
            ValueView::String(s),
            depth,
        ),
    ensures
        string_scan(chars, at) == Some((at + escaped(s).len() + 1, s)),
{
    reveal_strlit("\"");
    let written = escaped(s);
    let source = source_of(ValueView::String(s), depth);
    assert(source =~= seq!['"'] + written + seq!['"']);
    let n = written.len() as int;
    assert(source.len() == n + 2);
    assert forall|k: int| 0 <= k < n + 2 implies chars[at + k] == source[k] by {
        assert(chars.subrange(at, at + n + 2)[k] == source[k]);
    }
    assert(chars[at] == source[0]);
    assert(chars[at] == '"');
    assert(chars.subrange(at, at + 1) =~= seq!['"']);
    assert(seq!['"'].drop_last() =~= Seq::<char>::empty());
    assert(quote_count(seq!['"'].drop_last()) == 0);
    assert(quote_count(seq!['"']) == 2);
    assert(!matching_pair(seq!['"'])) by {
        assert forall|i: int| 0 <= i < 1 implies #[trigger] quote_count(seq!['"'].take(i))
            != 1 by {
            assert(seq!['"'].take(0) =~= Seq::<char>::empty());
        }
    }
    if s.len() == 0 {
        assert(chars[at + 1] == source[1]);
        assert(chars[at + 1] == '"');
        let pair = chars.subrange(at, at + 2);
        assert(pair =~= seq!['"', '"']);
        assert(pair.drop_last() =~= seq!['"']);
        assert(quote_count(pair) == 4);
        assert(pair.take(1) =~= seq!['"']);
        assert(quote_count(pair.take(1)) == quote_count(pair) / 2);
        assert(matching_pair(pair));
        assert(open_scan(chars, at, at + 1) == (at + 1, true));
        assert(open_scan(chars, at, at) == (at + 1, true));
    } else {
        lemma_escaped_starts(s);
        assert(chars[at + 1] == source[1]);
        assert(chars[at + 1] == written[0]);
        assert(open_scan(chars, at, at + 1) == (at + 1, false));
        assert(open_scan(chars, at, at) == (at + 1, false));
        assert(chars.subrange(at + 1, at + 1 + n) =~= written) by {
            assert forall|k: int| 0 <= k < n implies chars[at + 1 + k] == written[k] by {
                assert(chars[at + 1 + k] == source[1 + k]);
            }
        }
        assert(chars[at + 1 + n] == source[n + 1]);
        assert(chars[at + 1 + n] == '"');
        lemma_body_reads(chars, at + 1, s, Seq::empty());
        assert(Seq::<char>::empty() + s =~= s);
    }
}

/// Every text reads back as itself: the source text that export writes for a text
/// is read by the lexer as one string with that text, whatever follows it.
pub proof fn text_reads_back(s: Seq<char>, rest: Seq<char>)
    ensures
        string_scan(source_of(ValueView::String(s), 0) + rest, 0) == Some(
            ((escaped(s).len() + 1) as int, s),
        ),
{
    let source = source_of(ValueView::String(s), 0);
    let chars = source + rest;
    assert(chars.subrange(0, source.len() as int) =~= source);
    text_reads_back_anywhere(chars, 0, s, 0);
}

/// The expression that source text writes: the text is turned into tokens, the
/// white space among them is left out, and the tokens are read as one expression.
/// `None` if the text writes no expression.
pub open spec fn expression_read(source: Seq<char>) -> Option<ExprView> {
    match lex(padded(source), 0, 1, 0) {
        Lexed::Tokens(tokens) => match expression_of(unspaced(tokens, tokens.len())) {
            Ok(tree) => Some(tree),
            Err(_) => None,
        },
        Lexed::BadString(_) => None,
    }
}

/// The token of a text that stands alone in its source.
pub open spec fn text_token(s: Seq<char>) -> TokenView {
    TokenView { token_type: TokenType::String, value: s, line: 1, col: 0 }
}

/// The source text that export writes for a text that holds no `${` is read as one
/// expression: the string with that text.
pub proof fn text_source_is_read(s: Seq<char>)
    requires
        !interpolated(s),
    ensures
        expression_read(source_of(ValueView::String(s), 0)) == Some(
            ExprView::Value(text_token(s)),
        ),
{
    reveal_strlit("   ");
    reveal_strlit("\"");
    reveal_strlit(" ");
    let source = source_of(ValueView::String(s), 0);
    let chars = padded(source);
    let n = escaped(s).len() as int;
    text_reads_back(s, "   "@);
    assert(source =~= seq!['"'] + escaped(s) + seq!['"']);
    assert(source.len() == n + 2);
    assert(chars.len() == n + 5);
    assert(chars[0] == '"');
    assert(chars[n + 2] == ' ');
    assert(chars[n + 3] == ' ');
    assert(chars[n + 4] == ' ');
    let token = text_token(s);
    let first = scan(chars, 0, 1, 0);
    assert(first.tokens == seq![token]);
    assert(first.next == n + 2);
    assert(!first.failed);
    let space = |col: int|
        TokenView { token_type: TokenType::Whitespace, value: " "@, line: 1, col: col as usize };
    assert(scan(chars, n + 2, 1, 0).tokens == seq![space(n + 2)]);
    assert(scan(chars, n + 3, 1, 0).tokens == seq![space(n + 3)]);
    assert(scan(chars, n + 4, 1, 0).tokens == seq![space(n + 4)]);
    assert(lex(chars, n + 5, 1, 0) == Lexed::Tokens(Seq::empty()));
    assert(lex(chars, n + 4, 1, 0) == Lexed::Tokens(seq![space(n + 4)])) by {
        assert(seq![space(n + 4)] + Seq::<TokenView>::empty() =~= seq![space(n + 4)]);
    }
    assert(lex(chars, n + 3, 1, 0) == Lexed::Tokens(seq![space(n + 3), space(n + 4)])) by {
        assert(seq![space(n + 3)] + seq![space(n + 4)] =~= seq![space(n + 3), space(n + 4)]);
    }
    let spaces = seq![space(n + 2), space(n + 3), space(n + 4)];
    assert(lex(chars, n + 2, 1, 0) == Lexed::Tokens(spaces)) by {
        assert(seq![space(n + 2)] + seq![space(n + 3), space(n + 4)] =~= spaces);
    }
    let tokens = seq![token] + spaces;
    assert(lex(chars, 0, 1, 0) == Lexed::Tokens(tokens));
    assert(tokens.len() == 4);
    reveal_with_fuel(unspaced, 5);
    assert(unspaced(tokens, 4) =~= seq![token]);
    assert(expression_of(seq![token]) == Ok::<ExprView, Seq<char>>(ExprView::Value(token)));
}

/// A string without `${` evaluates to its text and changes nothing.
pub proof fn text_evaluates<N: Arithmetic>(ops: &N, run: Run, token: TokenView, depth: nat)
    requires
        valid(ops, run),
        token.token_type == TokenType::String,
        run.kind == (RunKind::Expression { expr: ExprView::Value(token), depth }),
    ensures
        run.result == Outcome::Value(ValueView::String(token.value)),
        run.after == run.before,
{
    lemma_valid_parts(ops, run);
}

/// A text that was exported comes back: the source text that export writes for a
/// text that holds no `${` is read as an expression whose every valid run yields
/// that text and changes nothing.
pub proof fn text_round_trip<N: Arithmetic>(ops: &N, s: Seq<char>, run: Run, depth: nat)
    requires
        !interpolated(s),
        valid(ops, run),
        expression_read(source_of(ValueView::String(s), 0)) is Some ==> run.kind
            == (RunKind::Expression {
            expr: expression_read(source_of(ValueView::String(s), 0))->0,
            depth,
        }),
    ensures
        expression_read(source_of(ValueView::String(s), 0)) is Some,
        run.result == Outcome::Value(ValueView::String(s)),
        run.after == run.before,
{
    text_source_is_read(s);
    text_evaluates(ops, run, text_token(s), depth);
}

/// What the laws on names take of the letters: that the standard library, which the
/// lexer asks, takes the small Latin letters for letters, and a space, a comma, a
/// closing bracket and an exclamation mark for none.
pub open spec fn latin_letters_are_letters() -> bool {
    &&& forall|c: char| 97 <= c as u32 <= 122 ==> #[trigger] alphabetic(c)
    &&& forall|c: char| 97 <= c as u32 <= 122 ==> #[trigger] alphanumeric(c)
    &&& !alphanumeric(' ')
    &&& !alphanumeric(',')
    &&& !alphanumeric(']')
    &&& !alphanumeric('!')
}

/// Whether a text is a word of small Latin letters.
pub open spec fn latin_word(word: Seq<char>) -> bool {
    word.len() > 0 && forall|i: int| 0 <= i < word.len() ==> 97 <= (#[trigger] word[i]) as u32 <= 122
}

/// A name goes on as long as its characters are characters of names.
proof fn lemma_name_end(chars: Seq<char>, from: int, n: nat)
    requires
        0 <= from,
        from + n < chars.len(),
        forall|i: int| from <= i < from + n ==> name_char(#[trigger] chars[i]),
        !name_char(chars[from + n]),
    ensures
        name_end(chars, from) == from + n,
    decreases n,
{
    if n > 0 {
        assert(name_char(chars[from]));
        lemma_name_end(chars, from + 1, (n - 1) as nat);
    }
}

/// The token of a name that stands alone in its source.
pub open spec fn name_token(word: Seq<char>) -> TokenView {
    TokenView { token_type: TokenType::Name, value: word, line: 1, col: 0 }
}

/// A word of small Latin letters other than `new`, alone in its source, is read as
/// one expression: the name.
pub proof fn word_source_is_read(word: Seq<char>)
    requires
        latin_letters_are_letters(),
        latin_word(word),
        word != "new"@,
    ensures
        expression_read(word) == Some(ExprView::Value(name_token(word))),
{
    reveal_strlit("   ");
    reveal_strlit(" ");
    let chars = padded(word);
    let n = word.len() as int;
    assert(chars.len() == n + 3);
    assert(chars[n] == ' ');
    assert(chars[n + 1] == ' ');
    assert(chars[n + 2] == ' ');
    assert forall|i: int| 0 <= i < n implies name_char(#[trigger] chars[i]) by {
        assert(chars[i] == word[i]);
    }
    lemma_name_end(chars, 0, n as nat);
    assert(chars[0] == word[0]);
    assert(alphabetic(chars[0]));
    assert(chars.subrange(0, n) =~= word);
    let token = name_token(word);
    let first = scan(chars, 0, 1, 0);
    assert(first.tokens == seq![token]);
    assert(first.next == n);
    let space = |col: int|
        TokenView { token_type: TokenType::Whitespace, value: " "@, line: 1, col: col as usize };
    assert(scan(chars, n, 1, 0).tokens == seq![space(n)]);
    assert(scan(chars, n + 1, 1, 0).tokens == seq![space(n + 1)]);
    assert(scan(chars, n + 2, 1, 0).tokens == seq![space(n + 2)]);
    assert(lex(chars, n + 3, 1, 0) == Lexed::Tokens(Seq::empty()));
    assert(lex(chars, n + 2, 1, 0) == Lexed::Tokens(seq![space(n + 2)])) by {
        assert(seq![space(n + 2)] + Seq::<TokenView>::empty() =~= seq![space(n + 2)]);
    }
    assert(lex(chars, n + 1, 1, 0) == Lexed::Tokens(seq![space(n + 1), space(n + 2)])) by {
        assert(seq![space(n + 1)] + seq![space(n + 2)] =~= seq![space(n + 1), space(n + 2)]);
    }
    let spaces = seq![space(n), space(n + 1), space(n + 2)];
    assert(lex(chars, n, 1, 0) == Lexed::Tokens(spaces)) by {
        assert(seq![space(n)] + seq![space(n + 1), space(n + 2)] =~= spaces);
    }
    let tokens = seq![token] + spaces;
    assert(lex(chars, 0, 1, 0) == Lexed::Tokens(tokens));
    assert(tokens.len() == 4);
    reveal_with_fuel(unspaced, 5);
    assert(unspaced(tokens, 4) =~= seq![token]);
    assert(expression_of(seq![token]) == Ok::<ExprView, Seq<char>>(ExprView::Value(token)));
}

/// The word that export writes for a truth value.
pub open spec fn truth_word(b: Option<bool>) -> Seq<char> {
    match b {
        Some(true) => "true"@,
        Some(false) => "false"@,
        None => "maybe"@,
    }
}

/// A truth value that was exported comes back: the source text that export writes for
/// it is its word, which is read as a name; where that name is bound to the truth
/// value, as it is from the start, every valid run of the expression yields the truth
/// value and changes nothing.
pub proof fn truth_value_round_trip<N: Arithmetic>(ops: &N, b: Option<bool>, run: Run, depth: nat)
    requires
        latin_letters_are_letters(),
        valid(ops, run),
        expression_read(source_of(ValueView::Boolean(b), 0)) is Some ==> run.kind
            == (RunKind::Expression {
            expr: expression_read(source_of(ValueView::Boolean(b), 0))->0,
            depth,
        }),
        resolve(run.before.stack, truth_word(b)) is Some,
        entry_value(resolve(run.before.stack, truth_word(b))->0) == ValueView::Boolean(b),
    ensures
        source_of(ValueView::Boolean(b), 0) == truth_word(b),
        expression_read(source_of(ValueView::Boolean(b), 0)) == Some(
            ExprView::Value(name_token(truth_word(b))),
        ),
        run.result == Outcome::Value(ValueView::Boolean(b)),
        run.after == run.before,
{
    reveal_strlit("true");
    reveal_strlit("false");
    reveal_strlit("maybe");
    reveal_strlit("new");
    let word = truth_word(b);
    assert(word.len() != "new"@.len());
    assert(latin_word(word));
    word_source_is_read(word);
    lemma_valid_parts(ops, run);
}

/// Whether a value is a text without `${`, a truth value, or a list of such values,
/// nested no deeper than export writes.
pub open spec fn writable(v: ValueView, depth: nat) -> bool
    decreases v,
{
    depth <= 10 && match v {
        ValueView::String(s) => !interpolated(s),
        ValueView::Boolean(_) => true,
        ValueView::List { values, .. } => forall|i: int|
            0 <= i < values.len() ==> writable(#[trigger] values[i], depth + 1),
        _ => false,
    }
}

/// A token on the first line, at the place `at`.
pub open spec fn token_at(token_type: TokenType, value: Seq<char>, at: int) -> TokenView {
    TokenView { token_type, value, line: 1, col: at as usize }
}

/// The tokens of the first `n` items of a list whose source text starts at `at`.
pub open spec fn item_tokens(items: Seq<ValueView>, n: nat, at: int, depth: nat) -> Seq<TokenView>
    decreases items, n,
{
    if n == 0 || n > items.len() {
        Seq::empty()
    } else if n == 1 {
        written_tokens(items[0], at, depth)
    } else {
        let before = source_items(items, (n - 1) as nat, depth).len();
        item_tokens(items, (n - 1) as nat, at, depth) + seq![
            token_at(TokenType::Comma, ","@, at + before),
            token_at(TokenType::Whitespace, " "@, at + before + 1),
        ] + written_tokens(items[n - 1], at + before + 2, depth)
    }
}

/// The tokens of a value whose source text starts at `at`.
pub open spec fn written_tokens(v: ValueView, at: int, depth: nat) -> Seq<TokenView>
    decreases v,
{
    match v {
        ValueView::String(s) => seq![token_at(TokenType::String, s, at)],
        ValueView::Boolean(b) => seq![token_at(TokenType::Name, truth_word(b), at)],
        ValueView::List { values, .. } => seq![token_at(TokenType::LSquare, "["@, at)]
            + item_tokens(values, values.len(), at + 1, depth + 1) + seq![
            token_at(
                TokenType::RSquare,
                "]"@,
                at + 1 + source_items(values, values.len(), depth + 1).len(),
            ),
        ],
        _ => Seq::empty(),
    }
}

/// Tokens before tokens before what is left are all of them before what is left.
proof fn lemma_after_after(a: Seq<TokenView>, b: Seq<TokenView>, rest: Lexed)
    ensures
        after(a, after(b, rest)) == after(a + b, rest),
{
    match rest {
        Lexed::Tokens(more) => {
            assert(a + (b + more) =~= (a + b) + more);
        },
        Lexed::BadString(_) => {},
    }
}

proof fn lemma_after_nothing(rest: Lexed)
    ensures
        after(Seq::empty(), rest) == rest,
{
    match rest {
        Lexed::Tokens(more) => {
            assert(Seq::<TokenView>::empty() + more =~= more);
        },
        Lexed::BadString(_) => {},
    }
}

/// The lexer reads the source text of the first `n` items of a list, wherever it
/// stands, as their tokens.
pub proof fn lemma_items_lex(chars: Seq<char>, at: int, items: Seq<ValueView>, n: nat, depth: nat)
    requires
        latin_letters_are_letters(),
        n <= items.len(),
        depth <= 10,
        forall|i: int| 0 <= i < n ==> writable(#[trigger] items[i], depth),
        0 <= at,
        at + source_items(items, n, depth).len() < chars.len(),
        chars.subrange(at, at + source_items(items, n, depth).len()) == source_items(
            items,
            n,
            depth,
        ),
        !name_char(chars[at + source_items(items, n, depth).len()]),
    ensures
        lex(chars, at, 1, 0) == after(
            item_tokens(items, n, at, depth),
            lex(chars, at + source_items(items, n, depth).len(), 1, 0),
        ),
    decreases items, n,
{
    let source = source_items(items, n, depth);
    if n == 0 {
        lemma_after_nothing(lex(chars, at, 1, 0));
    } else if n == 1 {
        lemma_value_lexes(chars, at, items[0], depth);
    } else {
        reveal_strlit(", ");
        reveal_strlit(",");
        reveal_strlit(" ");
        let earlier = source_items(items, (n - 1) as nat, depth);
        let last = source_of(items[n - 1], depth);
        let e = earlier.len() as int;
        assert(source == earlier + ", "@ + last);
        assert(source.len() == e + 2 + last.len());
        assert forall|k: int| 0 <= k < source.len() implies chars[at + k] == source[k] by {
            assert(chars.subrange(at, at + source.len())[k] == source[k]);
        }
        assert(chars.subrange(at, at + e) =~= earlier) by {
            assert forall|k: int| 0 <= k < e implies chars[at + k] == earlier[k] by {
                assert(source[k] == earlier[k]);
            }
        }
        assert(chars[at + e] == ',') by {
            assert(source[e] == ',');
        }
        assert(chars[at + e + 1] == ' ') by {
            assert(source[e + 1] == ' ');
        }
        assert(!name_char(','));
        lemma_items_lex(chars, at, items, (n - 1) as nat, depth);
        let comma = token_at(TokenType::Comma, ","@, at + e);
        let space = token_at(TokenType::Whitespace, " "@, at + e + 1);
        assert(scan(chars, at + e, 1, 0).tokens == seq![comma]);
        assert(scan(chars, at + e + 1, 1, 0).tokens == seq![space]);
        assert(chars.subrange(at + e + 2, at + e + 2 + last.len()) =~= last) by {
            assert forall|k: int| 0 <= k < last.len() implies chars[at + e + 2 + k]
                == last[k] by {
                assert(source[e + 2 + k] == last[k]);
            }
        }
        lemma_value_lexes(chars, at + e + 2, items[n - 1], depth);
        let tail = lex(chars, at + source.len(), 1, 0);
        let value = written_tokens(items[n - 1], at + e + 2, depth);
        assert(lex(chars, at + e + 2, 1, 0) == after(value, tail));
        assert(lex(chars, at + e + 1, 1, 0) == after(seq![space], after(value, tail)));
        assert(lex(chars, at + e, 1, 0) == after(
            seq![comma],
            after(seq![space], after(value, tail)),
        ));
        lemma_after_after(seq![space], value, tail);
        lemma_after_after(seq![comma], seq![space] + value, tail);
        assert(seq![comma] + (seq![space] + value) =~= seq![comma, space] + value);
        lemma_after_after(
            item_tokens(items, (n - 1) as nat, at, depth),
            seq![comma, space] + value,
            tail,
        );
        assert(item_tokens(items, (n - 1) as nat, at, depth) + (seq![comma, space] + value)
            =~= item_tokens(items, n, at, depth));
    }
}

/// The lexer reads the source text of a text without `${`, of a truth value, and of
/// a list of such values, wherever it stands, as the tokens of the value.
pub proof fn lemma_value_lexes(chars: Seq<char>, at: int, v: ValueView, depth: nat)
    requires
        latin_letters_are_letters(),
        writable(v, depth),
        0 <= at,
        at + source_of(v, depth).len() < chars.len(),
        chars.subrange(at, at + source_of(v, depth).len()) == source_of(v, depth),
        !name_char(chars[at + source_of(v, depth).len()]),
    ensures
        lex(chars, at, 1, 0) == after(
            written_tokens(v, at, depth),
            lex(chars, at + source_of(v, depth).len(), 1, 0),
        ),
    decreases v,
{
    let source = source_of(v, depth);
    let n = source.len() as int;
    assert forall|k: int| 0 <= k < n implies chars[at + k] == source[k] by {
        assert(chars.subrange(at, at + n)[k] == source[k]);
    }
    match v {
        ValueView::String(s) => {
            reveal_strlit("\"");
            text_reads_back_anywhere(chars, at, s, depth);
            assert(source =~= seq!['"'] + escaped(s) + seq!['"']);
            assert(chars[at] == source[0]);
            let step = scan(chars, at, 1, 0);
            assert(step.tokens == seq![token_at(TokenType::String, s, at)]);
            assert(step.next == at + n);
        },
        ValueView::Boolean(b) => {
            reveal_strlit("true");
            reveal_strlit("false");
            reveal_strlit("maybe");
            let word = truth_word(b);
            assert(source == word);
            assert(latin_word(word));
            assert forall|i: int| at <= i < at + n implies name_char(#[trigger] chars[i]) by {
                assert(chars[i] == word[i - at]);
            }
            lemma_name_end(chars, at, n as nat);
            assert(chars[at] == word[0]);
            assert(alphabetic(chars[at]));
            assert(chars.subrange(at, at + n) =~= word);
            let step = scan(chars, at, 1, 0);
            assert(step.tokens == seq![token_at(TokenType::Name, word, at)]);
            assert(step.next == at + n);
        },
        ValueView::List { values, .. } => {
            reveal_strlit("[");
            reveal_strlit("]");
            let inner = source_items(values, values.len(), depth + 1);
            let m = inner.len() as int;
            assert(source == "["@ + inner + "]"@);
            assert(n == m + 2);
            assert(chars[at] == '[') by {
                assert(source[0] == '[');
            }
            assert(chars[at + 1 + m] == ']') by {
                assert(source[1 + m] == ']');
            }
            assert(chars.subrange(at + 1, at + 1 + m) =~= inner) by {
                assert forall|k: int| 0 <= k < m implies chars[at + 1 + k] == inner[k] by {
                    assert(source[1 + k] == inner[k]);
                }
            }
            assert(!name_char(']'));
            if values.len() > 0 {
                assert(depth + 1 <= 10) by {
                    assert(writable(values[0], depth + 1));
                }
                lemma_items_lex(chars, at + 1, values, values.len(), depth + 1);
            } else {
                lemma_after_nothing(lex(chars, at + 1, 1, 0));
            }
            let open = token_at(TokenType::LSquare, "["@, at);
            let close = token_at(TokenType::RSquare, "]"@, at + 1 + m);
            let items = item_tokens(values, values.len(), at + 1, depth + 1);
            let tail = lex(chars, at + n, 1, 0);
            assert(scan(chars, at, 1, 0).tokens == seq![open]);
            assert(scan(chars, at + 1 + m, 1, 0).tokens == seq![close]);
            assert(lex(chars, at + 1 + m, 1, 0) == after(seq![close], tail));
            assert(lex(chars, at + 1, 1, 0) == after(items, after(seq![close], tail)));
            assert(lex(chars, at, 1, 0) == after(
                seq![open],
                after(items, after(seq![close], tail)),
            ));
            lemma_after_after(items, seq![close], tail);
            lemma_after_after(seq![open], items + seq![close], tail);
            assert(seq![open] + (items + seq![close]) =~= written_tokens(v, at, depth));
        },
        _ => {},
    }
}

/// The tokens of the first `n` items of a list whose source text starts at `at`,
/// without the white space.
pub open spec fn item_marks(items: Seq<ValueView>, n: nat, at: int, depth: nat) -> Seq<TokenView>
    decreases items, n,
{
    if n == 0 || n > items.len() {
        Seq::empty()
    } else if n == 1 {
        written_marks(items[0], at, depth)
    } else {
        let before = source_items(items, (n - 1) as nat, depth).len();
        item_marks(items, (n - 1) as nat, at, depth).push(
            token_at(TokenType::Comma, ","@, at + before),
        ) + written_marks(items[n - 1], at + before + 2, depth)
    }
}

/// The tokens of a value whose source text starts at `at`, without the white space.
pub open spec fn written_marks(v: ValueView, at: int, depth: nat) -> Seq<TokenView>
    decreases v,
{
    match v {
        ValueView::String(s) => seq![token_at(TokenType::String, s, at)],
        ValueView::Boolean(b) => seq![token_at(TokenType::Name, truth_word(b), at)],
        ValueView::List { values, .. } => seq![token_at(TokenType::LSquare, "["@, at)]
            + item_marks(values, values.len(), at + 1, depth + 1) + seq![
            token_at(
                TokenType::RSquare,
                "]"@,
                at + 1 + source_items(values, values.len(), depth + 1).len(),
            ),
        ],
        _ => Seq::empty(),
    }
}

/// Leaving out the white space of tokens that follow one another leaves it out of
/// each of the two.
proof fn lemma_unspaced_joined(a: Seq<TokenView>, b: Seq<TokenView>)
    ensures
        unspaced(a + b, (a + b).len()) == unspaced(a, a.len()) + unspaced(b, b.len()),
    decreases b.len(),
{
    if b.len() == 0 {
        assert(a + b =~= a);
        assert(unspaced(a, a.len()) + unspaced(b, b.len()) =~= unspaced(a, a.len()));
    } else {
        let whole = a + b;
        let shorter = b.drop_last();
        assert(whole.drop_last() =~= a + shorter);
        assert(whole.last() == b.last());
        lemma_unspaced_joined(a, shorter);
        lemma_unspaced_shorter(whole);
        lemma_unspaced_shorter(b);
        if b.last().token_type == TokenType::Whitespace {
        } else {
            assert((unspaced(a, a.len()) + unspaced(shorter, shorter.len())).push(b.last())
                =~= unspaced(a, a.len()) + unspaced(shorter, shorter.len()).push(b.last()));
        }
    }
}

/// Leaving out the white space of some tokens, by their last token.
proof fn lemma_unspaced_shorter(t: Seq<TokenView>)
    requires
        t.len() > 0,
    ensures
        unspaced(t, t.len()) == if t.last().token_type == TokenType::Whitespace {
            unspaced(t.drop_last(), (t.len() - 1) as nat)
        } else {
            unspaced(t.drop_last(), (t.len() - 1) as nat).push(t.last())
        },
{
    lemma_unspaced_prefix(t, (t.len() - 1) as nat);
}

/// The first `n` tokens without white space do not depend on the tokens behind them.
proof fn lemma_unspaced_prefix(t: Seq<TokenView>, n: nat)
    requires
        n < t.len(),
    ensures
        unspaced(t, n) == unspaced(t.drop_last(), n),
    decreases n,
{
    if n > 0 {
        lemma_unspaced_prefix(t, (n - 1) as nat);
        assert(t.drop_last()[n - 1] == t[n - 1]);
    }
}

/// The tokens of a value without their white space are its marks.
pub proof fn lemma_marks(v: ValueView, at: int, depth: nat)
    requires
        writable(v, depth),
    ensures
        unspaced(written_tokens(v, at, depth), written_tokens(v, at, depth).len())
            == written_marks(v, at, depth),
    decreases v,
{
    reveal_with_fuel(unspaced, 3);
    match v {
        ValueView::List { values, .. } => {
            let open = seq![token_at(TokenType::LSquare, "["@, at)];
            let close = seq![
                token_at(
                    TokenType::RSquare,
                    "]"@,
                    at + 1 + source_items(values, values.len(), depth + 1).len(),
                ),
            ];
            let items = item_tokens(values, values.len(), at + 1, depth + 1);
            lemma_item_marks(values, values.len(), at + 1, depth + 1);
            lemma_unspaced_joined(open, items);
            lemma_unspaced_joined(open + items, close);
            assert(unspaced(open, 1) =~= open);
            assert(unspaced(close, 1) =~= close);
        },
        _ => {
            let tokens = written_tokens(v, at, depth);
            assert(unspaced(tokens, 1) =~= tokens);
        },
    }
}

/// The tokens of the items of a list without their white space are their marks.
pub proof fn lemma_item_marks(items: Seq<ValueView>, n: nat, at: int, depth: nat)
    requires
        n <= items.len(),
        forall|i: int| 0 <= i < n ==> writable(#[trigger] items[i], depth),
    ensures
        unspaced(item_tokens(items, n, at, depth), item_tokens(items, n, at, depth).len())
            == item_marks(items, n, at, depth),
    decreases items, n,
{
    reveal_with_fuel(unspaced, 3);
    if n == 0 {
    } else if n == 1 {
        lemma_marks(items[0], at, depth);
    } else {
        let before = source_items(items, (n - 1) as nat, depth).len();
        let earlier = item_tokens(items, (n - 1) as nat, at, depth);
        let between = seq![
            token_at(TokenType::Comma, ","@, at + before),
            token_at(TokenType::Whitespace, " "@, at + before + 1),
        ];
        let last = written_tokens(items[n - 1], at + before + 2, depth);
        lemma_item_marks(items, (n - 1) as nat, at, depth);
        lemma_marks(items[n - 1], at + before + 2, depth);
        lemma_unspaced_joined(earlier, between);
        lemma_unspaced_joined(earlier + between, last);
        assert(unspaced(between, 2) =~= seq![token_at(TokenType::Comma, ","@, at + before)]);
        assert(item_marks(items, (n - 1) as nat, at, depth) + seq![
            token_at(TokenType::Comma, ","@, at + before),
        ] =~= item_marks(items, (n - 1) as nat, at, depth).push(
            token_at(TokenType::Comma, ","@, at + before),
        ));
    }
}

/// Where the source text of item `k` of a list starts, if the source text of the
/// items starts at `at`.
pub open spec fn item_place(items: Seq<ValueView>, k: nat, at: int, depth: nat) -> int {
    if k == 0 {
        at
    } else {
        at + source_items(items, k, depth).len() + 2
    }
}

/// The expressions that the first `n` items of a list are read as.
pub open spec fn item_exprs(items: Seq<ValueView>, n: nat, at: int, depth: nat) -> Seq<ExprView>
    decreases items, n,
{
    if n == 0 || n > items.len() {
        Seq::empty()
    } else {
        item_exprs(items, (n - 1) as nat, at, depth).push(
            written_expr(items[n - 1], item_place(items, (n - 1) as nat, at, depth), depth),
        )
    }
}

/// The expression that the source text of a value is read as, if the text starts at
/// `at`.
pub open spec fn written_expr(v: ValueView, at: int, depth: nat) -> ExprView
    decreases v,
{
    match v {
        ValueView::String(s) => ExprView::Value(token_at(TokenType::String, s, at)),
        ValueView::Boolean(b) => ExprView::Value(token_at(TokenType::Name, truth_word(b), at)),
        ValueView::List { values, .. } => ExprView::List {
            values: item_exprs(values, values.len(), at + 1, depth + 1),
        },
        _ => ExprView::Value(token_at(TokenType::Name, "undefined"@, at)),
    }
}

proof fn lemma_item_exprs_len(items: Seq<ValueView>, n: nat, at: int, depth: nat)
    requires
        n <= items.len(),
    ensures
        item_exprs(items, n, at, depth).len() == n,
    decreases n,
{
    if n > 0 {
        lemma_item_exprs_len(items, (n - 1) as nat, at, depth);
    }
}

/// A value has at least one mark, and its first is no comma and no closing bracket.
proof fn lemma_marks_start(v: ValueView, at: int, depth: nat)
    requires
        writable(v, depth),
    ensures
        written_marks(v, at, depth).len() >= 1,
        written_marks(v, at, depth)[0].token_type != TokenType::RSquare,
        written_marks(v, at, depth)[0].token_type != TokenType::Comma,
{
}

/// The marks of the first `j` items are the first of the marks of the first `n`.
proof fn lemma_marks_prefix(items: Seq<ValueView>, j: nat, n: nat, at: int, depth: nat)
    requires
        j <= n <= items.len(),
    ensures
        item_marks(items, j, at, depth).len() <= item_marks(items, n, at, depth).len(),
        item_marks(items, n, at, depth).subrange(
            0,
            item_marks(items, j, at, depth).len() as int,
        ) == item_marks(items, j, at, depth),
    decreases n,
{
    let all = item_marks(items, n, at, depth);
    let first = item_marks(items, j, at, depth);
    if j == n {
        assert(all.subrange(0, all.len() as int) =~= all);
    } else if j == 0 {
        assert(all.subrange(0, 0) =~= first);
    } else {
        lemma_marks_prefix(items, j, (n - 1) as nat, at, depth);
        let shorter = item_marks(items, (n - 1) as nat, at, depth);
        assert(all.subrange(0, first.len() as int) =~= shorter.subrange(0, first.len() as int));
    }
}

/// The marks of the first `k + 1` items are those of the first `k`, a comma if there
/// are any, and the marks of item `k`.
proof fn lemma_marks_next(items: Seq<ValueView>, k: nat, at: int, depth: nat)
    requires
        k < items.len(),
    ensures
        item_marks(items, k + 1, at, depth) == if k == 0 {
            written_marks(items[0], at, depth)
        } else {
            item_marks(items, k, at, depth).push(
                token_at(
                    TokenType::Comma,
                    ","@,
                    at + source_items(items, k, depth).len(),
                ),
            ) + written_marks(items[k as int], item_place(items, k, at, depth), depth)
        },
{
}

/// The parser reads the marks of the items of a list, from item `k` on, as the
/// expressions of the items.
pub proof fn lemma_items_parse(
    t: Seq<TokenView>,
    first: int,
    items: Seq<ValueView>,
    k: nat,
    at: int,
    depth: nat,
    missing: Seq<char>,
)
    requires
        k <= items.len(),
        forall|i: int| 0 <= i < items.len() ==> writable(#[trigger] items[i], depth),
        0 <= first,
        first + item_marks(items, items.len(), at, depth).len() < t.len(),
        t.subrange(first, first + item_marks(items, items.len(), at, depth).len())
            == item_marks(items, items.len(), at, depth),
        t[first + item_marks(items, items.len(), at, depth).len()].token_type
            == TokenType::RSquare,
    ensures
        sequence_at(
            t,
            first + item_marks(items, k, at, depth).len(),
            TokenType::RSquare,
            missing,
            item_exprs(items, k, at, depth),
        ) == (Parsed::Done {
            value: item_exprs(items, items.len(), at, depth),
            next: first + item_marks(items, items.len(), at, depth).len() + 1,
        }),
    decreases items, items.len() - k,
{
    let n = items.len();
    let all = item_marks(items, n, at, depth);
    let done = item_marks(items, k, at, depth);
    let pos = first + done.len();
    assert forall|i: int| 0 <= i < all.len() implies t[first + i] == all[i] by {
        assert(t.subrange(first, first + all.len())[i] == all[i]);
    }
    if k == n {
    } else {
        let more = item_marks(items, k + 1, at, depth);
        let value = items[k as int];
        let place = item_place(items, k, at, depth);
        let marks = written_marks(value, place, depth);
        lemma_marks_next(items, k, at, depth);
        lemma_marks_prefix(items, k + 1, n, at, depth);
        lemma_marks_start(value, place, depth);
        lemma_item_exprs_len(items, k, at, depth);
        assert forall|i: int| 0 <= i < more.len() implies t[first + i] == more[i] by {
            assert(all.subrange(0, more.len() as int)[i] == more[i]);
        }
        let p = if k == 0 {
            pos
        } else {
            pos + 1
        };
        if k > 0 {
            assert(more[done.len() as int] == token_at(
                TokenType::Comma,
                ","@,
                at + source_items(items, k, depth).len(),
            ));
            assert(t[pos].token_type == TokenType::Comma);
        } else {
            assert(done.len() == 0);
            assert(t[pos] == marks[0]);
        }
        assert(p + marks.len() == first + more.len());
        assert(t.subrange(p, p + marks.len()) =~= marks) by {
            assert forall|i: int| 0 <= i < marks.len() implies t[p + i] == marks[i] by {
                assert(t[first + (p - first + i)] == more[p - first + i]);
            }
        }
        if k + 1 < n {
            let further = item_marks(items, k + 2, at, depth);
            lemma_marks_next(items, k + 1, at, depth);
            lemma_marks_prefix(items, k + 2, n, at, depth);
            assert(further[more.len() as int].token_type == TokenType::Comma);
            assert(all.subrange(0, further.len() as int)[more.len() as int] == further[more.len() as int]);
            assert(t[first + more.len()].token_type == TokenType::Comma);
        } else {
            assert(more == all);
        }
        lemma_value_parses(t, p, value, place, depth);
        lemma_items_parse(t, first, items, k + 1, at, depth, missing);
        assert(item_exprs(items, k + 1, at, depth) == item_exprs(items, k, at, depth).push(
            written_expr(value, place, depth),
        ));
    }
}

/// The parser reads the marks of a value, wherever they stand before a comma, a
/// closing bracket or the end, as the expression of the value.
pub proof fn lemma_value_parses(t: Seq<TokenView>, q: int, v: ValueView, at: int, depth: nat)
    requires
        writable(v, depth),
        0 <= q,
        q + written_marks(v, at, depth).len() <= t.len(),
        t.subrange(q, q + written_marks(v, at, depth).len()) == written_marks(v, at, depth),
        q + written_marks(v, at, depth).len() < t.len() ==> t[q + written_marks(
            v,
            at,
            depth,
        ).len()].token_type == TokenType::Comma || t[q + written_marks(
            v,
            at,
            depth,
        ).len()].token_type == TokenType::RSquare,
    ensures
        expression_at(t, q, 0) == (Parsed::Done {
            value: written_expr(v, at, depth),
            next: q + written_marks(v, at, depth).len(),
        }),
    decreases v,
{
    let marks = written_marks(v, at, depth);
    let n = marks.len() as int;
    assert forall|i: int| 0 <= i < n implies t[q + i] == marks[i] by {
        assert(t.subrange(q, q + n)[i] == marks[i]);
    }
    match v {
        ValueView::String(s) => {
            assert(t[q] == marks[0]);
        },
        ValueView::Boolean(b) => {
            reveal_strlit("true");
            reveal_strlit("false");
            reveal_strlit("maybe");
            reveal_strlit("new");
            reveal_strlit("print");
            let word = truth_word(b);
            assert(t[q] == marks[0]);
            assert(word.len() != "new"@.len());
            assert(word != "print"@) by {
                if word.len() == "print"@.len() {
                    assert(word[0] != "print"@[0]);
                }
            }
        },
        ValueView::List { values, .. } => {
            let items = item_marks(values, values.len(), at + 1, depth + 1);
            let m = items.len() as int;
            assert(n == m + 2);
            assert(t[q] == marks[0]);
            assert(t[q + 1 + m] == marks[1 + m]);
            assert(t.subrange(q + 1, q + 1 + m) =~= items) by {
                assert forall|i: int| 0 <= i < m implies t[q + 1 + i] == items[i] by {
                    assert(t[q + (1 + i)] == marks[1 + i]);
                }
            }
            if values.len() > 0 {
                assert(writable(values[0], depth + 1));
            }
            lemma_items_parse(
                t,
                q + 1,
                values,
                0,
                at + 1,
                depth + 1,
                "Expected closing bracket in list literal"@,
            );
        },
        _ => {},
    }
}

/// A value as it comes back from its source text: a list comes back with fresh
/// indices, which run from -1 in the order of the items.
pub open spec fn restored(v: ValueView) -> ValueView
    decreases v,
{
    match v {
        ValueView::List { values, .. } => ValueView::List {
            values: Seq::new(
                values.len(),
                |i: int|
                    if 0 <= i < values.len() {
                        restored(values[i])
                    } else {
                        arbitrary()
                    },
            ),
            indexer: fresh_indexer(values.len()),
        },
        _ => v,
    }
}

/// Whether every list in a value has fresh indices.
pub open spec fn freshly_indexed(v: ValueView) -> bool
    decreases v,
{
    match v {
        ValueView::List { values, indexer } => indexer == fresh_indexer(values.len()) && forall|
            i: int,
        | 0 <= i < values.len() ==> freshly_indexed(#[trigger] values[i]),
        _ => true,
    }
}

/// A value whose lists have fresh indices comes back as itself.
pub proof fn lemma_restored_same(v: ValueView)
    requires
        freshly_indexed(v),
    ensures
        restored(v) == v,
    decreases v,
{
    match v {
        ValueView::List { values, indexer } => {
            assert forall|i: int| 0 <= i < values.len() implies restored(values[i])
                == values[i] by {
                assert(freshly_indexed(values[i]));
                lemma_restored_same(values[i]);
            }
            assert(restored(v)->List_values =~= values);
        },
        _ => {},
    }
}

/// Whether the names of the truth values are bound to them, as they are from the
/// start.
pub open spec fn truth_values_bound(stack: Seq<NamespaceView>) -> bool {
    forall|b: Option<bool>|
        resolve(stack, #[trigger] truth_word(b)) is Some && entry_value(
            resolve(stack, truth_word(b))->0,
        ) == ValueView::Boolean(b)
}

/// The expression of item `j` among the expressions of the first `n` items.
proof fn lemma_item_expr(items: Seq<ValueView>, n: nat, j: int, at: int, depth: nat)
    requires
        n <= items.len(),
        0 <= j < n,
    ensures
        item_exprs(items, n, at, depth).len() == n,
        item_exprs(items, n, at, depth)[j] == written_expr(
            items[j],
            item_place(items, j as nat, at, depth),
            depth,
        ),
    decreases n,
{
    lemma_item_exprs_len(items, n, at, depth);
    if j < n - 1 {
        lemma_item_expr(items, (n - 1) as nat, j, at, depth);
    } else {
        lemma_item_exprs_len(items, (n - 1) as nat, at, depth);
    }
}

/// Every run of the items of a written list leaves the state as it was, and yields
/// the item as it comes back unless the nesting limit ends it.
proof fn lemma_items_evaluate<N: Arithmetic>(
    ops: &N,
    all: Run,
    values: Seq<ValueView>,
    at: int,
    written_depth: nat,
    depth: nat,
    j: int,
)
    requires
        valid(ops, all),
        depth > 0,
        all.kind == (RunKind::All {
            exprs: item_exprs(values, values.len(), at, written_depth),
            depth,
        }),
        forall|i: int| 0 <= i < values.len() ==> writable(#[trigger] values[i], written_depth),
        truth_values_bound(all.before.stack),
        0 <= j < all.parts.len(),
    ensures
        all.parts[j].before == all.before,
        all.parts[j].after == all.before,
        failed(all.parts[j].result) ==> all.parts[j].result == limit_failure(),
        !failed(all.parts[j].result) ==> j < values.len() && all.parts[j].result
            == Outcome::Value(restored(values[j])),
    decreases values, j,
{
    lemma_valid_parts(ops, all);
    lemma_item_exprs_len(values, values.len(), at, written_depth);
    if j > 0 {
        lemma_items_evaluate(ops, all, values, at, written_depth, depth, j - 1);
        assert(all.parts[j].before == all.parts[j - 1].after);
    }
    lemma_item_expr(values, values.len(), j, at, written_depth);
    lemma_value_evaluates(
        ops,
        all.parts[j],
        values[j],
        item_place(values, j as nat, at, written_depth),
        written_depth,
        (depth - 1) as nat,
    );
}

/// Every valid run of the expression that a written value is read as leaves the
/// state as it was, and yields the value as it comes back unless the nesting limit
/// ends the run.
pub proof fn lemma_value_evaluates<N: Arithmetic>(
    ops: &N,
    run: Run,
    v: ValueView,
    at: int,
    written_depth: nat,
    depth: nat,
)
    requires
        valid(ops, run),
        writable(v, written_depth),
        run.kind == (RunKind::Expression { expr: written_expr(v, at, written_depth), depth }),
        truth_values_bound(run.before.stack),
    ensures
        run.after == run.before,
        failed(run.result) ==> run.result == limit_failure(),
        !failed(run.result) ==> run.result == Outcome::Value(restored(v)),
    decreases v,
{
    lemma_valid_parts(ops, run);
    match v {
        ValueView::String(s) => {},
        ValueView::Boolean(b) => {
            assert(resolve(run.before.stack, truth_word(b)) is Some);
        },
        ValueView::List { values, .. } => {
            let exprs = item_exprs(values, values.len(), at + 1, written_depth + 1);
            lemma_item_exprs_len(values, values.len(), at + 1, written_depth + 1);
            let all = run.parts[0];
            lemma_valid_parts(ops, all);
            if depth > 0 {
                let n = all.parts.len() as int;
                assert forall|j: int| 0 <= j < n implies all.parts[j].before == all.before
                    && all.parts[j].after == all.before && (failed(all.parts[j].result)
                    ==> all.parts[j].result == limit_failure()) && (!failed(
                    all.parts[j].result,
                ) ==> all.parts[j].result == Outcome::Value(restored(values[j]))) by {
                    lemma_items_evaluate(
                        ops,
                        all,
                        values,
                        at + 1,
                        written_depth + 1,
                        depth,
                        j,
                    );
                }
                if n > 0 {
                    assert(all.parts[n - 1].after == all.before);
                }
                if !failed(run.result) {
                    let got = all.result->Values_0;
                    assert(got =~= restored(v)->List_values) by {
                        assert forall|i: int| 0 <= i < values.len() implies got[i] == restored(
                            values[i],
                        ) by {
                            assert(Outcome::Value(got[i]) == all.parts[i].result);
                        }
                    }
                }
            } else {
                if !failed(run.result) {
                    assert(all.result->Values_0 =~= restored(v)->List_values);
                }
            }
        },
        _ => {},
    }
}

/// The source text that export writes for a text without `${`, for a truth value,
/// and for a list of such values is read as one expression.
pub proof fn value_source_is_read(v: ValueView)
    requires
        latin_letters_are_letters(),
        writable(v, 0),
    ensures
        expression_read(source_of(v, 0)) == Some(written_expr(v, 0, 0)),
{
    reveal_strlit("   ");
    reveal_strlit(" ");
    let source = source_of(v, 0);
    let chars = padded(source);
    let n = source.len() as int;
    assert(chars.len() == n + 3);
    assert(chars[n] == ' ');
    assert(chars[n + 1] == ' ');
    assert(chars[n + 2] == ' ');
    assert(chars.subrange(0, n) =~= source);
    assert(!name_char(' '));
    lemma_value_lexes(chars, 0, v, 0);
    let space = |col: int|
        TokenView { token_type: TokenType::Whitespace, value: " "@, line: 1, col: col as usize };
    assert(scan(chars, n, 1, 0).tokens == seq![space(n)]);
    assert(scan(chars, n + 1, 1, 0).tokens == seq![space(n + 1)]);
    assert(scan(chars, n + 2, 1, 0).tokens == seq![space(n + 2)]);
    assert(lex(chars, n + 3, 1, 0) == Lexed::Tokens(Seq::empty()));
    assert(lex(chars, n + 2, 1, 0) == Lexed::Tokens(seq![space(n + 2)])) by {
        assert(seq![space(n + 2)] + Seq::<TokenView>::empty() =~= seq![space(n + 2)]);
    }
    assert(lex(chars, n + 1, 1, 0) == Lexed::Tokens(seq![space(n + 1), space(n + 2)])) by {
        assert(seq![space(n + 1)] + seq![space(n + 2)] =~= seq![space(n + 1), space(n + 2)]);
    }
    let spaces = seq![space(n), space(n + 1), space(n + 2)];
    assert(lex(chars, n, 1, 0) == Lexed::Tokens(spaces)) by {
        assert(seq![space(n)] + seq![space(n + 1), space(n + 2)] =~= spaces);
    }
    let written = written_tokens(v, 0, 0);
    let tokens = written + spaces;
    assert(lex(chars, 0, 1, 0) == Lexed::Tokens(tokens));
    lemma_unspaced_joined(written, spaces);
    lemma_marks(v, 0, 0);
    reveal_with_fuel(unspaced, 4);
    assert(unspaced(spaces, 3) =~= Seq::<TokenView>::empty());
    let marks = written_marks(v, 0, 0);
    assert(unspaced(tokens, tokens.len()) =~= marks);
    lemma_marks_start(v, 0, 0);
    assert(marks.subrange(0, marks.len() as int) =~= marks);
    lemma_value_parses(marks, 0, v, 0, 0);
}

/// A value that was exported comes back. The source text that export writes for a
/// text without `${`, for a truth value, and for a list of such values that is nested
/// no deeper than export writes, is read as one expression. Where the names of the
/// truth values are bound to them, every valid run of that expression changes
/// nothing and, unless the nesting limit ends it, yields the value as it comes back:
/// the value itself, with fresh indices in its lists.
pub proof fn value_round_trip<N: Arithmetic>(ops: &N, v: ValueView, run: Run, depth: nat)
    requires
        latin_letters_are_letters(),
        writable(v, 0),
        valid(ops, run),
        truth_values_bound(run.before.stack),
        expression_read(source_of(v, 0)) is Some ==> run.kind == (RunKind::Expression {
            expr: expression_read(source_of(v, 0))->0,
            depth,
        }),
    ensures
        expression_read(source_of(v, 0)) is Some,
        run.after == run.before,
        failed(run.result) ==> run.result == limit_failure(),
        !failed(run.result) ==> run.result == Outcome::Value(restored(v)),
        !failed(run.result) && freshly_indexed(v) ==> run.result == Outcome::Value(v),
{
    value_source_is_read(v);
    lemma_value_evaluates(ops, run, v, 0, 0, depth);
    if freshly_indexed(v) {
        lemma_restored_same(v);
    }
}

/// Leaving out the blanks of tokens that follow one another leaves them out of each
/// of the two.
proof fn lemma_significant_joined(a: Seq<TokenView>, b: Seq<TokenView>)
    ensures
        significant(a + b) == significant(a) + significant(b),
    decreases b.len(),
{
    if b.len() == 0 {
        assert(a + b =~= a);
        assert(significant(a) + significant(b) =~= significant(a));
    } else {
        let whole = a + b;
        let shorter = b.drop_last();
        assert(whole.drop_last() =~= a + shorter);
        assert(whole.last() == b.last());
        lemma_significant_joined(a, shorter);
        if b.last().token_type == TokenType::Whitespace || b.last().token_type
            == TokenType::Newline {
        } else {
            assert((significant(a) + significant(shorter)).push(b.last()) =~= significant(a)
                + significant(shorter).push(b.last()));
        }
    }
}

/// One token that is no blank counts for the parser; a blank does not.
proof fn lemma_significant_one(token: TokenView)
    ensures
        significant(seq![token]) == if token.token_type == TokenType::Whitespace
            || token.token_type == TokenType::Newline {
            Seq::<TokenView>::empty()
        } else {
            seq![token]
        },
{
    reveal_with_fuel(significant, 3);
    assert(seq![token].drop_last() =~= Seq::<TokenView>::empty());
    assert(Seq::<TokenView>::empty().push(token) =~= seq![token]);
}

/// The tokens of a value that count for the parser are its marks.
pub proof fn lemma_significant_marks(v: ValueView, at: int, depth: nat)
    requires
        writable(v, depth),
    ensures
        significant(written_tokens(v, at, depth)) == written_marks(v, at, depth),
    decreases v,
{
    match v {
        ValueView::List { values, .. } => {
            let open = token_at(TokenType::LSquare, "["@, at);
            let close = token_at(
                TokenType::RSquare,
                "]"@,
                at + 1 + source_items(values, values.len(), depth + 1).len(),
            );
            let items = item_tokens(values, values.len(), at + 1, depth + 1);
            lemma_significant_items(values, values.len(), at + 1, depth + 1);
            lemma_significant_joined(seq![open], items);
            lemma_significant_joined(seq![open] + items, seq![close]);
            lemma_significant_one(open);
            lemma_significant_one(close);
        },
        ValueView::String(s) => {
            lemma_significant_one(token_at(TokenType::String, s, at));
        },
        ValueView::Boolean(b) => {
            lemma_significant_one(token_at(TokenType::Name, truth_word(b), at));
        },
        _ => {},
    }
}

/// The tokens of the items of a list that count for the parser are their marks.
pub proof fn lemma_significant_items(items: Seq<ValueView>, n: nat, at: int, depth: nat)
    requires
        n <= items.len(),
        forall|i: int| 0 <= i < n ==> writable(#[trigger] items[i], depth),
    ensures
        significant(item_tokens(items, n, at, depth)) == item_marks(items, n, at, depth),
    decreases items, n,
{
    if n == 0 {
    } else if n == 1 {
        lemma_significant_marks(items[0], at, depth);
    } else {
        let before = source_items(items, (n - 1) as nat, depth).len();
        let earlier = item_tokens(items, (n - 1) as nat, at, depth);
        let comma = token_at(TokenType::Comma, ","@, at + before);
        let space = token_at(TokenType::Whitespace, " "@, at + before + 1);
        let last = written_tokens(items[n - 1], at + before + 2, depth);
        lemma_significant_items(items, (n - 1) as nat, at, depth);
        lemma_significant_marks(items[n - 1], at + before + 2, depth);
        assert(seq![comma, space] =~= seq![comma] + seq![space]);
        lemma_significant_joined(seq![comma], seq![space]);
        lemma_significant_one(comma);
        lemma_significant_one(space);
        assert(seq![comma] + Seq::<TokenView>::empty() =~= seq![comma]);
        lemma_significant_joined(earlier, seq![comma, space]);
        lemma_significant_joined(earlier + seq![comma, space], last);
        assert(item_marks(items, (n - 1) as nat, at, depth) + seq![comma] =~= item_marks(
            items,
            (n - 1) as nat,
            at,
            depth,
        ).push(comma));
    }
}

/// The marks of a value end no statement.
proof fn lemma_step_over(t: Seq<TokenView>, pos: int, brackets: int)
    requires
        0 <= pos < t.len(),
        brackets >= 0,
        t[pos].token_type == TokenType::String || t[pos].token_type == TokenType::Name
            || t[pos].token_type == TokenType::Comma,
    ensures
        expression_end(t, pos, statement_stops(), 0, brackets, 0) == expression_end(
            t,
            pos + 1,
            statement_stops(),
            0,
            brackets,
            0,
        ),
{
    let stops = statement_stops();
    assert(stops[0] == TokenType::Bang && stops[1] == TokenType::Question && stops[2]
        == TokenType::Semicolon);
    assert(!stops.contains(t[pos].token_type));
}

/// The end of an expression lies behind the marks of the first `n` items of a list.
proof fn lemma_items_span(
    t: Seq<TokenView>,
    first: int,
    items: Seq<ValueView>,
    n: nat,
    at: int,
    depth: nat,
    brackets: int,
)
    requires
        n <= items.len(),
        forall|i: int| 0 <= i < n ==> writable(#[trigger] items[i], depth),
        0 <= first,
        brackets >= 1,
        first + item_marks(items, n, at, depth).len() <= t.len(),
        t.subrange(first, first + item_marks(items, n, at, depth).len()) == item_marks(
            items,
            n,
            at,
            depth,
        ),
    ensures
        expression_end(t, first, statement_stops(), 0, brackets, 0) == expression_end(
            t,
            first + item_marks(items, n, at, depth).len(),
            statement_stops(),
            0,
            brackets,
            0,
        ),
    decreases items, n,
{
    let all = item_marks(items, n, at, depth);
    assert forall|i: int| 0 <= i < all.len() implies t[first + i] == all[i] by {
        assert(t.subrange(first, first + all.len())[i] == all[i]);
    }
    if n == 0 {
    } else if n == 1 {
        lemma_value_spans(t, first, items[0], at, depth, brackets);
    } else {
        let earlier = item_marks(items, (n - 1) as nat, at, depth);
        let e = earlier.len() as int;
        let place = item_place(items, (n - 1) as nat, at, depth);
        let marks = written_marks(items[n - 1], place, depth);
        lemma_marks_next(items, (n - 1) as nat, at, depth);
        assert(t.subrange(first, first + e) =~= earlier) by {
            assert forall|i: int| 0 <= i < e implies t[first + i] == earlier[i] by {
                assert(all[i] == earlier[i]);
            }
        }
        lemma_items_span(t, first, items, (n - 1) as nat, at, depth, brackets);
        assert(t[first + e].token_type == TokenType::Comma) by {
            assert(all[e].token_type == TokenType::Comma);
        }
        lemma_step_over(t, first + e, brackets);
        assert(t.subrange(first + e + 1, first + e + 1 + marks.len()) =~= marks) by {
            assert forall|i: int| 0 <= i < marks.len() implies t[first + e + 1 + i]
                == marks[i] by {
                assert(all[e + 1 + i] == marks[i]);
            }
        }
        lemma_value_spans(t, first + e + 1, items[n - 1], place, depth, brackets);
    }
}

/// The end of an expression lies behind the marks of a value.
proof fn lemma_value_spans(
    t: Seq<TokenView>,
    q: int,
    v: ValueView,
    at: int,
    depth: nat,
    brackets: int,
)
    requires
        writable(v, depth),
        0 <= q,
        brackets >= 0,
        q + written_marks(v, at, depth).len() <= t.len(),
        t.subrange(q, q + written_marks(v, at, depth).len()) == written_marks(v, at, depth),
    ensures
        expression_end(t, q, statement_stops(), 0, brackets, 0) == expression_end(
            t,
            q + written_marks(v, at, depth).len(),
            statement_stops(),
            0,
            brackets,
            0,
        ),
    decreases v,
{
    let marks = written_marks(v, at, depth);
    let n = marks.len() as int;
    assert forall|i: int| 0 <= i < n implies t[q + i] == marks[i] by {
        assert(t.subrange(q, q + n)[i] == marks[i]);
    }
    let stops = statement_stops();
    assert(stops[0] == TokenType::Bang && stops[1] == TokenType::Question && stops[2]
        == TokenType::Semicolon);
    match v {
        ValueView::List { values, .. } => {
            let items = item_marks(values, values.len(), at + 1, depth + 1);
            let m = items.len() as int;
            assert(t[q] == marks[0]);
            assert(t[q + 1 + m] == marks[1 + m]);
            assert(!stops.contains(TokenType::LSquare));
            assert(!stops.contains(TokenType::RSquare));
            assert(t.subrange(q + 1, q + 1 + m) =~= items) by {
                assert forall|i: int| 0 <= i < m implies t[q + 1 + i] == items[i] by {
                    assert(t[q + (1 + i)] == marks[1 + i]);
                }
            }
            if values.len() > 0 {
                assert(writable(values[0], depth + 1));
            }
            lemma_items_span(t, q + 1, values, values.len(), at + 1, depth + 1, brackets + 1);
        },
        ValueView::String(s) => {
            assert(t[q] == marks[0]);
            lemma_step_over(t, q, brackets);
        },
        ValueView::Boolean(b) => {
            assert(t[q] == marks[0]);
            lemma_step_over(t, q, brackets);
        },
        _ => {},
    }
}

/// The lexer reads a word of small Latin letters, wherever it stands before what is
/// no part of a name, as a name.
proof fn lemma_word_lexes(chars: Seq<char>, at: int, word: Seq<char>)
    requires
        latin_letters_are_letters(),
        latin_word(word),
        0 <= at,
        at + word.len() < chars.len(),
        chars.subrange(at, at + word.len()) == word,
        !name_char(chars[at + word.len()]),
    ensures
        lex(chars, at, 1, 0) == after(
            seq![token_at(TokenType::Name, word, at)],
            lex(chars, at + word.len(), 1, 0),
        ),
{
    let n = word.len() as int;
    assert forall|i: int| at <= i < at + n implies name_char(#[trigger] chars[i]) by {
        assert(chars.subrange(at, at + n)[i - at] == word[i - at]);
    }
    lemma_name_end(chars, at, n as nat);
    assert(chars[at] == chars.subrange(at, at + n)[0]);
    assert(alphabetic(chars[at]));
    let step = scan(chars, at, 1, 0);
    assert(step.tokens == seq![token_at(TokenType::Name, word, at)]);
    assert(step.next == at + n);
}

/// The lexer reads a space as one blank.
proof fn lemma_space_lexes(chars: Seq<char>, at: int)
    requires
        0 <= at < chars.len(),
        chars[at] == ' ',
    ensures
        lex(chars, at, 1, 0) == after(
            seq![token_at(TokenType::Whitespace, " "@, at)],
            lex(chars, at + 1, 1, 0),
        ),
{
    reveal_strlit(" ");
    let step = scan(chars, at, 1, 0);
    assert(step.tokens == seq![token_at(TokenType::Whitespace, " "@, at)]);
    if at + 1 >= chars.len() {
        assert(lex(chars, at + 1, 1, 0) == Lexed::Tokens(Seq::empty()));
        assert(seq![token_at(TokenType::Whitespace, " "@, at)] + Seq::<TokenView>::empty()
            =~= seq![token_at(TokenType::Whitespace, " "@, at)]);
    }
}

/// The statements that source text writes, or `None` if it writes none.
pub open spec fn program_read(source: Seq<char>) -> Option<Seq<StmtView>> {
    match lex(padded(source), 0, 1, 0) {
        Lexed::Tokens(tokens) => match program_of(tokens) {
            Ok(statements) => Some(statements),
            Err(_) => None,
        },
        Lexed::BadString(_) => None,
    }
}

/// The tokens of the declaration that export writes, blanks among them.
pub open spec fn declaration_tokens(name: Seq<char>, v: ValueView) -> Seq<TokenView> {
    let l = name.len() as int;
    let a = 9 + l;
    let n = source_of(v, 0).len() as int;
    seq![
        token_at(TokenType::Name, "const"@, 0),
        token_at(TokenType::Whitespace, " "@, 5),
        token_at(TokenType::Name, name, 6),
        token_at(TokenType::Whitespace, " "@, 6 + l),
        token_at(TokenType::Equal, "="@, 7 + l),
        token_at(TokenType::Whitespace, " "@, 8 + l),
    ] + written_tokens(v, a, 0) + seq![
        token_at(TokenType::Bang, "!"@, a + n),
        token_at(TokenType::Whitespace, " "@, a + n + 1),
        token_at(TokenType::Whitespace, " "@, a + n + 2),
        token_at(TokenType::Whitespace, " "@, a + n + 3),
    ]
}

/// The tokens of the declaration that export writes that count for the parser.
pub open spec fn declaration_marks(name: Seq<char>, v: ValueView) -> Seq<TokenView> {
    let l = name.len() as int;
    let a = 9 + l;
    let n = source_of(v, 0).len() as int;
    seq![
        token_at(TokenType::Name, "const"@, 0),
        token_at(TokenType::Name, name, 6),
        token_at(TokenType::Equal, "="@, 7 + l),
    ] + written_marks(v, a, 0) + seq![token_at(TokenType::Bang, "!"@, a + n)]
}

/// The statement that the declaration that export writes is read as.
pub open spec fn declaration_read(name: Seq<char>, v: ValueView) -> StmtView {
    StmtView::VariableDeclaration {
        name: token_at(TokenType::Name, name, 6),
        modifiers: seq!["const"@],
        value: Some(written_expr(v, 9 + name.len() as int, 0)),
        lifetime: None,
        confidence: 100,
        debug: 0,
    }
}

/// The lexer reads what follows the value of a written declaration.
proof fn lemma_declaration_end_lexes(chars: Seq<char>, at: int)
    requires
        0 <= at,
        chars.len() == at + 4,
        chars[at] == '!',
        chars[at + 1] == ' ',
        chars[at + 2] == ' ',
        chars[at + 3] == ' ',
    ensures
        lex(chars, at, 1, 0) == Lexed::Tokens(
            seq![
                token_at(TokenType::Bang, "!"@, at),
                token_at(TokenType::Whitespace, " "@, at + 1),
                token_at(TokenType::Whitespace, " "@, at + 2),
                token_at(TokenType::Whitespace, " "@, at + 3),
            ],
        ),
{
    reveal_strlit("!");
    let space = |col: int| token_at(TokenType::Whitespace, " "@, col);
    let bang = token_at(TokenType::Bang, "!"@, at);
    lemma_space_lexes(chars, at + 1);
    lemma_space_lexes(chars, at + 2);
    lemma_space_lexes(chars, at + 3);
    assert(lex(chars, at + 4, 1, 0) == Lexed::Tokens(Seq::empty()));
    assert(scan(chars, at, 1, 0).tokens == seq![bang]);
    assert(seq![space(at + 3)] + Seq::<TokenView>::empty() =~= seq![space(at + 3)]);
    assert(seq![space(at + 2)] + seq![space(at + 3)] =~= seq![space(at + 2), space(at + 3)]);
    assert(seq![space(at + 1)] + seq![space(at + 2), space(at + 3)] =~= seq![
        space(at + 1),
        space(at + 2),
        space(at + 3),
    ]);
    assert(seq![bang] + seq![space(at + 1), space(at + 2), space(at + 3)] =~= seq![
        bang,
        space(at + 1),
        space(at + 2),
        space(at + 3),
    ]);
}

/// The lexer reads the head of a written declaration before what follows it.
proof fn lemma_declaration_head_lexes(chars: Seq<char>, name: Seq<char>)
    requires
        latin_letters_are_letters(),
        latin_word(name),
        chars.len() > 9 + name.len() as int,
        chars.subrange(0, 6) == "const "@,
        chars.subrange(6, 6 + name.len() as int) == name,
        chars.subrange(6 + name.len() as int, 9 + name.len() as int) == " = "@,
    ensures
        lex(chars, 0, 1, 0) == after(
            seq![
                token_at(TokenType::Name, "const"@, 0),
                token_at(TokenType::Whitespace, " "@, 5),
                token_at(TokenType::Name, name, 6),
                token_at(TokenType::Whitespace, " "@, 6 + name.len() as int),
                token_at(TokenType::Equal, "="@, 7 + name.len() as int),
                token_at(TokenType::Whitespace, " "@, 8 + name.len() as int),
            ],
            lex(chars, 9 + name.len() as int, 1, 0),
        ),
{
    reveal_strlit("const ");
    reveal_strlit("const");
    reveal_strlit(" = ");
    reveal_strlit("=");
    let l = name.len() as int;
    assert forall|i: int| 0 <= i < 6 implies chars[i] == "const "@[i] by {
        assert(chars.subrange(0, 6)[i] == "const "@[i]);
    }
    assert(chars[5] == ' ');
    assert(chars[6 + l] == ' ') by {
        assert(chars.subrange(6 + l, 9 + l)[0] == " = "@[0]);
    }
    assert(chars[7 + l] == '=') by {
        assert(chars.subrange(6 + l, 9 + l)[1] == " = "@[1]);
    }
    assert(chars[8 + l] == ' ') by {
        assert(chars.subrange(6 + l, 9 + l)[2] == " = "@[2]);
    }
    assert(chars.subrange(0, 5) =~= "const"@);
    assert(!name_char(' '));
    assert(latin_word("const"@));
    let rest = lex(chars, 9 + l, 1, 0);
    let t_const = token_at(TokenType::Name, "const"@, 0);
    let t_name = token_at(TokenType::Name, name, 6);
    let t_equal = token_at(TokenType::Equal, "="@, 7 + l);
    let space = |col: int| token_at(TokenType::Whitespace, " "@, col);
    lemma_word_lexes(chars, 0, "const"@);
    lemma_space_lexes(chars, 5);
    lemma_word_lexes(chars, 6, name);
    lemma_space_lexes(chars, 6 + l);
    assert(scan(chars, 7 + l, 1, 0).tokens == seq![t_equal]);
    assert(scan(chars, 7 + l, 1, 0).next == 8 + l);
    assert(lex(chars, 7 + l, 1, 0) == after(seq![t_equal], lex(chars, 8 + l, 1, 0)));
    lemma_space_lexes(chars, 8 + l);
    lemma_after_after(seq![t_equal], seq![space(8 + l)], rest);
    lemma_after_after(seq![space(6 + l)], seq![t_equal] + seq![space(8 + l)], rest);
    lemma_after_after(
        seq![t_name],
        seq![space(6 + l)] + (seq![t_equal] + seq![space(8 + l)]),
        rest,
    );
    lemma_after_after(
        seq![space(5)],
        seq![t_name] + (seq![space(6 + l)] + (seq![t_equal] + seq![space(8 + l)])),
        rest,
    );
    lemma_after_after(
        seq![t_const],
        seq![space(5)] + (seq![t_name] + (seq![space(6 + l)] + (seq![t_equal] + seq![
            space(8 + l),
        ]))),
        rest,
    );
    assert(seq![t_const] + (seq![space(5)] + (seq![t_name] + (seq![space(6 + l)] + (seq![
        t_equal,
    ] + seq![space(8 + l)])))) =~= seq![
        t_const,
        space(5),
        t_name,
        space(6 + l),
        t_equal,
        space(8 + l),
    ]);
}

/// The lexer reads the declaration that export writes as its tokens.
proof fn lemma_declaration_lexes(name: Seq<char>, v: ValueView)
    requires
        latin_letters_are_letters(),
        latin_word(name),
        writable(v, 0),
    ensures
        lex(padded(declaration_source(name, v)), 0, 1, 0) == Lexed::Tokens(
            declaration_tokens(name, v),
        ),
{
    reveal_strlit("const ");
    reveal_strlit(" = ");
    reveal_strlit("!");
    reveal_strlit("   ");
    let value_source = source_of(v, 0);
    let chars = padded(declaration_source(name, v));
    let l = name.len() as int;
    let n = value_source.len() as int;
    let a = 9 + l;
    assert(chars.len() == a + n + 4);
    assert(chars.subrange(0, 6) =~= "const "@);
    assert(chars.subrange(6, 6 + l) =~= name);
    assert(chars.subrange(6 + l, 9 + l) =~= " = "@);
    assert(chars.subrange(a, a + n) =~= value_source);
    assert(chars[a + n] == '!');
    assert(chars[a + n + 1] == ' ');
    assert(chars[a + n + 2] == ' ');
    assert(chars[a + n + 3] == ' ');
    assert(!name_char('!'));
    lemma_declaration_head_lexes(chars, name);
    lemma_value_lexes(chars, a, v, 0);
    lemma_declaration_end_lexes(chars, a + n);
    let head = seq![
        token_at(TokenType::Name, "const"@, 0),
        token_at(TokenType::Whitespace, " "@, 5),
        token_at(TokenType::Name, name, 6),
        token_at(TokenType::Whitespace, " "@, 6 + l),
        token_at(TokenType::Equal, "="@, 7 + l),
        token_at(TokenType::Whitespace, " "@, 8 + l),
    ];
    let written = written_tokens(v, a, 0);
    let tail = seq![
        token_at(TokenType::Bang, "!"@, a + n),
        token_at(TokenType::Whitespace, " "@, a + n + 1),
        token_at(TokenType::Whitespace, " "@, a + n + 2),
        token_at(TokenType::Whitespace, " "@, a + n + 3),
    ];
    assert(lex(chars, a + n, 1, 0) == Lexed::Tokens(tail));
    assert(lex(chars, a, 1, 0) == Lexed::Tokens(written + tail));
    assert(lex(chars, 0, 1, 0) == Lexed::Tokens(head + (written + tail)));
    assert(head + (written + tail) =~= declaration_tokens(name, v));
}

/// The tokens of a written declaration that count for the parser are its marks.
proof fn lemma_declaration_counts(name: Seq<char>, v: ValueView)
    requires
        writable(v, 0),
    ensures
        significant(declaration_tokens(name, v)) == declaration_marks(name, v),
{
    let l = name.len() as int;
    let a = 9 + l;
    let n = source_of(v, 0).len() as int;
    let t_const = token_at(TokenType::Name, "const"@, 0);
    let t_name = token_at(TokenType::Name, name, 6);
    let t_equal = token_at(TokenType::Equal, "="@, 7 + l);
    let t_bang = token_at(TokenType::Bang, "!"@, a + n);
    let space = |col: int| token_at(TokenType::Whitespace, " "@, col);
    let written = written_tokens(v, a, 0);
    let head = seq![t_const, space(5), t_name, space(6 + l), t_equal, space(8 + l)];
    let tail = seq![t_bang, space(a + n + 1), space(a + n + 2), space(a + n + 3)];
    lemma_significant_joined(head + written, tail);
    lemma_significant_joined(head, written);
    lemma_significant_marks(v, a, 0);
    assert(head =~= seq![t_const] + seq![space(5)] + seq![t_name] + seq![space(6 + l)] + seq![
        t_equal,
    ] + seq![space(8 + l)]);
    lemma_significant_joined(
        seq![t_const] + seq![space(5)] + seq![t_name] + seq![space(6 + l)] + seq![t_equal],
        seq![space(8 + l)],
    );
    lemma_significant_joined(
        seq![t_const] + seq![space(5)] + seq![t_name] + seq![space(6 + l)],
        seq![t_equal],
    );
    lemma_significant_joined(seq![t_const] + seq![space(5)] + seq![t_name], seq![space(6 + l)]);
    lemma_significant_joined(seq![t_const] + seq![space(5)], seq![t_name]);
    lemma_significant_joined(seq![t_const], seq![space(5)]);
    lemma_significant_one(t_const);
    lemma_significant_one(t_name);
    lemma_significant_one(t_equal);
    lemma_significant_one(space(5));
    lemma_significant_one(space(6 + l));
    lemma_significant_one(space(8 + l));
    assert(significant(head) =~= seq![t_const, t_name, t_equal]);
    assert(tail =~= seq![t_bang] + seq![space(a + n + 1)] + seq![space(a + n + 2)] + seq![
        space(a + n + 3),
    ]);
    lemma_significant_joined(
        seq![t_bang] + seq![space(a + n + 1)] + seq![space(a + n + 2)],
        seq![space(a + n + 3)],
    );
    lemma_significant_joined(seq![t_bang] + seq![space(a + n + 1)], seq![space(a + n + 2)]);
    lemma_significant_joined(seq![t_bang], seq![space(a + n + 1)]);
    lemma_significant_one(t_bang);
    lemma_significant_one(space(a + n + 1));
    lemma_significant_one(space(a + n + 2));
    lemma_significant_one(space(a + n + 3));
    assert(significant(tail) =~= seq![t_bang]);
}

/// The parser reads the marks of a written declaration as the declaration.
proof fn lemma_declaration_parses(name: Seq<char>, v: ValueView)
    requires
        !is_modifier(name),
        writable(v, 0),
    ensures
        statements_at(declaration_marks(name, v), 0, Seq::empty()) == Ok::<
            Seq<StmtView>,
            Seq<char>,
        >(seq![declaration_read(name, v)]),
{
    reveal_strlit("const");
    let l = name.len() as int;
    let a = 9 + l;
    let sig = declaration_marks(name, v);
    let marks = written_marks(v, a, 0);
    let m = marks.len() as int;
    lemma_marks_start(v, a, 0);
    assert(sig.len() == m + 4);
    assert(sig[0].token_type == TokenType::Name && sig[0].value == "const"@);
    assert(sig[1] == token_at(TokenType::Name, name, 6));
    assert(sig[2].token_type == TokenType::Equal);
    assert(sig[3 + m].token_type == TokenType::Bang);
    assert(sig.subrange(3, 3 + m) =~= marks);
    lemma_value_spans(sig, 3, v, a, 0, 0);
    let stops = statement_stops();
    assert(stops[0] == TokenType::Bang);
    assert(stops.contains(TokenType::Bang));
    assert(expression_end(sig, 3 + m, stops, 0, 0, 0) == 3 + m);
    assert(marks.subrange(0, m) =~= marks);
    lemma_value_parses(marks, 0, v, a, 0);
    assert(expression_of(marks) == Ok::<ExprView, Seq<char>>(written_expr(v, a, 0)));
    reveal(declaration_at);
    reveal_with_fuel(crate::processor::syntax_tree::modifiers_end, 3);
    reveal_with_fuel(crate::processor::syntax_tree::kind_run_end, 2);
    assert(is_modifier("const"@));
    assert(crate::processor::syntax_tree::values_between(sig, 0, 1) =~= seq!["const"@]);
    let statement = declaration_read(name, v);
    assert(declaration_at(sig, 0) == (Parsed::Done { value: statement, next: m + 4 }));
    assert(statement_at(sig, 0) == (Parsed::Done { value: statement, next: m + 4 }));
    reveal_with_fuel(statements_at, 3);
    assert(Seq::<StmtView>::empty().push(statement) =~= seq![statement]);
}

/// The declaration that export writes is read as a declaration. For a name of small
/// Latin letters that is no modifier, and a value that is a text without `${`, a truth
/// value, or a list of such values, the text that export writes is read as one
/// statement: the declaration of that name, with the expression of the value.
pub proof fn declaration_is_read(name: Seq<char>, v: ValueView)
    requires
        latin_letters_are_letters(),
        latin_word(name),
        !is_modifier(name),
        writable(v, 0),
    ensures
        program_read(declaration_source(name, v)) == Some(seq![declaration_read(name, v)]),
{
    lemma_declaration_lexes(name, v);
    lemma_declaration_counts(name, v);
    lemma_declaration_parses(name, v);
}

/// While no `after` statement waits, handling the events that wait changes nothing:
/// every part of such a run starts and ends in the state in which the run began.
proof fn lemma_poll_part<N: Arithmetic>(ops: &N, poll: Run, depth: nat, j: int)
    requires
        valid(ops, poll),
        poll.kind == (RunKind::Poll { depth }),
        poll.before.afters.len() == 0,
        0 <= j < poll.parts.len(),
    ensures
        poll.parts[j].before == poll.before,
        poll.parts[j].after == poll.before,
        !failed(poll.parts[j].result),
    decreases j,
{
    lemma_valid_parts(ops, poll);
    if j > 0 {
        lemma_poll_part(ops, poll, depth, j - 1);
        assert(poll.parts[j].before == poll.parts[j - 1].after);
    }
    lemma_valid_parts(ops, poll.parts[j]);
}

/// While no `after` statement waits, handling the events that wait changes nothing
/// and does not fail.
pub proof fn lemma_poll_idle<N: Arithmetic>(ops: &N, poll: Run, depth: nat)
    requires
        valid(ops, poll),
        poll.kind == (RunKind::Poll { depth }),
        poll.before.afters.len() == 0,
    ensures
        poll.after == poll.before,
        poll.result == Outcome::Done,
{
    lemma_valid_parts(ops, poll);
    let n = poll.parts.len() as int;
    if n > 0 {
        lemma_poll_part(ops, poll, depth, n - 1);
    }
}

/// While no `after` statement waits, closing a block changes nothing and does not
/// fail.
pub proof fn lemma_closing_idle<N: Arithmetic>(ops: &N, closing: Run, depth: nat)
    requires
        valid(ops, closing),
        closing.kind == (RunKind::Closing { depth }),
        closing.before.afters.len() == 0,
    ensures
        closing.after == closing.before,
        closing.result == Outcome::Done,
{
    lemma_valid_parts(ops, closing);
    let flush = closing.parts[0];
    lemma_valid_parts(ops, flush);
    assert(flush.parts.len() == 0);
    assert(flush.after == flush.before);
    assert(flush.result == Outcome::Done);
    let poll = closing.parts[1];
    lemma_poll_idle(ops, poll, depth);
}

/// The state after a written declaration has had its turn: what had expired at the
/// first clock reading is swept out, the name is bound to the value as it comes
/// back, and the line counter is one further.
pub open spec fn after_declaration(
    before: Machine,
    name: Seq<char>,
    v: ValueView,
    swept_at: u64,
    declared_at: u64,
) -> Machine {
    line_advanced(
        declared_machine(
            swept_machine(before, swept_at),
            name,
            seq!["const"@],
            None,
            100,
            restored(v),
            declared_at,
        ),
    )
}

/// Whether the truth values stay bound whenever the stack is swept.
pub open spec fn truth_values_stay(m: Machine) -> bool {
    forall|now: u64| truth_values_bound(#[trigger] swept_all(m.stack, m.line, now))
}

/// The turn of a written declaration, while no `after` statement waits: unless the
/// nesting limit ends it, it leaves the state that `after_declaration` gives for two
/// readings of the clock.
pub proof fn lemma_declaration_turn<N: Arithmetic>(
    ops: &N,
    turn: Run,
    name: Seq<char>,
    v: ValueView,
    depth: nat,
)
    requires
        valid(ops, turn),
        turn.kind == (RunKind::Turn { statement: declaration_read(name, v), depth }),
        writable(v, 0),
        turn.before.afters.len() == 0,
        truth_values_stay(turn.before),
    ensures
        failed(turn.result) ==> turn.result == limit_failure(),
        !failed(turn.result) ==> turn.result == Outcome::Maybe(None) && exists|
            swept_at: u64,
            declared_at: u64,
        |
            turn.after == #[trigger] after_declaration(
                turn.before,
                name,
                v,
                swept_at,
                declared_at,
            ),
{
    lemma_valid_parts(ops, turn);
    let swept_at = turn.readings[0];
    let poll = turn.parts[0];
    assert(poll.before == swept_machine(turn.before, swept_at));
    lemma_poll_idle(ops, poll, depth);
    let statement = turn.parts[1];
    lemma_valid_parts(ops, statement);
    assert(truth_values_bound(swept_all(turn.before.stack, turn.before.line, swept_at)));
    if depth > 0 {
        let evaluation = statement.parts[0];
        lemma_value_evaluates(
            ops,
            evaluation,
            v,
            9 + name.len() as int,
            0,
            (depth - 1) as nat,
        );
        if !failed(turn.result) {
            let declared_at = statement.readings[0];
            assert(turn.after == after_declaration(
                turn.before,
                name,
                v,
                swept_at,
                declared_at,
            ));
        }
    }
}

/// A value that was exported comes back by import. Let a module hold what the
/// declaration that export writes is read as: the declaration of `name` with the value
/// `v`, which is a text without `${`, a truth value, or a list of such values. While
/// no `after` statement waits and the truth values stay bound, every valid run of
/// the import of that module either ends with the nesting limit, or ends well and
/// leaves the state that `after_declaration` gives, with what the import tells: in
/// it `name` resolves to a variable that holds the value as it comes back.
pub proof fn import_round_trip<N: Arithmetic>(
    ops: &N,
    run: Run,
    module: Seq<char>,
    name: Seq<char>,
    v: ValueView,
    depth: nat,
)
    requires
        valid(ops, run),
        run.kind == (RunKind::Statement {
            statement: StmtView::ImportStatement { name: module },
            depth,
        }),
        writable(v, 0),
        run.before.stack.len() > 0,
        run.before.afters.len() == 0,
        truth_values_stay(run.before),
        module_place(run.before.modules, module, 0) < run.before.modules.len(),
        run.before.modules[module_place(run.before.modules, module, 0)].statements == Ok::<
            Seq<StmtView>,
            Seq<char>,
        >(seq![declaration_read(name, v)]),
    ensures
        failed(run.result) ==> run.result == limit_failure(),
        !failed(run.result) ==> run.result == Outcome::Maybe(None) && exists|
            swept_at: u64,
            declared_at: u64,
        |
            run.after == with_notice(
                #[trigger] after_declaration(run.before, name, v, swept_at, declared_at),
                "Successfully imported variables from '"@ + module + ".gom'"@,
            ) && resolve(run.after.stack, name) is Some && entry_value(
                resolve(run.after.stack, name)->0,
            ) == restored(v),
{
    lemma_valid_parts(ops, run);
    if depth > 0 {
        let block = run.parts[0];
        lemma_valid_parts(ops, block);
        let inner = (depth - 1) as nat;
        let statements = seq![declaration_read(name, v)];
        assert(block.kind == (RunKind::Block { statements, depth: inner }));
        assert(block.parts.len() >= 1);
        let turn = block.parts[0];
        assert(turn.kind == (RunKind::Turn { statement: statements[0], depth: inner }));
        assert(turn.before == block.before);
        lemma_declaration_turn(ops, turn, name, v, inner);
        if !failed(turn.result) {
            let (swept_at, declared_at) = choose|swept_at: u64, declared_at: u64|
                turn.after == #[trigger] after_declaration(
                    turn.before,
                    name,
                    v,
                    swept_at,
                    declared_at,
                );
            let reached = after_declaration(run.before, name, v, swept_at, declared_at);
            assert(block.parts.len() == 2);
            let closing = block.parts[1];
            assert(closing.before == turn.after);
            assert(reached.afters.len() == 0);
            lemma_closing_idle(ops, closing, inner);
            assert(block.after == reached);
            let swept_stack = swept_all(run.before.stack, run.before.line, swept_at);
            let binding = crate::interpreter::declared_binding(
                name,
                seq!["const"@],
                None,
                100,
                restored(v),
                run.before.line,
                declared_at,
            );
            assert(reached.stack == declared(swept_stack, name, binding));
            lemma_bound_with_entry(swept_stack.last(), name, binding);
            assert(resolve(reached.stack, name) == Some(binding));
            assert(entry_value(binding) == restored(v));
        }
    }
}

/// What the runtime binds a truth word to from the start.
proof fn lemma_truth_word_bound(b: Option<bool>)
    ensures
        bound(crate::interpreter::initial_globals(), truth_word(b)) == Some(
            crate::interpreter::runtime_binding(truth_word(b), ValueView::Boolean(b)),
        ),
{
    reveal_strlit("print");
    reveal_strlit("sqrt");
    reveal_strlit("len");
    reveal_strlit("alias");
    reveal_strlit("unalias");
    reveal_strlit("list_aliases");
    reveal_strlit("trigger");
    reveal_strlit("true");
    reveal_strlit("false");
    reveal_strlit("maybe");
    let g = crate::interpreter::initial_globals();
    let word = truth_word(b);
    assert("print"@[0] != word[0]);
    assert("sqrt"@[0] != word[0]);
    assert("len"@[0] != word[0]);
    assert("alias"@[0] != word[0]);
    assert("unalias"@[0] != word[0]);
    assert("list_aliases"@[0] != word[0]);
    assert("trigger"@.len() == 7);
    assert(word.len() <= 5);
    assert("true"@[0] != "false"@[0]);
    assert("true"@[0] != "maybe"@[0]);
    assert("false"@[0] != "maybe"@[0]);
    assert(g.len() == 10);
    assert(g[0].0 == "print"@);
    assert(g[1].0 == "sqrt"@);
    assert(g[2].0 == "len"@);
    assert(g[3].0 == "alias"@);
    assert(g[4].0 == "unalias"@);
    assert(g[5].0 == "list_aliases"@);
    assert(g[6].0 == "trigger"@);
    assert(g[7].0 == "true"@);
    assert(g[8].0 == "false"@);
    assert(g[9].0 == "maybe"@);
    reveal_with_fuel(find_entry, 11);
}

/// From the start the truth values stay bound: an evaluator whose one namespace
/// holds what the runtime brings keeps `true`, `false` and `maybe` through every
/// sweep, since what the runtime brings never expires.
pub proof fn truth_values_stay_from_the_start(m: Machine)
    requires
        m.stack == seq![crate::interpreter::initial_globals()],
    ensures
        truth_values_stay(m),
        truth_values_bound(m.stack),
{
    let g = crate::interpreter::initial_globals();
    crate::interpreter::lemma_initial_globals_distinct();
    assert forall|now: u64| truth_values_bound(#[trigger] swept_all(m.stack, m.line, now)) by {
        let stack = swept_all(m.stack, m.line, now);
        assert(stack.len() == 1);
        assert(stack[0] == swept(g, m.line, now));
        assert(stack.last() == swept(g, m.line, now));
        assert forall|b: Option<bool>|
            resolve(stack, #[trigger] truth_word(b)) is Some && entry_value(
                resolve(stack, truth_word(b))->0,
            ) == ValueView::Boolean(b) by {
            lemma_truth_word_bound(b);
            lemma_bound_swept(g, truth_word(b), m.line, now);
        }
    }
    assert forall|b: Option<bool>|
        resolve(m.stack, #[trigger] truth_word(b)) is Some && entry_value(
            resolve(m.stack, truth_word(b))->0,
        ) == ValueView::Boolean(b) by {
        lemma_truth_word_bound(b);
        assert(m.stack.last() == g);
    }
}

/// Whether the lexer takes a text for one numeral: digits with at most one dot among
/// them, after a minus if there is one.
pub open spec fn one_numeral(text: Seq<char>) -> bool {
    let chars = padded(text);
    text.len() > 0 && if text[0] == '-' {
        !(chars.len() > 1 && chars[1] == '-') && starts_number(chars, 1) && number_end(chars, 1, false)
            == text.len()
    } else {
        is_digit(text[0]) && number_end(chars, 0, false) == text.len()
    }
}

/// Whether the arithmetic `ops` reads the text back as the number with the bits
/// `bits`, whenever it is asked.
pub open spec fn reads_back<N: Arithmetic>(ops: &N, text: Seq<char>, bits: u64) -> bool {
    forall|t: &str, parsed: Option<u64>|
        t@ == text && #[trigger] call_ensures(N::parse, (ops, t), parsed) ==> parsed == Some(
            bits,
        )
}

/// A text that the lexer takes for one numeral is read as one expression: the number.
pub proof fn numeral_source_is_read(text: Seq<char>)
    requires
        one_numeral(text),
    ensures
        expression_read(text) == Some(ExprView::Value(token_at(TokenType::Number, text, 0))),
{
    reveal_strlit("   ");
    let chars = padded(text);
    let n = text.len() as int;
    assert(chars.len() == n + 3);
    assert(chars[0] == text[0]);
    assert(chars[n] == ' ');
    assert(chars[n + 1] == ' ');
    assert(chars[n + 2] == ' ');
    assert(chars.subrange(0, n) =~= text);
    let token = token_at(TokenType::Number, text, 0);
    let first = scan(chars, 0, 1, 0);
    assert(first.tokens == seq![token]);
    assert(first.next == n);
    lemma_space_lexes(chars, n);
    lemma_space_lexes(chars, n + 1);
    lemma_space_lexes(chars, n + 2);
    assert(lex(chars, n + 3, 1, 0) == Lexed::Tokens(Seq::empty()));
    let space = |col: int| token_at(TokenType::Whitespace, " "@, col);
    let spaces = seq![space(n), space(n + 1), space(n + 2)];
    assert(lex(chars, n, 1, 0) == Lexed::Tokens(spaces)) by {
        assert(seq![space(n + 2)] + Seq::<TokenView>::empty() =~= seq![space(n + 2)]);
        assert(seq![space(n + 1)] + seq![space(n + 2)] =~= seq![space(n + 1), space(n + 2)]);
        assert(seq![space(n)] + seq![space(n + 1), space(n + 2)] =~= spaces);
    }
    let tokens = seq![token] + spaces;
    assert(lex(chars, 0, 1, 0) == Lexed::Tokens(tokens));
    assert(tokens.len() == 4);
    reveal_with_fuel(unspaced, 5);
    assert(unspaced(tokens, 4) =~= seq![token]);
    assert(expression_of(seq![token]) == Ok::<ExprView, Seq<char>>(ExprView::Value(token)));
}

/// A number that was exported comes back, as far as the library can tell. Numbers
/// are written and read by the arithmetic, which stands outside the library. Where
/// `text` is what export writes for the number, the lexer takes it for one numeral,
/// and the arithmetic reads it back as the number, the text is read as one
/// expression, and every valid run of it yields the number and changes nothing.
pub proof fn number_round_trip<N: Arithmetic>(
    ops: &N,
    bits: u64,
    text: Seq<char>,
    run: Run,
    depth: nat,
)
    requires
        crate::interpreter::writes(ops, ValueView::Number(bits), 0, text),
        one_numeral(text),
        reads_back(ops, text, bits),
        valid(ops, run),
        expression_read(text) is Some ==> run.kind == (RunKind::Expression {
            expr: expression_read(text)->0,
            depth,
        }),
    ensures
        expression_read(text) is Some,
        run.result == Outcome::Value(ValueView::Number(bits)),
        run.after == run.before,
{
    numeral_source_is_read(text);
    lemma_valid_parts(ops, run);
    let got = run.result->Value_0->Number_0;
    assert(reads_number(ops, text, got));
}

} // verus!
