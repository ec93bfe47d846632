//! The namespace stack: an ordered list of namespaces, the innermost last. Lookup
//! walks from the innermost outward; a declaration writes to the innermost.

use crate::binding::{assigned, binding_views, bound, current_value, reverted, swept, without,
    EntryView, LifetimeView, Name, Namespace, NamespaceEntry, NamespaceView, Variable,
    VariableLifetime, VariableView};
use crate::binding::{holds_list, item_set, list_extended, previous_value, NameView};
use crate::builtin::ListKey;
use crate::binding::{lemma_swept_distinct};
use crate::builtin::{copy_value, distinct_keys, entry_views, find_entry, lemma_find_entry,
    lemma_remove_distinct, lemma_update_distinct, lemma_with_entry_distinct, put_entry,
    value_view, with_entry, DreamberdString, DreamberdUndefined, DreamberdValue, ValueView};
use vstd::prelude::*;

verus! {

/// The duration of a binding that never ends.
pub const LASTING: u64 = 0xFFFF_FFFF_FFFF_FFFF;

/// The views of the namespaces of a stack.
pub open spec fn stack_view<'a>(namespaces: Seq<Namespace<'a>>) -> Seq<NamespaceView> {
    Seq::new(namespaces.len(), |i: int| namespaces[i]@)
}

/// What an identifier is bound to: the binding of the innermost namespace that has
/// one.
pub open spec fn resolve(stack: Seq<NamespaceView>, name: Seq<char>) -> Option<EntryView>
    decreases stack.len(),
{
    if stack.len() == 0 {
        None
    } else {
        match bound(stack.last(), name) {
            Some(e) => Some(e),
            None => resolve(stack.drop_last(), name),
        }
    }
}

/// The value of a binding: that of the name, or that of the variable's active
/// lifetime, or undefined for a variable without one.
pub open spec fn entry_value(e: EntryView) -> ValueView {
    match e {
        EntryView::Variable(v) => match current_value(v) {
            Some(x) => x,
            None => ValueView::Undefined,
        },
        EntryView::Name(n) => n.value,
    }
}

/// The stack after `name` was bound to `entry` in the innermost namespace.
pub open spec fn declared(stack: Seq<NamespaceView>, name: Seq<char>, entry: EntryView) -> Seq<
    NamespaceView,
> {
    stack.update(stack.len() - 1, with_entry(stack.last(), name, entry))
}

/// The stack after `name` was taken out of every namespace.
pub open spec fn deleted(stack: Seq<NamespaceView>, name: Seq<char>) -> Seq<NamespaceView> {
    Seq::new(stack.len(), |i: int| without(stack[i], name))
}

/// The stack after every namespace lost the variables whose active lifetime has ended.
pub open spec fn swept_all(stack: Seq<NamespaceView>, line: u64, now: u64) -> Seq<NamespaceView> {
    Seq::new(stack.len(), |i: int| swept(stack[i], line, now))
}

/// Whether a namespace binds `name` to a variable.
pub open spec fn holds_variable(ns: NamespaceView, name: Seq<char>) -> bool {
    bound(ns, name) is Some && bound(ns, name)->0 is Variable
}

/// The innermost namespace below `upto` that binds `name` to a variable, or -1.
pub open spec fn variable_level(stack: Seq<NamespaceView>, name: Seq<char>, upto: int) -> int
    decreases upto,
{
    if upto <= 0 || upto > stack.len() {
        -1
    } else if holds_variable(stack[upto - 1], name) {
        upto - 1
    } else {
        variable_level(stack, name, upto - 1)
    }
}

/// The view of a variable that an assignment makes when none exists.
pub open spec fn fresh_variable(name: Seq<char>, value: ValueView) -> VariableView {
    VariableView {
        name,
        lifetimes: seq![
            LifetimeView {
                value,
                duration: LASTING,
                confidence: 100,
                can_be_reset: true,
                can_edit_value: true,
                created_at: 0,
                created_line: 0,
                is_time_based: false,
            },
        ],
        prev_values: Seq::empty(),
    }
}

/// The stack after `value` was assigned to `name`: the innermost variable of that
/// name takes it, as `assigned` says; if there is none, the innermost namespace gets
/// a new variable.
pub open spec fn stack_assigned(stack: Seq<NamespaceView>, name: Seq<char>, value: ValueView) -> Seq<
    NamespaceView,
> {
    let level = variable_level(stack, name, stack.len() as int);
    if level >= 0 {
        stack.update(
            level,
            with_entry(
                stack[level],
                name,
                EntryView::Variable(assigned(bound(stack[level], name)->0->Variable_0, value)),
            ),
        )
    } else {
        declared(stack, name, EntryView::Variable(fresh_variable(name, value)))
    }
}

/// The first place at or after `from` where a namespace holds a variable with a
/// history, or its length.
pub open spec fn first_with_history(ns: NamespaceView, from: int) -> int
    decreases ns.len() - from,
{
    if 0 <= from < ns.len() && !(ns[from].1 is Variable && ns[from].1->Variable_0.prev_values.len()
        > 0) {
        first_with_history(ns, from + 1)
    } else {
        from
    }
}

/// The first namespace at or after `from` that holds a variable with a history, or
/// the length of the stack.
pub open spec fn first_history_level(stack: Seq<NamespaceView>, from: int) -> int
    decreases stack.len() - from,
{
    if 0 <= from < stack.len() && first_with_history(stack[from], 0) >= stack[from].len() {
        first_history_level(stack, from + 1)
    } else {
        from
    }
}

/// The stack after a reverse: the first variable with a history, counted from the
/// outermost namespace and in each namespace from its first binding, has its latest
/// change undone. Without such a variable nothing changes.
pub open spec fn reversed(stack: Seq<NamespaceView>) -> Seq<NamespaceView> {
    let level = first_history_level(stack, 0);
    if 0 <= level < stack.len() {
        let place = first_with_history(stack[level], 0);
        stack.update(
            level,
            stack[level].update(
                place,
                (
                    stack[level][place].0,
                    EntryView::Variable(reverted(stack[level][place].1->Variable_0)),
                ),
            ),
        )
    } else {
        stack
    }
}

/// The properties that the first `n` bindings of a class body make: a variable gives
/// its value, a name its own text.
pub open spec fn collapsed(ns: NamespaceView, n: nat) -> Seq<(Seq<char>, ValueView)>
    decreases n,
{
    if n == 0 || n > ns.len() {
        Seq::empty()
    } else {
        let before = collapsed(ns, (n - 1) as nat);
        match ns[n - 1].1 {
            EntryView::Variable(v) => match current_value(v) {
                Some(x) => with_entry(before, ns[n - 1].0, x),
                None => before,
            },
            EntryView::Name(name) => with_entry(before, ns[n - 1].0, ValueView::String(name.name)),
        }
    }
}

/// A copy of the value of a binding.
pub fn value_of_entry<'a>(entry: &NamespaceEntry<'a>) -> (v: DreamberdValue<'a>)
    ensures
        value_view(v) == entry_value(entry@),
{
    match entry {
        NamespaceEntry::Variable(var) => match var.value() {
            Some(v) => copy_value(v),
            None => DreamberdValue::Undefined(DreamberdUndefined),
        },
        NamespaceEntry::Name(name) => copy_value(&name.value),
    }
}

/// The value that `name` is bound to, looked up from the innermost namespace outward.
pub fn lookup<'a>(namespaces: &Vec<Namespace<'a>>, name: &str) -> (r: Option<DreamberdValue<'a>>)
    ensures
        match resolve(stack_view(namespaces@), name@) {
            Some(e) => r is Some && value_view(r->0) == entry_value(e),
            None => r is None,
        },
{
    let ghost stack = stack_view(namespaces@);
    let mut i: usize = namespaces.len();
    assert(stack.take(i as int) =~= stack);
    while i > 0
        invariant
            i <= namespaces.len(),
            stack == stack_view(namespaces@),
            resolve(stack, name@) == resolve(stack.take(i as int), name@),
        decreases i,
    {
        i -= 1;
        proof {
            assert(stack.take(i + 1).drop_last() =~= stack.take(i as int));
            assert(stack.take(i + 1).last() == namespaces@[i as int]@);
        }
        match namespaces[i].get(name) {
            Some(entry) => {
                return Some(value_of_entry(entry));
            },
            None => {},
        }
    }
    assert(stack.take(0).len() == 0);
    None
}

/// Binds `name` to `entry` in the innermost namespace.
pub fn declare<'a>(namespaces: &mut Vec<Namespace<'a>>, name: String, entry: NamespaceEntry<'a>)
    requires
        old(namespaces)@.len() > 0,
    ensures
        stack_view(final(namespaces)@) == declared(stack_view(old(namespaces)@), name@, entry@),
        tidy(old(namespaces)@) ==> tidy(final(namespaces)@),
        final(namespaces)@.len() == old(namespaces)@.len(),
{
    proof {
        if all_distinct(stack_view(namespaces@)) {
            lemma_declared_distinct(stack_view(namespaces@), name@, entry@);
        }
    }
    let ghost before = stack_view(namespaces@);
    let last = namespaces.len() - 1;
    namespaces[last].insert(name, entry);
    assert(stack_view(namespaces@) =~= declared(before, name@, entry@));
}

/// Takes `name` out of every namespace, and says whether any held it.
pub fn delete<'a>(namespaces: &mut Vec<Namespace<'a>>, name: &str) -> (removed: bool)
    ensures
        stack_view(final(namespaces)@) == deleted(stack_view(old(namespaces)@), name@),
        tidy(old(namespaces)@) ==> tidy(final(namespaces)@),
        final(namespaces)@.len() == old(namespaces)@.len(),
        removed == exists|i: int|
            0 <= i < old(namespaces)@.len() && bound(
                #[trigger] stack_view(old(namespaces)@)[i],
                name@,
            ) is Some,
{
    proof {
        if all_distinct(stack_view(namespaces@)) {
            lemma_deleted_distinct(stack_view(namespaces@), name@);
        }
    }
    let ghost before = stack_view(namespaces@);
    let mut removed = false;
    let mut i: usize = 0;
    while i < namespaces.len()
        invariant
            i <= namespaces.len(),
            namespaces@.len() == before.len(),
            forall|j: int| 0 <= j < i ==> (#[trigger] namespaces@[j])@ == without(before[j], name@),
            forall|j: int| i <= j < namespaces.len() ==> (#[trigger] namespaces@[j])@ == before[j],
            removed == exists|j: int| 0 <= j < i && bound(#[trigger] before[j], name@) is Some,
        decreases namespaces.len() - i,
    {
        let taken = namespaces[i].remove(name);
        if taken.is_some() {
            removed = true;
            assert(bound(before[i as int], name@) is Some);
        }
        i += 1;
    }
    assert(stack_view(namespaces@) =~= deleted(before, name@));
    removed
}

/// Takes out of every namespace the variables whose active lifetime has ended at line
/// `line` and second `now`.
pub fn sweep_all<'a>(namespaces: &mut Vec<Namespace<'a>>, line: u64, now: u64)
    ensures
        stack_view(final(namespaces)@) == swept_all(stack_view(old(namespaces)@), line, now),
        tidy(old(namespaces)@) ==> tidy(final(namespaces)@),
        final(namespaces)@.len() == old(namespaces)@.len(),
{
    proof {
        if all_distinct(stack_view(namespaces@)) {
            lemma_swept_all_distinct(stack_view(namespaces@), line, now);
        }
    }
    let ghost before = stack_view(namespaces@);
    let mut i: usize = 0;
    while i < namespaces.len()
        invariant
            i <= namespaces.len(),
            namespaces@.len() == before.len(),
            forall|j: int|
                0 <= j < i ==> (#[trigger] namespaces@[j])@ == swept(before[j], line, now),
            forall|j: int| i <= j < namespaces.len() ==> (#[trigger] namespaces@[j])@ == before[j],
        decreases namespaces.len() - i,
    {
        namespaces[i].sweep(line, now);
        i += 1;
    }
    assert(stack_view(namespaces@) =~= swept_all(before, line, now));
}

/// Where the innermost variable called `name` is: its namespace and its place there.
pub fn find_variable<'a>(namespaces: &Vec<Namespace<'a>>, name: &str) -> (r: Option<
    (usize, usize),
>)
    ensures
        match r {
            Some((level, place)) => {
                &&& level == variable_level(
                    stack_view(namespaces@),
                    name@,
                    namespaces@.len() as int,
                )
                &&& level < namespaces@.len()
                &&& place == find_entry(namespaces@[level as int]@, name@, 0)
                &&& place < namespaces@[level as int].entries@.len()
                &&& namespaces@[level as int].entries@[place as int].1 is Variable
            },
            None => variable_level(stack_view(namespaces@), name@, namespaces@.len() as int) == -1,
        },
{
    let ghost stack = stack_view(namespaces@);
    let mut i: usize = namespaces.len();
    while i > 0
        invariant
            i <= namespaces.len(),
            stack == stack_view(namespaces@),
            variable_level(stack, name@, namespaces@.len() as int) == variable_level(
                stack,
                name@,
                i as int,
            ),
        decreases i,
    {
        i -= 1;
        let place = namespaces[i].position(name);
        if place < namespaces[i].entries.len() {
            match &namespaces[i].entries[place].1 {
                NamespaceEntry::Variable(_) => {
                    return Some((i, place));
                },
                NamespaceEntry::Name(_) => {},
            }
        }
    }
    None
}

/// Assigns `value` to `name`: to the innermost variable of that name, or, if there is
/// none, to a new variable in the innermost namespace. Says whether a variable of
/// that name existed.
pub fn assign<'a>(namespaces: &mut Vec<Namespace<'a>>, name: &str, value: DreamberdValue<'a>) -> (existed:
    bool)
    requires
        old(namespaces)@.len() > 0,
    ensures
        stack_view(final(namespaces)@) == stack_assigned(
            stack_view(old(namespaces)@),
            name@,
            value_view(value),
        ),
        tidy(old(namespaces)@) ==> tidy(final(namespaces)@),
        final(namespaces)@.len() == old(namespaces)@.len(),
        existed == (variable_level(
            stack_view(old(namespaces)@),
            name@,
            old(namespaces)@.len() as int,
        ) >= 0),
{
    proof {
        if all_distinct(stack_view(namespaces@)) {
            lemma_assigned_distinct(stack_view(namespaces@), name@, value_view(value));
        }
    }
    let ghost before = stack_view(namespaces@);
    match find_variable(namespaces, name) {
        Some((level, place)) => {
            proof {
                crate::builtin::lemma_find_entry(before[level as int], name@, 0);
            }
            namespaces[level].assign_at(place, value);
            assert(stack_view(namespaces@) =~= stack_assigned(before, name@, value_view(value)));
            true
        },
        None => {
            let lifetime = VariableLifetime::new(value, LASTING, 100, true, true);
            let variable = Variable::new(String::from_str(name), lifetime);
            declare(namespaces, String::from_str(name), NamespaceEntry::Variable(variable));
            false
        },
    }
}

/// How a reassignment by statement ended.
#[derive(Debug, Clone, Copy, PartialEq, Eq, Structural)]
pub enum Reassignment {
    /// The binding took the value.
    Done,
    /// The variable may not be reset.
    Constant,
    /// No namespace binds the name.
    Missing,
}

/// Whether a namespace has a binding of `name` that a reassignment can address: a
/// name, or a variable with a lifetime.
pub open spec fn addressable(ns: NamespaceView, name: Seq<char>) -> bool {
    match bound(ns, name) {
        Some(EntryView::Variable(v)) => v.lifetimes.len() > 0,
        Some(EntryView::Name(_)) => true,
        None => false,
    }
}

/// The first namespace at or after `from`, counted from the outermost, with a binding
/// of `name` that a reassignment can address, or the length of the stack.
pub open spec fn first_addressable(stack: Seq<NamespaceView>, name: Seq<char>, from: int) -> int
    decreases stack.len() - from,
{
    if 0 <= from < stack.len() && !addressable(stack[from], name) {
        first_addressable(stack, name, from + 1)
    } else {
        from
    }
}

/// The stack after a reassignment by statement, and how it ended. The outermost
/// binding of `name` is addressed. A variable takes the value as `assigned` says if
/// it may be reset, and is left alone if not; a name takes the value.
pub open spec fn reassigned(stack: Seq<NamespaceView>, name: Seq<char>, value: ValueView) -> (
    Seq<NamespaceView>,
    Reassignment,
) {
    let level = first_addressable(stack, name, 0);
    if 0 <= level < stack.len() {
        match bound(stack[level], name) {
            Some(EntryView::Variable(v)) => if v.lifetimes[0].can_be_reset {
                (
                    stack.update(
                        level,
                        with_entry(stack[level], name, EntryView::Variable(assigned(v, value))),
                    ),
                    Reassignment::Done,
                )
            } else {
                (stack, Reassignment::Constant)
            },
            Some(EntryView::Name(n)) => (
                stack.update(
                    level,
                    with_entry(
                        stack[level],
                        name,
                        EntryView::Name(NameView { name: n.name, value }),
                    ),
                ),
                Reassignment::Done,
            ),
            None => (stack, Reassignment::Missing),
        }
    } else {
        (stack, Reassignment::Missing)
    }
}

/// Reassigns `name` by statement, and says how it ended.
#[verifier::loop_isolation(false)]
pub fn reassign<'a>(namespaces: &mut Vec<Namespace<'a>>, name: &str, value: DreamberdValue<'a>) -> (r:
    Reassignment)
    ensures
        (stack_view(final(namespaces)@), r) == reassigned(
            stack_view(old(namespaces)@),
            name@,
            value_view(value),
        ),
        tidy(old(namespaces)@) ==> tidy(final(namespaces)@),
        final(namespaces)@.len() == old(namespaces)@.len(),
{
    proof {
        if all_distinct(stack_view(namespaces@)) {
            lemma_reassigned_distinct(stack_view(namespaces@), name@, value_view(value));
        }
    }
    let ghost before = stack_view(namespaces@);
    let mut i: usize = 0;
    while i < namespaces.len()
        invariant
            i <= namespaces.len(),
            before == stack_view(namespaces@),
            first_addressable(before, name@, 0) == first_addressable(before, name@, i as int),
        decreases namespaces.len() - i,
    {
        let place = namespaces[i].position(name);
        proof {
            lemma_find_entry(before[i as int], name@, 0);
        }
        if place < namespaces[i].entries.len() {
            let (is_name, has_lifetime, can_be_reset) = match &namespaces[i].entries[place].1 {
                NamespaceEntry::Variable(var) => (
                    false,
                    var.lifetimes.len() > 0,
                    var.lifetimes.len() > 0 && var.lifetimes[0].can_be_reset,
                ),
                NamespaceEntry::Name(_) => (true, false, false),
            };
            if is_name {
                namespaces[i].rename_at(place, value);
                assert(stack_view(namespaces@) =~= reassigned(before, name@, value_view(value)).0);
                return Reassignment::Done;
            }
            if has_lifetime {
                if can_be_reset {
                    namespaces[i].assign_at(place, value);
                    assert(stack_view(namespaces@) =~= reassigned(
                        before,
                        name@,
                        value_view(value),
                    ).0);
                    return Reassignment::Done;
                }
                return Reassignment::Constant;
            }
        }
        i += 1;
    }
    Reassignment::Missing
}

/// The value that the innermost variable called `name` had before its latest change;
/// undefined if there is no such variable or it never changed.
pub open spec fn previous_of(stack: Seq<NamespaceView>, name: Seq<char>) -> ValueView {
    let level = variable_level(stack, name, stack.len() as int);
    if level >= 0 {
        match previous_value(bound(stack[level], name)->0->Variable_0, 0) {
            Some(x) => x,
            None => ValueView::Undefined,
        }
    } else {
        ValueView::Undefined
    }
}

/// The value that the innermost variable called `name` had before its latest change.
pub fn previous<'a>(namespaces: &Vec<Namespace<'a>>, name: &str) -> (v: DreamberdValue<'a>)
    ensures
        value_view(v) == previous_of(stack_view(namespaces@), name@),
{
    match find_variable(namespaces, name) {
        Some((level, place)) => {
            proof {
                lemma_find_entry(namespaces@[level as int]@, name@, 0);
            }
            match &namespaces[level].entries[place].1 {
                NamespaceEntry::Variable(var) => match var.get_previous(0) {
                    Some(v) => copy_value(v),
                    None => DreamberdValue::Undefined(DreamberdUndefined),
                },
                NamespaceEntry::Name(_) => DreamberdValue::Undefined(DreamberdUndefined),
            }
        },
        None => DreamberdValue::Undefined(DreamberdUndefined),
    }
}

/// The value of the innermost variable called `name`, if there is one and it has a
/// value.
pub open spec fn variable_value(stack: Seq<NamespaceView>, name: Seq<char>) -> Option<ValueView> {
    let level = variable_level(stack, name, stack.len() as int);
    if level >= 0 {
        current_value(bound(stack[level], name)->0->Variable_0)
    } else {
        None
    }
}

/// A copy of the value of the innermost variable called `name`.
pub fn value_of_variable<'a>(namespaces: &Vec<Namespace<'a>>, name: &str) -> (r: Option<
    DreamberdValue<'a>,
>)
    ensures
        match variable_value(stack_view(namespaces@), name@) {
            Some(x) => r is Some && value_view(r->0) == x,
            None => r is None,
        },
{
    match find_variable(namespaces, name) {
        Some((level, place)) => {
            proof {
                lemma_find_entry(namespaces@[level as int]@, name@, 0);
            }
            match &namespaces[level].entries[place].1 {
                NamespaceEntry::Variable(var) => match var.value() {
                    Some(v) => Some(copy_value(v)),
                    None => None,
                },
                NamespaceEntry::Name(_) => None,
            }
        },
        None => None,
    }
}

fn history_place<'a>(ns: &Namespace<'a>) -> (place: usize)
    ensures
        place == first_with_history(ns@, 0),
        place <= ns.entries@.len(),
        place < ns.entries@.len() ==> ns.entries@[place as int].1 is Variable,
{
    let mut i: usize = 0;
    while i < ns.entries.len()
        invariant
            i <= ns.entries.len(),
            first_with_history(ns@, 0) == first_with_history(ns@, i as int),
        decreases ns.entries.len() - i,
    {
        match &ns.entries[i].1 {
            NamespaceEntry::Variable(var) => {
                assert(ns@[i as int].1->Variable_0.prev_values.len() == var.prev_values@.len());
                if var.prev_values.len() > 0 {
                    return i;
                }
            },
            NamespaceEntry::Name(_) => {},
        }
        i += 1;
    }
    i
}

/// Undoes the latest change of the first variable that has a history, and gives the
/// identifier of that variable; without such a variable changes nothing.
#[verifier::loop_isolation(false)]
pub fn reverse<'a>(namespaces: &mut Vec<Namespace<'a>>) -> (r: Option<String>)
    ensures
        stack_view(final(namespaces)@) == reversed(stack_view(old(namespaces)@)),
        tidy(old(namespaces)@) ==> tidy(final(namespaces)@),
        final(namespaces)@.len() == old(namespaces)@.len(),
        match r {
            Some(name) => {
                let stack = stack_view(old(namespaces)@);
                let level = first_history_level(stack, 0);
                0 <= level < stack.len() && name@ == stack[level][first_with_history(
                    stack[level],
                    0,
                )].0
            },
            None => first_history_level(stack_view(old(namespaces)@), 0) >= old(namespaces)@.len(),
        },
{
    proof {
        if all_distinct(stack_view(namespaces@)) {
            lemma_reversed_distinct(stack_view(namespaces@));
        }
    }
    let ghost before = stack_view(namespaces@);
    let mut i: usize = 0;
    while i < namespaces.len()
        invariant
            i <= namespaces.len(),
            before == stack_view(namespaces@),
            first_history_level(before, 0) == first_history_level(before, i as int),
        decreases namespaces.len() - i,
    {
        let place = history_place(&namespaces[i]);
        if place < namespaces[i].entries.len() {
            let name = namespaces[i].entries[place].0.clone();
            namespaces[i].revert_at(place);
            assert(stack_view(namespaces@) =~= reversed(before));
            return Some(name);
        }
        i += 1;
    }
    None
}

/// The properties that the bindings of a class body make.
pub fn collapse<'a>(ns: &Namespace<'a>) -> (r: Vec<(String, DreamberdValue<'a>)>)
    ensures
        entry_views(r@) == collapsed(ns@, ns@.len()),
{
    let mut properties: Vec<(String, DreamberdValue<'a>)> = Vec::new();
    let mut i: usize = 0;
    assert(entry_views(properties@) =~= collapsed(ns@, 0));
    while i < ns.entries.len()
        invariant
            i <= ns.entries.len(),
            entry_views(properties@) == collapsed(ns@, i as nat),
        decreases ns.entries.len() - i,
    {
        match &ns.entries[i].1 {
            NamespaceEntry::Variable(var) => match var.value() {
                Some(v) => {
                    put_entry(&mut properties, ns.entries[i].0.clone(), copy_value(v));
                },
                None => {},
            },
            NamespaceEntry::Name(name) => {
                put_entry(
                    &mut properties,
                    ns.entries[i].0.clone(),
                    DreamberdValue::String(DreamberdString::new(name.name.clone())),
                );
            },
        }
        i += 1;
    }
    properties
}

/// Whether a namespace binds `name` to a variable whose value is a list.
pub open spec fn holds_list_variable(ns: NamespaceView, name: Seq<char>) -> bool {
    bound(ns, name) is Some && holds_list(bound(ns, name)->0)
}

/// The innermost namespace below `upto` that binds `name` to a variable whose value
/// is a list, or -1.
pub open spec fn list_level(stack: Seq<NamespaceView>, name: Seq<char>, upto: int) -> int
    decreases upto,
{
    if upto <= 0 || upto > stack.len() {
        -1
    } else if holds_list_variable(stack[upto - 1], name) {
        upto - 1
    } else {
        list_level(stack, name, upto - 1)
    }
}

/// The stack after `value` was put under `key` into the list of the innermost
/// variable called `name` whose value is a list. Without such a variable nothing
/// changes.
pub open spec fn list_assigned(
    stack: Seq<NamespaceView>,
    name: Seq<char>,
    key: ListKey,
    floor: i64,
    value: ValueView,
) -> Seq<NamespaceView> {
    let level = list_level(stack, name, stack.len() as int);
    if level >= 0 {
        stack.update(
            level,
            with_entry(
                stack[level],
                name,
                EntryView::Variable(
                    list_extended(bound(stack[level], name)->0->Variable_0, key, floor, value),
                ),
            ),
        )
    } else {
        stack
    }
}

/// Puts `value` under `key` into the list of the innermost variable called `name`
/// whose value is a list, and says whether there is such a variable.
pub fn insert_into_list<'a>(
    namespaces: &mut Vec<Namespace<'a>>,
    name: &str,
    key: ListKey,
    floor: i64,
    value: DreamberdValue<'a>,
) -> (found: bool)
    ensures
        stack_view(final(namespaces)@) == list_assigned(
            stack_view(old(namespaces)@),
            name@,
            key,
            floor,
            value_view(value),
        ),
        tidy(old(namespaces)@) ==> tidy(final(namespaces)@),
        final(namespaces)@.len() == old(namespaces)@.len(),
        found == (list_level(stack_view(old(namespaces)@), name@, old(namespaces)@.len() as int)
            >= 0),
{
    proof {
        if all_distinct(stack_view(namespaces@)) {
            lemma_list_assigned_distinct(stack_view(namespaces@), name@, key, floor, value_view(value));
        }
    }
    let ghost before = stack_view(namespaces@);
    let mut i: usize = namespaces.len();
    while i > 0
        invariant
            i <= namespaces.len(),
            before == stack_view(namespaces@),
            namespaces@ == old(namespaces)@,
            list_level(before, name@, namespaces@.len() as int) == list_level(
                before,
                name@,
                i as int,
            ),
        decreases i,
    {
        i -= 1;
        let place = namespaces[i].position(name);
        proof {
            lemma_find_entry(before[i as int], name@, 0);
        }
        if place < namespaces[i].entries.len() {
            let is_list = match &namespaces[i].entries[place].1 {
                NamespaceEntry::Variable(var) => var.list_length().is_some(),
                NamespaceEntry::Name(_) => false,
            };
            if is_list {
                namespaces[i].extend_list_at(place, key, floor, value);
                assert(stack_view(namespaces@) =~= list_assigned(
                    before,
                    name@,
                    key,
                    floor,
                    value_view(value),
                ));
                return true;
            }
        }
    }
    false
}

/// How an index assignment by statement ended.
#[derive(Debug, Clone, Copy, PartialEq, Eq, Structural)]
pub enum ItemAssignment {
    /// The item took the value.
    Done,
    /// The list has no such place; it has as many items as given.
    OutOfBounds(usize),
    /// The variable holds no list.
    NotAList,
    /// The identifier is bound to a name, not to a variable.
    IsName,
    /// No namespace binds the identifier.
    Missing,
}

/// The first namespace at or after `from`, counted from the outermost, that binds
/// `name`, or the length of the stack.
pub open spec fn first_bound(stack: Seq<NamespaceView>, name: Seq<char>, from: int) -> int
    decreases stack.len() - from,
{
    if 0 <= from < stack.len() && bound(stack[from], name) is None {
        first_bound(stack, name, from + 1)
    } else {
        from
    }
}

/// The stack after an index assignment by statement, and how it ended. The outermost
/// binding of `name` is addressed; it must be a variable whose value is a list, and
/// `place` must be a place of that list.
pub open spec fn item_assigned(
    stack: Seq<NamespaceView>,
    name: Seq<char>,
    place: int,
    value: ValueView,
) -> (Seq<NamespaceView>, ItemAssignment) {
    let level = first_bound(stack, name, 0);
    if 0 <= level < stack.len() {
        let entry = bound(stack[level], name)->0;
        if entry is Name {
            (stack, ItemAssignment::IsName)
        } else if !holds_list(entry) {
            (stack, ItemAssignment::NotAList)
        } else {
            let items = entry->Variable_0.lifetimes[0].value->List_values;
            if 0 <= place < items.len() {
                (
                    stack.update(
                        level,
                        with_entry(
                            stack[level],
                            name,
                            EntryView::Variable(item_set(entry->Variable_0, place, value)),
                        ),
                    ),
                    ItemAssignment::Done,
                )
            } else {
                (stack, ItemAssignment::OutOfBounds(items.len() as usize))
            }
        }
    } else {
        (stack, ItemAssignment::Missing)
    }
}

/// Assigns `value` to the item in place `place` of the list of the outermost binding
/// of `name`, and says how it ended.
#[verifier::loop_isolation(false)]
pub fn replace_list_item<'a>(
    namespaces: &mut Vec<Namespace<'a>>,
    name: &str,
    place: i64,
    value: DreamberdValue<'a>,
) -> (r: ItemAssignment)
    ensures
        (stack_view(final(namespaces)@), r) == item_assigned(
            stack_view(old(namespaces)@),
            name@,
            place as int,
            value_view(value),
        ),
        tidy(old(namespaces)@) ==> tidy(final(namespaces)@),
        final(namespaces)@.len() == old(namespaces)@.len(),
{
    proof {
        if all_distinct(stack_view(namespaces@)) {
            lemma_item_assigned_distinct(stack_view(namespaces@), name@, place as int, value_view(value));
        }
    }
    let ghost before = stack_view(namespaces@);
    let mut i: usize = 0;
    while i < namespaces.len()
        invariant
            i <= namespaces.len(),
            before == stack_view(namespaces@),
            first_bound(before, name@, 0) == first_bound(before, name@, i as int),
        decreases namespaces.len() - i,
    {
        let at = namespaces[i].position(name);
        proof {
            lemma_find_entry(before[i as int], name@, 0);
        }
        if at < namespaces[i].entries.len() {
            let length = match &namespaces[i].entries[at].1 {
                NamespaceEntry::Variable(var) => var.list_length(),
                NamespaceEntry::Name(_) => {
                    return ItemAssignment::IsName;
                },
            };
            match length {
                None => {
                    return ItemAssignment::NotAList;
                },
                Some(n) => {
                    if place >= 0 && (place as u64) < (n as u64) {
                        namespaces[i].set_item_at(at, place as usize, value);
                        assert(stack_view(namespaces@) =~= item_assigned(
                            before,
                            name@,
                            place as int,
                            value_view(value),
                        ).0);
                        return ItemAssignment::Done;
                    }
                    return ItemAssignment::OutOfBounds(n);
                },
            }
        }
        i += 1;
    }
    ItemAssignment::Missing
}

/// Whether no namespace of a stack binds an identifier twice.
pub open spec fn all_distinct(stack: Seq<NamespaceView>) -> bool {
    forall|i: int| 0 <= i < stack.len() ==> distinct_keys(#[trigger] stack[i])
}

/// A declaration keeps the identifiers of every namespace distinct.
pub proof fn lemma_declared_distinct(stack: Seq<NamespaceView>, name: Seq<char>, entry: EntryView)
    requires
        stack.len() > 0,
        all_distinct(stack),
    ensures
        all_distinct(declared(stack, name, entry)),
{
    assert(distinct_keys(stack[stack.len() - 1]));
    lemma_with_entry_distinct(stack.last(), name, entry);
}

/// A deletion keeps the identifiers of every namespace distinct.
pub proof fn lemma_deleted_distinct(stack: Seq<NamespaceView>, name: Seq<char>)
    requires
        all_distinct(stack),
    ensures
        all_distinct(deleted(stack, name)),
{
    assert forall|i: int| 0 <= i < stack.len() implies distinct_keys(
        #[trigger] deleted(stack, name)[i],
    ) by {
        assert(distinct_keys(stack[i]));
        lemma_find_entry(stack[i], name, 0);
        if find_entry(stack[i], name, 0) < stack[i].len() {
            lemma_remove_distinct(stack[i], find_entry(stack[i], name, 0));
        }
    }
}

/// A sweep keeps the identifiers of every namespace distinct.
pub proof fn lemma_swept_all_distinct(stack: Seq<NamespaceView>, line: u64, now: u64)
    requires
        all_distinct(stack),
    ensures
        all_distinct(swept_all(stack, line, now)),
{
    assert forall|i: int| 0 <= i < stack.len() implies distinct_keys(
        #[trigger] swept_all(stack, line, now)[i],
    ) by {
        assert(distinct_keys(stack[i]));
        lemma_swept_distinct(stack[i], line, now);
    }
}

/// Changing one namespace into one with distinct identifiers keeps the identifiers of
/// every namespace distinct.
pub proof fn lemma_level_distinct(stack: Seq<NamespaceView>, level: int, ns: NamespaceView)
    requires
        all_distinct(stack),
        0 <= level < stack.len(),
        distinct_keys(ns),
    ensures
        all_distinct(stack.update(level, ns)),
{
    assert forall|i: int| 0 <= i < stack.len() implies distinct_keys(
        #[trigger] stack.update(level, ns)[i],
    ) by {
        if i != level {
            assert(distinct_keys(stack[i]));
        }
    }
}

proof fn lemma_variable_level_range(stack: Seq<NamespaceView>, name: Seq<char>, upto: int)
    requires
        0 <= upto <= stack.len(),
    ensures
        -1 <= variable_level(stack, name, upto) < upto,
    decreases upto,
{
    if upto > 0 && !holds_variable(stack[upto - 1], name) {
        lemma_variable_level_range(stack, name, upto - 1);
    }
}

/// An assignment keeps the identifiers of every namespace distinct.
pub proof fn lemma_assigned_distinct(stack: Seq<NamespaceView>, name: Seq<char>, value: ValueView)
    requires
        stack.len() > 0,
        all_distinct(stack),
    ensures
        all_distinct(stack_assigned(stack, name, value)),
{
    let level = variable_level(stack, name, stack.len() as int);
    lemma_variable_level_range(stack, name, stack.len() as int);
    if level >= 0 {
        assert(distinct_keys(stack[level]));
        let entry = EntryView::Variable(
            assigned(bound(stack[level], name)->0->Variable_0, value),
        );
        lemma_with_entry_distinct(stack[level], name, entry);
        lemma_level_distinct(stack, level, with_entry(stack[level], name, entry));
    } else {
        lemma_declared_distinct(stack, name, EntryView::Variable(fresh_variable(name, value)));
    }
}

proof fn lemma_first_addressable_range(stack: Seq<NamespaceView>, name: Seq<char>, from: int)
    requires
        0 <= from <= stack.len(),
    ensures
        from <= first_addressable(stack, name, from) <= stack.len(),
    decreases stack.len() - from,
{
    if from < stack.len() && !addressable(stack[from], name) {
        lemma_first_addressable_range(stack, name, from + 1);
    }
}

/// A reassignment by statement keeps the identifiers of every namespace distinct.
pub proof fn lemma_reassigned_distinct(stack: Seq<NamespaceView>, name: Seq<char>, value: ValueView)
    requires
        all_distinct(stack),
    ensures
        all_distinct(reassigned(stack, name, value).0),
{
    let level = first_addressable(stack, name, 0);
    lemma_first_addressable_range(stack, name, 0);
    if level < stack.len() {
        assert(distinct_keys(stack[level]));
        match bound(stack[level], name) {
            Some(EntryView::Variable(v)) => {
                if v.lifetimes[0].can_be_reset {
                    let entry = EntryView::Variable(assigned(v, value));
                    lemma_with_entry_distinct(stack[level], name, entry);
                    lemma_level_distinct(stack, level, with_entry(stack[level], name, entry));
                }
            },
            Some(EntryView::Name(n)) => {
                let entry = EntryView::Name(NameView { name: n.name, value });
                lemma_with_entry_distinct(stack[level], name, entry);
                lemma_level_distinct(stack, level, with_entry(stack[level], name, entry));
            },
            None => {},
        }
    }
}

proof fn lemma_history_level_range(stack: Seq<NamespaceView>, from: int)
    requires
        0 <= from <= stack.len(),
    ensures
        from <= first_history_level(stack, from) <= stack.len(),
        first_history_level(stack, from) < stack.len() ==> 0 <= first_with_history(
            stack[first_history_level(stack, from)],
            0,
        ) < stack[first_history_level(stack, from)].len(),
    decreases stack.len() - from,
{
    if from < stack.len() {
        lemma_history_place_range(stack[from], 0);
        if first_with_history(stack[from], 0) >= stack[from].len() {
            lemma_history_level_range(stack, from + 1);
        }
    }
}

proof fn lemma_history_place_range(ns: NamespaceView, from: int)
    requires
        0 <= from <= ns.len(),
    ensures
        from <= first_with_history(ns, from) <= ns.len(),
    decreases ns.len() - from,
{
    if from < ns.len() && !(ns[from].1 is Variable && ns[from].1->Variable_0.prev_values.len()
        > 0) {
        lemma_history_place_range(ns, from + 1);
    }
}

/// A reverse keeps the identifiers of every namespace distinct.
pub proof fn lemma_reversed_distinct(stack: Seq<NamespaceView>)
    requires
        all_distinct(stack),
    ensures
        all_distinct(reversed(stack)),
{
    let level = first_history_level(stack, 0);
    lemma_history_level_range(stack, 0);
    if level < stack.len() {
        let place = first_with_history(stack[level], 0);
        assert(distinct_keys(stack[level]));
        let entry = EntryView::Variable(reverted(stack[level][place].1->Variable_0));
        lemma_update_distinct(stack[level], place, entry);
        lemma_level_distinct(
            stack,
            level,
            stack[level].update(place, (stack[level][place].0, entry)),
        );
    }
}

proof fn lemma_list_level_range(stack: Seq<NamespaceView>, name: Seq<char>, upto: int)
    requires
        0 <= upto <= stack.len(),
    ensures
        -1 <= list_level(stack, name, upto) < upto,
    decreases upto,
{
    if upto > 0 && !holds_list_variable(stack[upto - 1], name) {
        lemma_list_level_range(stack, name, upto - 1);
    }
}

/// Putting an item into a list keeps the identifiers of every namespace distinct.
pub proof fn lemma_list_assigned_distinct(
    stack: Seq<NamespaceView>,
    name: Seq<char>,
    key: ListKey,
    floor: i64,
    value: ValueView,
)
    requires
        all_distinct(stack),
    ensures
        all_distinct(list_assigned(stack, name, key, floor, value)),
{
    let level = list_level(stack, name, stack.len() as int);
    lemma_list_level_range(stack, name, stack.len() as int);
    if level >= 0 {
        assert(distinct_keys(stack[level]));
        let entry = EntryView::Variable(
            list_extended(bound(stack[level], name)->0->Variable_0, key, floor, value),
        );
        lemma_with_entry_distinct(stack[level], name, entry);
        lemma_level_distinct(stack, level, with_entry(stack[level], name, entry));
    }
}

proof fn lemma_first_bound_range(stack: Seq<NamespaceView>, name: Seq<char>, from: int)
    requires
        0 <= from <= stack.len(),
    ensures
        from <= first_bound(stack, name, from) <= stack.len(),
    decreases stack.len() - from,
{
    if from < stack.len() && bound(stack[from], name) is None {
        lemma_first_bound_range(stack, name, from + 1);
    }
}

/// An index assignment by statement keeps the identifiers of every namespace distinct.
pub proof fn lemma_item_assigned_distinct(
    stack: Seq<NamespaceView>,
    name: Seq<char>,
    place: int,
    value: ValueView,
)
    requires
        all_distinct(stack),
    ensures
        all_distinct(item_assigned(stack, name, place, value).0),
{
    let level = first_bound(stack, name, 0);
    lemma_first_bound_range(stack, name, 0);
    if level < stack.len() {
        assert(distinct_keys(stack[level]));
        let entry = bound(stack[level], name)->0;
        if !(entry is Name) && holds_list(entry) {
            let items = entry->Variable_0.lifetimes[0].value->List_values;
            if 0 <= place < items.len() {
                let changed = EntryView::Variable(item_set(entry->Variable_0, place, value));
                lemma_with_entry_distinct(stack[level], name, changed);
                lemma_level_distinct(stack, level, with_entry(stack[level], name, changed));
            }
        }
    }
}

/// Whether a stack of namespaces is tidy: none of its namespaces binds an identifier
/// twice.
pub closed spec fn tidy<'a>(namespaces: Seq<Namespace<'a>>) -> bool {
    all_distinct(stack_view(namespaces))
}

/// What it is for a stack to be tidy.
pub proof fn lemma_tidy<'a>(namespaces: Seq<Namespace<'a>>)
    ensures
        tidy(namespaces) == all_distinct(stack_view(namespaces)),
{
}

/// Puts a namespace on the stack, as its innermost.
pub fn enter<'a>(namespaces: &mut Vec<Namespace<'a>>, scope: Namespace<'a>)
    ensures
        final(namespaces)@ == old(namespaces)@.push(scope),
        tidy(old(namespaces)@) && scope.wf() ==> tidy(final(namespaces)@),
{
    let ghost before = stack_view(namespaces@);
    namespaces.push(scope);
    proof {
        assert(stack_view(namespaces@) =~= before.push(scope@));
        if all_distinct(before) && scope.wf() {
            assert forall|i: int| 0 <= i < before.len() + 1 implies distinct_keys(
                #[trigger] before.push(scope@)[i],
            ) by {
                if i < before.len() {
                    assert(distinct_keys(before[i]));
                }
            }
        }
    }
}

/// Takes the innermost namespace off the stack.
pub fn leave<'a>(namespaces: &mut Vec<Namespace<'a>>) -> (r: Option<Namespace<'a>>)
    ensures
        match r {
            Some(ns) => old(namespaces)@.len() > 0 && final(namespaces)@ == old(
                namespaces,
            )@.drop_last() && ns == old(namespaces)@.last() && (tidy(old(namespaces)@)
                ==> ns.wf()),
            None => old(namespaces)@.len() == 0 && final(namespaces)@ == old(namespaces)@,
        },
        tidy(old(namespaces)@) ==> tidy(final(namespaces)@),
{
    let ghost before = stack_view(namespaces@);
    let r = namespaces.pop();
    proof {
        if r is Some {
            assert(stack_view(namespaces@) =~= before.drop_last());
            if all_distinct(before) {
                assert(distinct_keys(before[before.len() - 1]));
                assert forall|i: int| 0 <= i < before.len() - 1 implies distinct_keys(
                    #[trigger] before.drop_last()[i],
                ) by {
                    assert(distinct_keys(before[i]));
                }
            }
        }
    }
    r
}

/// Takes namespaces off the stack until `levels` are left.
pub fn leave_to<'a>(namespaces: &mut Vec<Namespace<'a>>, levels: usize)
    ensures
        levels <= old(namespaces)@.len() ==> final(namespaces)@ == old(namespaces)@.take(
            levels as int,
        ),
        levels > old(namespaces)@.len() ==> final(namespaces)@ == old(namespaces)@,
        tidy(old(namespaces)@) ==> tidy(final(namespaces)@),
{
    let ghost before = stack_view(namespaces@);
    namespaces.truncate(levels);
    proof {
        if levels <= before.len() {
            assert(stack_view(namespaces@) =~= before.take(levels as int));
            if all_distinct(before) {
                assert forall|i: int| 0 <= i < levels implies distinct_keys(
                    #[trigger] before.take(levels as int)[i],
                ) by {
                    assert(distinct_keys(before[i]));
                }
            }
        }
    }
}

/// Binds `key` to `entry` in the outermost namespace.
pub fn declare_global<'a>(namespaces: &mut Vec<Namespace<'a>>, key: String, entry: NamespaceEntry<'a>)
    requires
        old(namespaces)@.len() > 0,
    ensures
        stack_view(final(namespaces)@) == stack_view(old(namespaces)@).update(
            0,
            with_entry(stack_view(old(namespaces)@)[0], key@, entry@),
        ),
        final(namespaces)@.len() == old(namespaces)@.len(),
        tidy(old(namespaces)@) ==> tidy(final(namespaces)@),
{
    let ghost before = stack_view(namespaces@);
    proof {
        if all_distinct(before) {
            assert(distinct_keys(before[0]));
            lemma_with_entry_distinct(before[0], key@, entry@);
            lemma_level_distinct(before, 0, with_entry(before[0], key@, entry@));
        }
    }
    namespaces[0].insert(key, entry);
    assert(stack_view(namespaces@) =~= before.update(0, with_entry(before[0], key@, entry@)));
}

} // verus!
