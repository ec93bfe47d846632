//! Bindings: variables with lifetimes and a history of values, names of arguments,
//! and the namespaces that hold them.

use crate::builtin::{copy_value, distinct_keys, find_entry, lemma_find_entry,
    lemma_remove_distinct, lemma_update_distinct, lemma_with_entry_distinct, list_insert,
    value_view, value_views, with_entry, DreamberdValue, ListKey, ValueView};
use crate::text::same_text;
use vstd::prelude::*;
use vstd::std_specs::iter::IteratorSpec;

verus! {

/// One lifetime of a variable: a value, and when and how it may change or end.
#[derive(Debug, PartialEq)]
pub struct VariableLifetime<'a> {
    pub value: DreamberdValue<'a>,
    /// How long the lifetime lasts: a number of lines, or of seconds if `is_time_based`.
    pub duration: u64,
    pub confidence: i32,
    pub can_be_reset: bool,
    pub can_edit_value: bool,
    /// The second at which the lifetime began, on the clock of the interpreter.
    pub created_at: u64,
    /// The line at which the lifetime began.
    pub created_line: u64,
    pub is_time_based: bool,
}

/// A variable: its name, its lifetimes, of which the first is the active one, and the
/// values it had before, the latest last.
#[derive(Debug, PartialEq)]
pub struct Variable<'a> {
    pub name: String,
    pub lifetimes: Vec<VariableLifetime<'a>>,
    pub prev_values: Vec<DreamberdValue<'a>>,
}

/// A name bound to a value, such as an argument of a call.
#[derive(Debug, PartialEq)]
pub struct Name<'a> {
    pub name: String,
    pub value: DreamberdValue<'a>,
}

/// What a namespace holds under an identifier.
#[derive(Debug, PartialEq)]
pub enum NamespaceEntry<'a> {
    Variable(Variable<'a>),
    Name(Name<'a>),
}

/// A namespace: identifiers and what they are bound to, in the order in which the
/// identifiers came.
#[derive(Debug, PartialEq)]
pub struct Namespace<'a> {
    pub entries: Vec<(String, NamespaceEntry<'a>)>,
}

pub struct LifetimeView {
    pub value: ValueView,
    pub duration: u64,
    pub confidence: i32,
    pub can_be_reset: bool,
    pub can_edit_value: bool,
    pub created_at: u64,
    pub created_line: u64,
    pub is_time_based: bool,
}

pub struct VariableView {
    pub name: Seq<char>,
    pub lifetimes: Seq<LifetimeView>,
    pub prev_values: Seq<ValueView>,
}

pub struct NameView {
    pub name: Seq<char>,
    pub value: ValueView,
}

pub enum EntryView {
    Variable(VariableView),
    Name(NameView),
}

/// What a namespace holds: identifiers with what they are bound to.
pub type NamespaceView = Seq<(Seq<char>, EntryView)>;

impl<'a> View for VariableLifetime<'a> {
    type V = LifetimeView;

    open spec fn view(&self) -> LifetimeView {
        LifetimeView {
            value: value_view(self.value),
            duration: self.duration,
            confidence: self.confidence,
            can_be_reset: self.can_be_reset,
            can_edit_value: self.can_edit_value,
            created_at: self.created_at,
            created_line: self.created_line,
            is_time_based: self.is_time_based,
        }
    }
}

/// The views of a sequence of lifetimes.
pub open spec fn lifetime_views<'a>(lifetimes: Seq<VariableLifetime<'a>>) -> Seq<LifetimeView> {
    Seq::new(lifetimes.len(), |i: int| lifetimes[i]@)
}

impl<'a> View for Variable<'a> {
    type V = VariableView;

    open spec fn view(&self) -> VariableView {
        VariableView {
            name: self.name@,
            lifetimes: lifetime_views(self.lifetimes@),
            prev_values: value_views(self.prev_values@),
        }
    }
}

impl<'a> View for Name<'a> {
    type V = NameView;

    open spec fn view(&self) -> NameView {
        NameView { name: self.name@, value: value_view(self.value) }
    }
}

impl<'a> View for NamespaceEntry<'a> {
    type V = EntryView;

    open spec fn view(&self) -> EntryView {
        match self {
            NamespaceEntry::Variable(v) => EntryView::Variable(v@),
            NamespaceEntry::Name(n) => EntryView::Name(n@),
        }
    }
}

/// The views of the entries of a namespace.
pub open spec fn binding_views<'a>(entries: Seq<(String, NamespaceEntry<'a>)>) -> NamespaceView {
    Seq::new(entries.len(), |i: int| (entries[i].0@, entries[i].1@))
}

impl<'a> View for Namespace<'a> {
    type V = NamespaceView;

    open spec fn view(&self) -> NamespaceView {
        binding_views(self.entries@)
    }
}

/// The duration that stands for a lifetime without an end.
pub open spec fn unending() -> u64 {
    u64::MAX
}

/// Whether a lifetime has ended at line `line` and second `now`. A lifetime whose
/// duration is the one that stands for no end never ends. Any other lifetime counted
/// in seconds ends when as many seconds as its duration have passed since it began;
/// one counted in lines ends at the line that is its duration after the line it
/// began at.
pub open spec fn expired(l: LifetimeView, line: u64, now: u64) -> bool {
    if l.duration == unending() {
        false
    } else if l.is_time_based {
        now >= l.created_at && now - l.created_at >= l.duration
    } else {
        line >= l.created_line + l.duration
    }
}

impl<'a> VariableLifetime<'a> {
    /// A lifetime counted in lines that began at line 0.
    pub fn new(
        value: DreamberdValue<'a>,
        duration: u64,
        confidence: i32,
        can_be_reset: bool,
        can_edit_value: bool,
    ) -> (l: Self)
        ensures
            l@ == (LifetimeView {
                value: value_view(value),
                duration,
                confidence,
                can_be_reset,
                can_edit_value,
                created_at: 0,
                created_line: 0,
                is_time_based: false,
            }),
    {
        VariableLifetime {
            value,
            duration,
            confidence,
            can_be_reset,
            can_edit_value,
            created_at: 0,
            created_line: 0,
            is_time_based: false,
        }
    }

    /// A lifetime that began at line `current_line` and second `created_at`.
    pub fn new_with_tracking(
        value: DreamberdValue<'a>,
        duration: u64,
        confidence: i32,
        can_be_reset: bool,
        can_edit_value: bool,
        current_line: u64,
        is_time_based: bool,
        created_at: u64,
    ) -> (l: Self)
        ensures
            l@ == (LifetimeView {
                value: value_view(value),
                duration,
                confidence,
                can_be_reset,
                can_edit_value,
                created_at,
                created_line: current_line,
                is_time_based,
            }),
    {
        VariableLifetime {
            value,
            duration,
            confidence,
            can_be_reset,
            can_edit_value,
            created_at,
            created_line: current_line,
            is_time_based,
        }
    }

    /// Whether the lifetime has ended at line `current_line` and second `now`.
    pub fn is_expired(&self, current_line: u64, now: u64) -> (r: bool)
        ensures
            r == expired(self@, current_line, now),
    {
        if self.duration == u64::MAX {
            false
        } else if self.is_time_based {
            now >= self.created_at && now - self.created_at >= self.duration
        } else {
            match self.created_line.checked_add(self.duration) {
                Some(end) => current_line >= end,
                None => false,
            }
        }
    }

    /// A copy of the lifetime.
    pub fn copy(&self) -> (l: Self)
        ensures
            l@ == self@,
    {
        VariableLifetime {
            value: copy_value(&self.value),
            duration: self.duration,
            confidence: self.confidence,
            can_be_reset: self.can_be_reset,
            can_edit_value: self.can_edit_value,
            created_at: self.created_at,
            created_line: self.created_line,
            is_time_based: self.is_time_based,
        }
    }
}

/// The value of a variable: that of its active lifetime.
pub open spec fn current_value(v: VariableView) -> Option<ValueView> {
    if v.lifetimes.len() > 0 {
        Some(v.lifetimes[0].value)
    } else {
        None
    }
}

/// A lifetime with another value.
pub open spec fn revalued(l: LifetimeView, value: ValueView) -> LifetimeView {
    LifetimeView { value, ..l }
}

/// Whether the value of a variable may be changed.
pub open spec fn editable(v: VariableView) -> bool {
    v.lifetimes.len() > 0 && v.lifetimes[0].can_edit_value
}

/// A variable after `value` was assigned to it: if its value may be changed, the
/// value it had goes to the end of its history and `value` takes its place; if not,
/// nothing changes.
pub open spec fn assigned(v: VariableView, value: ValueView) -> VariableView {
    if editable(v) {
        VariableView {
            lifetimes: v.lifetimes.update(0, revalued(v.lifetimes[0], value)),
            prev_values: v.prev_values.push(v.lifetimes[0].value),
            ..v
        }
    } else {
        v
    }
}

/// The value that a variable had `n` changes before the latest one.
pub open spec fn previous_value(v: VariableView, n: nat) -> Option<ValueView> {
    if n < v.prev_values.len() {
        Some(v.prev_values[v.prev_values.len() - 1 - n])
    } else {
        None
    }
}

/// A variable after its latest change was undone: the last value of its history is
/// taken off it and becomes the value of the variable. Without history nothing
/// changes.
pub open spec fn reverted(v: VariableView) -> VariableView {
    if v.prev_values.len() == 0 {
        v
    } else if v.lifetimes.len() == 0 {
        VariableView { prev_values: v.prev_values.drop_last(), ..v }
    } else {
        VariableView {
            lifetimes: v.lifetimes.update(0, revalued(v.lifetimes[0], v.prev_values.last())),
            prev_values: v.prev_values.drop_last(),
            ..v
        }
    }
}

impl<'a> Variable<'a> {
    /// A variable with one lifetime and no history.
    pub fn new(name: String, lifetime: VariableLifetime<'a>) -> (v: Self)
        ensures
            v@ == (VariableView {
                name: name@,
                lifetimes: seq![lifetime@],
                prev_values: Seq::empty(),
            }),
    {
        let mut lifetimes: Vec<VariableLifetime<'a>> = Vec::new();
        lifetimes.push(lifetime);
        let v = Variable { name, lifetimes, prev_values: Vec::new() };
        assert(v@.lifetimes =~= seq![lifetime@]);
        assert(v@.prev_values =~= Seq::empty());
        v
    }

    /// The value of the variable.
    pub fn value(&self) -> (r: Option<&DreamberdValue<'a>>)
        ensures
            match r {
                Some(v) => current_value(self@) == Some(value_view(*v)),
                None => current_value(self@) is None,
            },
    {
        if self.lifetimes.len() > 0 {
            Some(&self.lifetimes[0].value)
        } else {
            None
        }
    }

    /// Assigns `new_value`, if the value of the variable may be changed.
    pub fn set_value(&mut self, new_value: DreamberdValue<'a>)
        ensures
            final(self)@ == assigned(old(self)@, value_view(new_value)),
    {
        if self.lifetimes.len() > 0 && self.lifetimes[0].can_edit_value {
            let ghost before = self@;
            let old_value = copy_value(&self.lifetimes[0].value);
            self.prev_values.push(old_value);
            self.lifetimes[0].value = new_value;
            assert(self@.prev_values =~= before.prev_values.push(before.lifetimes[0].value));
            assert(self@.lifetimes =~= before.lifetimes.update(
                0,
                revalued(before.lifetimes[0], value_view(new_value)),
            ));
        }
    }

    /// The value that the variable had `index` changes before the latest one.
    pub fn get_previous(&self, index: usize) -> (r: Option<&DreamberdValue<'a>>)
        ensures
            match r {
                Some(v) => previous_value(self@, index as nat) == Some(value_view(*v)),
                None => previous_value(self@, index as nat) is None,
            },
    {
        if index < self.prev_values.len() {
            Some(&self.prev_values[self.prev_values.len() - 1 - index])
        } else {
            None
        }
    }

    /// The value of the variable.
    pub fn get_current(&self) -> (r: Option<&DreamberdValue<'a>>)
        ensures
            match r {
                Some(v) => current_value(self@) == Some(value_view(*v)),
                None => current_value(self@) is None,
            },
    {
        self.value()
    }

    /// Undoes the latest change of the variable, if it has a history.
    pub fn revert(&mut self)
        ensures
            final(self)@ == reverted(old(self)@),
    {
        let ghost before = self@;
        match self.prev_values.pop() {
            Some(prev) => {
                assert(self@.prev_values =~= before.prev_values.drop_last());
                if self.lifetimes.len() > 0 {
                    self.lifetimes[0].value = prev;
                    assert(self@.lifetimes =~= before.lifetimes.update(
                        0,
                        revalued(before.lifetimes[0], before.prev_values.last()),
                    ));
                }
            },
            None => {},
        }
    }
}

impl<'a> Name<'a> {
    pub fn new(name: String, value: DreamberdValue<'a>) -> (n: Self)
        ensures
            n@ == (NameView { name: name@, value: value_view(value) }),
    {
        Name { name, value }
    }
}

/// What a namespace holds under `key`.
pub open spec fn bound(ns: NamespaceView, key: Seq<char>) -> Option<EntryView> {
    let i = find_entry(ns, key, 0);
    if 0 <= i < ns.len() {
        Some(ns[i].1)
    } else {
        None
    }
}

/// A namespace without what it held under `key`.
pub open spec fn without(ns: NamespaceView, key: Seq<char>) -> NamespaceView {
    let i = find_entry(ns, key, 0);
    if 0 <= i < ns.len() {
        ns.remove(i)
    } else {
        ns
    }
}

/// Whether an entry stays at line `line` and second `now`: a name always does, a
/// variable unless its active lifetime has ended.
pub open spec fn lasting(e: EntryView, line: u64, now: u64) -> bool {
    match e {
        EntryView::Variable(v) => !(v.lifetimes.len() > 0 && expired(v.lifetimes[0], line, now)),
        EntryView::Name(_) => true,
    }
}

/// A namespace without the variables whose active lifetime has ended.
pub open spec fn swept(ns: NamespaceView, line: u64, now: u64) -> NamespaceView
    decreases ns.len(),
{
    if ns.len() == 0 {
        Seq::empty()
    } else if lasting(ns.last().1, line, now) {
        swept(ns.drop_last(), line, now).push(ns.last())
    } else {
        swept(ns.drop_last(), line, now)
    }
}

/// Whether a namespace binds `key` in some place.
pub open spec fn has_key(ns: NamespaceView, key: Seq<char>) -> bool {
    exists|i: int| 0 <= i < ns.len() && (#[trigger] ns[i]).0 == key
}

/// A sweep binds no identifier that was not bound before.
pub proof fn lemma_swept_keys(ns: NamespaceView, key: Seq<char>, line: u64, now: u64)
    requires
        !has_key(ns, key),
    ensures
        !has_key(swept(ns, line, now), key),
    decreases ns.len(),
{
    if ns.len() > 0 {
        let init = ns.drop_last();
        assert(!has_key(init, key)) by {
            if has_key(init, key) {
                let i = choose|i: int| 0 <= i < init.len() && (#[trigger] init[i]).0 == key;
                assert(ns[i].0 == key);
            }
        }
        lemma_swept_keys(init, key, line, now);
        let after = swept(ns, line, now);
        if has_key(after, key) {
            let i = choose|i: int| 0 <= i < after.len() && (#[trigger] after[i]).0 == key;
            if i < swept(init, line, now).len() {
                assert(swept(init, line, now)[i].0 == key);
            } else {
                assert(ns[ns.len() - 1].0 == key);
            }
        }
    }
}

/// A sweep keeps the identifiers of a namespace distinct.
pub proof fn lemma_swept_distinct(ns: NamespaceView, line: u64, now: u64)
    requires
        distinct_keys(ns),
    ensures
        distinct_keys(swept(ns, line, now)),
    decreases ns.len(),
{
    if ns.len() > 0 {
        let init = ns.drop_last();
        let last = ns.last();
        assert(distinct_keys(init)) by {
            assert forall|i: int, j: int| 0 <= i < j < init.len() implies init[i].0
                != init[j].0 by {
                assert(init[i] == ns[i]);
                assert(init[j] == ns[j]);
            }
        }
        lemma_swept_distinct(init, line, now);
        assert(!has_key(init, last.0)) by {
            if has_key(init, last.0) {
                let i = choose|i: int| 0 <= i < init.len() && (#[trigger] init[i]).0 == last.0;
                assert(ns[i].0 == ns[ns.len() - 1].0);
            }
        }
        lemma_swept_keys(init, last.0, line, now);
        let kept = swept(init, line, now);
        let after = swept(ns, line, now);
        assert forall|i: int, j: int| 0 <= i < j < after.len() implies after[i].0
            != after[j].0 by {
            if j < kept.len() {
                assert(after[i] == kept[i]);
                assert(after[j] == kept[j]);
            } else {
                assert(after[i] == kept[i]);
                assert(kept[i].0 != last.0);
            }
        }
    }
}

impl<'a> Namespace<'a> {
    /// Whether the namespace is as it should be: no identifier occurs twice.
    pub open spec fn wf(&self) -> bool {
        distinct_keys(self@)
    }

    /// An empty namespace.
    pub fn new() -> (ns: Self)
        ensures
            ns@ == Seq::<(Seq<char>, EntryView)>::empty(),
            ns.wf(),
    {
        let ns = Namespace { entries: Vec::new() };
        assert(ns@ =~= Seq::empty());
        ns
    }

    /// How many identifiers the namespace holds.
    pub fn len(&self) -> (n: usize)
        ensures
            n == self@.len(),
    {
        self.entries.len()
    }

    /// The place of `key` among the entries, or their number if it is not bound.
    pub fn position(&self, key: &str) -> (i: usize)
        ensures
            i == find_entry(self@, key@, 0),
            i <= self.entries.len(),
    {
        let mut i: usize = 0;
        while i < self.entries.len() && !same_text(self.entries[i].0.as_str(), key)
            invariant
                i <= self.entries.len(),
                find_entry(self@, key@, 0) == find_entry(self@, key@, i as int),
            decreases self.entries.len() - i,
        {
            i += 1;
        }
        i
    }

    /// Whether `key` is bound.
    pub fn contains_key(&self, key: &str) -> (r: bool)
        ensures
            r == (bound(self@, key@) is Some),
    {
        self.position(key) < self.entries.len()
    }

    /// What is bound to `key`.
    pub fn get(&self, key: &str) -> (r: Option<&NamespaceEntry<'a>>)
        ensures
            match r {
                Some(e) => bound(self@, key@) == Some(e@),
                None => bound(self@, key@) is None,
            },
    {
        let i = self.position(key);
        if i < self.entries.len() {
            Some(&self.entries[i].1)
        } else {
            None
        }
    }

    /// Binds `key` to `entry`: in the place of what it was bound to, or at the end.
    pub fn insert(&mut self, key: String, entry: NamespaceEntry<'a>)
        ensures
            final(self)@ == with_entry(old(self)@, key@, entry@),
            old(self).wf() ==> final(self).wf(),
    {
        let ghost before = self@;
        proof {
            if self.wf() {
                lemma_with_entry_distinct(before, key@, entry@);
            }
        }
        let i = self.position(key.as_str());
        if i < self.entries.len() {
            self.entries[i] = (key, entry);
            assert(self@ =~= before.update(i as int, (key@, entry@)));
        } else {
            self.entries.push((key, entry));
            assert(self@ =~= before.push((key@, entry@)));
        }
    }

    /// Takes out what is bound to `key`.
    pub fn remove(&mut self, key: &str) -> (r: Option<NamespaceEntry<'a>>)
        ensures
            final(self)@ == without(old(self)@, key@),
            match r {
                Some(e) => bound(old(self)@, key@) == Some(e@),
                None => bound(old(self)@, key@) is None,
            },
            old(self).wf() ==> final(self).wf(),
    {
        let ghost before = self@;
        let i = self.position(key);
        proof {
            if self.wf() && i < self.entries.len() {
                lemma_remove_distinct(before, i as int);
            }
        }
        if i < self.entries.len() {
            let removed = self.entries.remove(i);
            assert(self@ =~= before.remove(i as int));
            Some(removed.1)
        } else {
            None
        }
    }

    /// Takes out the variables whose active lifetime has ended at line `line` and
    /// second `now`.
    pub fn sweep(&mut self, line: u64, now: u64)
        ensures
            final(self)@ == swept(old(self)@, line, now),
            old(self).wf() ==> final(self).wf(),
    {
        let ghost before = self@;
        proof {
            if self.wf() {
                lemma_swept_distinct(before, line, now);
            }
        }
        let mut all: Vec<(String, NamespaceEntry<'a>)> = Vec::new();
        std::mem::swap(&mut self.entries, &mut all);
        let ghost original = all@;
        assert(binding_views(original) == before);
        assert(binding_views(original.take(0)) =~= Seq::empty());
        for pair in it: all
            invariant
                it.seq() == original,
                self@ == swept(binding_views(original.take(it.index() as int)), line, now),
        {
            proof {
                let k = it.index() as int;
                assert(original.take(k + 1).drop_last() =~= original.take(k));
                assert(binding_views(original.take(k + 1)).drop_last() =~= binding_views(
                    original.take(k),
                ));
                assert(binding_views(original.take(k + 1)).last() == (pair.0@, pair.1@));
            }
            let keep = match &pair.1 {
                NamespaceEntry::Variable(v) => !(v.lifetimes.len() > 0 && v.lifetimes[0].is_expired(
                    line,
                    now,
                )),
                NamespaceEntry::Name(_) => true,
            };
            if keep {
                let ghost kept_before = self@;
                self.entries.push(pair);
                assert(self@ =~= kept_before.push((pair.0@, pair.1@)));
            }
        }
        assert(original.take(original.len() as int) =~= original);
    }
}

impl<'a> Namespace<'a> {
    /// Assigns `value` to the variable in place `place`.
    pub fn assign_at(&mut self, place: usize, value: DreamberdValue<'a>)
        requires
            place < old(self).entries@.len(),
            old(self).entries@[place as int].1 is Variable,
        ensures
            final(self)@ == old(self)@.update(
                place as int,
                (
                    old(self)@[place as int].0,
                    EntryView::Variable(
                        assigned(old(self)@[place as int].1->Variable_0, value_view(value)),
                    ),
                ),
            ),
            old(self).wf() ==> final(self).wf(),
    {
        proof {
            if self.wf() {
                lemma_update_distinct(self@, place as int, self@[place as int].1);
                assert forall|v: EntryView| #![auto] distinct_keys(self@.update(place as int, (self@[place as int].0, v))) by {
                    lemma_update_distinct(self@, place as int, v);
                }
            }
        }
        let ghost before = self@;
        let (key, entry) = self.entries.remove(place);
        match entry {
            NamespaceEntry::Variable(mut var) => {
                var.set_value(value);
                self.entries.insert(place, (key, NamespaceEntry::Variable(var)));
                assert(self@ =~= before.update(
                    place as int,
                    (
                        before[place as int].0,
                        EntryView::Variable(
                            assigned(before[place as int].1->Variable_0, value_view(value)),
                        ),
                    ),
                ));
            },
            NamespaceEntry::Name(name) => {
                self.entries.insert(place, (key, NamespaceEntry::Name(name)));
            },
        }
    }

    /// Undoes the latest change of the variable in place `place`.
    pub fn revert_at(&mut self, place: usize)
        requires
            place < old(self).entries@.len(),
            old(self).entries@[place as int].1 is Variable,
        ensures
            final(self)@ == old(self)@.update(
                place as int,
                (
                    old(self)@[place as int].0,
                    EntryView::Variable(reverted(old(self)@[place as int].1->Variable_0)),
                ),
            ),
            old(self).wf() ==> final(self).wf(),
    {
        proof {
            if self.wf() {
                lemma_update_distinct(self@, place as int, self@[place as int].1);
                assert forall|v: EntryView| #![auto] distinct_keys(self@.update(place as int, (self@[place as int].0, v))) by {
                    lemma_update_distinct(self@, place as int, v);
                }
            }
        }
        let ghost before = self@;
        let (key, entry) = self.entries.remove(place);
        match entry {
            NamespaceEntry::Variable(mut var) => {
                var.revert();
                self.entries.insert(place, (key, NamespaceEntry::Variable(var)));
                assert(self@ =~= before.update(
                    place as int,
                    (
                        before[place as int].0,
                        EntryView::Variable(reverted(before[place as int].1->Variable_0)),
                    ),
                ));
            },
            NamespaceEntry::Name(name) => {
                self.entries.insert(place, (key, NamespaceEntry::Name(name)));
            },
        }
    }

    /// Gives the name in place `place` the value `value`.
    pub fn rename_at(&mut self, place: usize, value: DreamberdValue<'a>)
        requires
            place < old(self).entries@.len(),
            old(self).entries@[place as int].1 is Name,
        ensures
            final(self)@ == old(self)@.update(
                place as int,
                (
                    old(self)@[place as int].0,
                    EntryView::Name(
                        NameView {
                            name: old(self)@[place as int].1->Name_0.name,
                            value: value_view(value),
                        },
                    ),
                ),
            ),
            old(self).wf() ==> final(self).wf(),
    {
        proof {
            if self.wf() {
                lemma_update_distinct(self@, place as int, self@[place as int].1);
                assert forall|v: EntryView| #![auto] distinct_keys(self@.update(place as int, (self@[place as int].0, v))) by {
                    lemma_update_distinct(self@, place as int, v);
                }
            }
        }
        let ghost before = self@;
        let (key, entry) = self.entries.remove(place);
        match entry {
            NamespaceEntry::Variable(var) => {
                self.entries.insert(place, (key, NamespaceEntry::Variable(var)));
            },
            NamespaceEntry::Name(name) => {
                self.entries.insert(
                    place,
                    (key, NamespaceEntry::Name(Name { name: name.name, value })),
                );
                assert(self@ =~= before.update(
                    place as int,
                    (
                        before[place as int].0,
                        EntryView::Name(
                            NameView {
                                name: before[place as int].1->Name_0.name,
                                value: value_view(value),
                            },
                        ),
                    ),
                ));
            },
        }
    }
}

/// Whether a binding is a variable whose value is a list.
pub open spec fn holds_list(e: EntryView) -> bool {
    e is Variable && e->Variable_0.lifetimes.len() > 0 && e->Variable_0.lifetimes[0].value is List
}

/// A variable whose value is a list, after `value` was put into the list under `key`.
pub open spec fn list_extended(v: VariableView, key: ListKey, floor: i64, value: ValueView) -> VariableView {
    let list = v.lifetimes[0].value;
    let after = list_insert(list->List_values, list->List_indexer, key, floor, value);
    VariableView {
        lifetimes: v.lifetimes.update(
            0,
            revalued(v.lifetimes[0], ValueView::List { values: after.0, indexer: after.1 }),
        ),
        ..v
    }
}

/// A variable whose value is a list, after the item in place `place` became `value`.
pub open spec fn item_set(v: VariableView, place: int, value: ValueView) -> VariableView {
    let list = v.lifetimes[0].value;
    VariableView {
        lifetimes: v.lifetimes.update(
            0,
            revalued(
                v.lifetimes[0],
                ValueView::List {
                    values: list->List_values.update(place, value),
                    indexer: list->List_indexer,
                },
            ),
        ),
        ..v
    }
}

impl<'a> Variable<'a> {
    /// Whether the value of the variable is a list, and how many items it has.
    pub fn list_length(&self) -> (r: Option<usize>)
        ensures
            match r {
                Some(n) => holds_list(EntryView::Variable(self@)) && n
                    == self@.lifetimes[0].value->List_values.len(),
                None => !holds_list(EntryView::Variable(self@)),
            },
    {
        if self.lifetimes.len() > 0 {
            match &self.lifetimes[0].value {
                DreamberdValue::List(list) => {
                    assert(value_views(list.values@).len() == list.values@.len());
                    Some(list.values.len())
                },
                _ => None,
            }
        } else {
            None
        }
    }

    /// Puts `value` into the list that is the value of the variable, under `key`.
    pub fn extend_list(&mut self, key: ListKey, floor: i64, value: DreamberdValue<'a>)
        requires
            holds_list(EntryView::Variable(old(self)@)),
        ensures
            final(self)@ == list_extended(old(self)@, key, floor, value_view(value)),
    {
        let ghost before = self@;
        let lifetime = self.lifetimes.remove(0);
        let VariableLifetime {
            value: held,
            duration,
            confidence,
            can_be_reset,
            can_edit_value,
            created_at,
            created_line,
            is_time_based,
        } = lifetime;
        let new_value = match held {
            DreamberdValue::List(mut list) => {
                list.insert_at(key, floor, value);
                DreamberdValue::List(list)
            },
            other => other,
        };
        self.lifetimes.insert(
            0,
            VariableLifetime {
                value: new_value,
                duration,
                confidence,
                can_be_reset,
                can_edit_value,
                created_at,
                created_line,
                is_time_based,
            },
        );
        assert(self@.lifetimes =~= list_extended(
            before,
            key,
            floor,
            value_view(value),
        ).lifetimes);
    }

    /// Makes `value` the item in place `place` of the list that is the value of the
    /// variable.
    pub fn set_item(&mut self, place: usize, value: DreamberdValue<'a>)
        requires
            holds_list(EntryView::Variable(old(self)@)),
            place < old(self)@.lifetimes[0].value->List_values.len(),
        ensures
            final(self)@ == item_set(old(self)@, place as int, value_view(value)),
    {
        let ghost before = self@;
        let lifetime = self.lifetimes.remove(0);
        let VariableLifetime {
            value: held,
            duration,
            confidence,
            can_be_reset,
            can_edit_value,
            created_at,
            created_line,
            is_time_based,
        } = lifetime;
        let new_value = match held {
            DreamberdValue::List(mut list) => {
                let ghost items = value_views(list.values@);
                assert(items.len() == list.values@.len());
                list.values[place] = value;
                assert(value_views(list.values@) =~= items.update(place as int, value_view(value)));
                DreamberdValue::List(list)
            },
            other => other,
        };
        self.lifetimes.insert(
            0,
            VariableLifetime {
                value: new_value,
                duration,
                confidence,
                can_be_reset,
                can_edit_value,
                created_at,
                created_line,
                is_time_based,
            },
        );
        assert(self@.lifetimes =~= item_set(before, place as int, value_view(value)).lifetimes);
    }
}

impl<'a> Namespace<'a> {
    /// Puts `value` into the list of the variable in place `place`, under `key`.
    pub fn extend_list_at(
        &mut self,
        place: usize,
        key: ListKey,
        floor: i64,
        value: DreamberdValue<'a>,
    )
        requires
            place < old(self).entries@.len(),
            holds_list(old(self)@[place as int].1),
        ensures
            final(self)@ == old(self)@.update(
                place as int,
                (
                    old(self)@[place as int].0,
                    EntryView::Variable(
                        list_extended(
                            old(self)@[place as int].1->Variable_0,
                            key,
                            floor,
                            value_view(value),
                        ),
                    ),
                ),
            ),
            old(self).wf() ==> final(self).wf(),
    {
        proof {
            if self.wf() {
                lemma_update_distinct(self@, place as int, self@[place as int].1);
                assert forall|v: EntryView| #![auto] distinct_keys(self@.update(place as int, (self@[place as int].0, v))) by {
                    lemma_update_distinct(self@, place as int, v);
                }
            }
        }
        let ghost before = self@;
        let (name, entry) = self.entries.remove(place);
        match entry {
            NamespaceEntry::Variable(mut var) => {
                var.extend_list(key, floor, value);
                self.entries.insert(place, (name, NamespaceEntry::Variable(var)));
                assert(self@ =~= before.update(
                    place as int,
                    (
                        before[place as int].0,
                        EntryView::Variable(
                            list_extended(
                                before[place as int].1->Variable_0,
                                key,
                                floor,
                                value_view(value),
                            ),
                        ),
                    ),
                ));
            },
            NamespaceEntry::Name(n) => {
                self.entries.insert(place, (name, NamespaceEntry::Name(n)));
            },
        }
    }

    /// Makes `value` the item in place `item` of the list of the variable in place
    /// `place`.
    pub fn set_item_at(&mut self, place: usize, item: usize, value: DreamberdValue<'a>)
        requires
            place < old(self).entries@.len(),
            holds_list(old(self)@[place as int].1),
            item < old(self)@[place as int].1->Variable_0.lifetimes[0].value->List_values.len(),
        ensures
            final(self)@ == old(self)@.update(
                place as int,
                (
                    old(self)@[place as int].0,
                    EntryView::Variable(
                        item_set(
                            old(self)@[place as int].1->Variable_0,
                            item as int,
                            value_view(value),
                        ),
                    ),
                ),
            ),
            old(self).wf() ==> final(self).wf(),
    {
        proof {
            if self.wf() {
                lemma_update_distinct(self@, place as int, self@[place as int].1);
                assert forall|v: EntryView| #![auto] distinct_keys(self@.update(place as int, (self@[place as int].0, v))) by {
                    lemma_update_distinct(self@, place as int, v);
                }
            }
        }
        let ghost before = self@;
        let (name, entry) = self.entries.remove(place);
        match entry {
            NamespaceEntry::Variable(mut var) => {
                var.set_item(item, value);
                self.entries.insert(place, (name, NamespaceEntry::Variable(var)));
                assert(self@ =~= before.update(
                    place as int,
                    (
                        before[place as int].0,
                        EntryView::Variable(
                            item_set(
                                before[place as int].1->Variable_0,
                                item as int,
                                value_view(value),
                            ),
                        ),
                    ),
                ));
            },
            NamespaceEntry::Name(n) => {
                self.entries.insert(place, (name, NamespaceEntry::Name(n)));
            },
        }
    }
}

} // verus!
