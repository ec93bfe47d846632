//! Aliases of keywords: other spellings that a program may give to the keywords of
//! the language, mapped back before parsing.

use crate::base::{Token, TokenType, TokenView};
use crate::processor::expression_tree::views_of;
use crate::builtin::{distinct_keys, lemma_remove_distinct};
use crate::text::{chars_of, same_text};
use vstd::prelude::*;

verus! {

/// Whether a text is a keyword that may be given an alias.
pub open spec fn is_canonical(s: Seq<char>) -> bool {
    s == "function"@ || s == "func"@ || s == "fun"@ || s == "fn"@ || s == "if"@ || s == "when"@
        || s == "after"@ || s == "class"@ || s == "return"@ || s == "delete"@ || s == "export"@
        || s == "import"@ || s == "reverse"@ || s == "var"@ || s == "const"@
}

/// Whether a text is a keyword that may be given an alias.
pub fn canonical_keyword(s: &str) -> (r: bool)
    ensures
        r == is_canonical(s@),
{
    same_text(s, "function") || same_text(s, "func") || same_text(s, "fun") || same_text(s, "fn")
        || same_text(s, "if") || same_text(s, "when") || same_text(s, "after") || same_text(
        s,
        "class",
    ) || same_text(s, "return") || same_text(s, "delete") || same_text(s, "export") || same_text(
        s,
        "import",
    ) || same_text(s, "reverse") || same_text(s, "var") || same_text(s, "const")
}

/// An ASCII letter.
pub open spec fn is_letter(c: char) -> bool {
    (65 <= c as u32 <= 90) || (97 <= c as u32 <= 122)
}

/// Whether a text can be an alias: one to 32 ASCII letters.
pub open spec fn well_spelled(s: Seq<char>) -> bool {
    1 <= s.len() <= 32 && forall|i: int| 0 <= i < s.len() ==> is_letter(#[trigger] s[i])
}

fn spelled_well(s: &str) -> (r: bool)
    ensures
        r == well_spelled(s@),
{
    let chars = chars_of(s);
    if chars.len() == 0 || chars.len() > 32 {
        return false;
    }
    let mut i: usize = 0;
    while i < chars.len()
        invariant
            i <= chars.len(),
            chars@ == s@,
            forall|j: int| 0 <= j < i ==> is_letter(#[trigger] chars@[j]),
        decreases chars.len() - i,
    {
        let n = chars[i] as u32;
        if !((65 <= n && n <= 90) || (97 <= n && n <= 122)) {
            return false;
        }
        i += 1;
    }
    true
}

/// The aliases in use: each with the keyword it stands for.
pub type AliasView = Seq<(Seq<char>, Seq<char>)>;

/// The first place at or after `from` where `table` has the alias `name`, or its length.
pub open spec fn find_alias(table: AliasView, name: Seq<char>, from: int) -> int
    decreases table.len() - from,
{
    if 0 <= from < table.len() && table[from].0 != name {
        find_alias(table, name, from + 1)
    } else {
        from
    }
}

/// The keyword that `name` stands for, if it is an alias.
pub open spec fn aliased(table: AliasView, name: Seq<char>) -> Option<Seq<char>> {
    let i = find_alias(table, name, 0);
    if 0 <= i < table.len() {
        Some(table[i].1)
    } else {
        None
    }
}

/// Whether some alias of `table` stands for `keyword`.
pub open spec fn stands_for(table: AliasView, keyword: Seq<char>) -> bool {
    exists|i: int| 0 <= i < table.len() && (#[trigger] table[i]).1 == keyword
}

/// Whether `new_name` may become an alias of `original`: `original` is a keyword that
/// may be given one; `new_name` is one to 32 ASCII letters, is no such keyword itself,
/// is not yet an alias, and no alias stands for it.
pub open spec fn admissible(table: AliasView, original: Seq<char>, new_name: Seq<char>) -> bool {
    is_canonical(original) && well_spelled(new_name) && !is_canonical(new_name) && aliased(
        table,
        new_name,
    ) is None && !stands_for(table, new_name)
}

/// A token after its alias was mapped back: a name that is an alias gets the keyword
/// as its text; any other token stays as it is.
pub open spec fn canonical_token(table: AliasView, t: TokenView) -> TokenView {
    if t.token_type == TokenType::Name {
        match aliased(table, t.value) {
            Some(keyword) => TokenView { value: keyword, ..t },
            None => t,
        }
    } else {
        t
    }
}

/// The aliases of keywords.
#[derive(Debug, PartialEq, Eq)]
pub struct AliasTable {
    pub entries: Vec<(String, String)>,
}

/// The texts of the entries of a table.
pub open spec fn alias_views(entries: Seq<(String, String)>) -> AliasView {
    Seq::new(entries.len(), |i: int| (entries[i].0@, entries[i].1@))
}

impl View for AliasTable {
    type V = AliasView;

    open spec fn view(&self) -> AliasView {
        alias_views(self.entries@)
    }
}

/// What `find_alias` finds: the first place at or after `from` with the alias.
pub proof fn lemma_find_alias(table: AliasView, name: Seq<char>, from: int)
    requires
        0 <= from <= table.len(),
    ensures
        from <= find_alias(table, name, from) <= table.len(),
        find_alias(table, name, from) < table.len() ==> table[find_alias(table, name, from)].0
            == name,
        forall|j: int| from <= j < find_alias(table, name, from) ==> table[j].0 != name,
    decreases table.len() - from,
{
    if from < table.len() && table[from].0 != name {
        lemma_find_alias(table, name, from + 1);
    }
}

impl AliasTable {
    /// Whether the table is as it should be: no alias occurs twice.
    pub open spec fn wf(&self) -> bool {
        distinct_keys(self@)
    }

    /// A table without aliases.
    pub fn new() -> (t: Self)
        ensures
            t@ == Seq::<(Seq<char>, Seq<char>)>::empty(),
            t.wf(),
    {
        let t = AliasTable { entries: Vec::new() };
        assert(t@ =~= Seq::empty());
        t
    }

    fn position(&self, name: &str) -> (i: usize)
        ensures
            i == find_alias(self@, name@, 0),
            i <= self.entries.len(),
    {
        let mut i: usize = 0;
        while i < self.entries.len() && !same_text(self.entries[i].0.as_str(), name)
            invariant
                i <= self.entries.len(),
                find_alias(self@, name@, 0) == find_alias(self@, name@, i as int),
            decreases self.entries.len() - i,
        {
            i += 1;
        }
        i
    }

    fn is_target(&self, keyword: &str) -> (r: bool)
        ensures
            r == stands_for(self@, keyword@),
    {
        let mut i: usize = 0;
        while i < self.entries.len()
            invariant
                i <= self.entries.len(),
                forall|j: int| 0 <= j < i ==> (#[trigger] self@[j]).1 != keyword@,
            decreases self.entries.len() - i,
        {
            if same_text(self.entries[i].1.as_str(), keyword) {
                assert(self@[i as int].1 == keyword@);
                return true;
            }
            i += 1;
        }
        false
    }
}

/// Makes `new_name` an alias of the keyword `original`, and says whether it did.
/// A name that may not become an alias changes nothing.
pub fn alias(table: &mut AliasTable, original: &str, new_name: &str) -> (r: bool)
    ensures
        r == admissible(old(table)@, original@, new_name@),
        r ==> final(table)@ == old(table)@.push((new_name@, original@)),
        !r ==> final(table)@ == old(table)@,
        old(table).wf() ==> final(table).wf(),
{
    if !canonical_keyword(original) {
        return false;
    }
    if !spelled_well(new_name) {
        return false;
    }
    if canonical_keyword(new_name) {
        return false;
    }
    if table.position(new_name) < table.entries.len() {
        return false;
    }
    if table.is_target(new_name) {
        return false;
    }
    let ghost before = table@;
    table.entries.push((String::from_str(new_name), String::from_str(original)));
    assert(table@ =~= before.push((new_name@, original@)));
    proof {
        lemma_find_alias(before, new_name@, 0);
        if distinct_keys(before) {
            assert forall|i: int, j: int| 0 <= i < j < table@.len() implies table@[i].0
                != table@[j].0 by {
                if j < before.len() {
                    assert(table@[i] == before[i]);
                    assert(table@[j] == before[j]);
                } else {
                    assert(table@[i] == before[i]);
                }
            }
        }
    }
    true
}

/// Takes the alias `name` out of the table, and says whether it was in it.
pub fn unalias(table: &mut AliasTable, name: &str) -> (r: bool)
    ensures
        r == (aliased(old(table)@, name@) is Some),
        r ==> final(table)@ == old(table)@.remove(find_alias(old(table)@, name@, 0)),
        !r ==> final(table)@ == old(table)@,
        old(table).wf() ==> final(table).wf(),
{
    let ghost before = table@;
    let i = table.position(name);
    proof {
        if distinct_keys(before) && i < before.len() {
            lemma_remove_distinct(before, i as int);
        }
    }
    if i < table.entries.len() {
        table.entries.remove(i);
        assert(table@ =~= before.remove(i as int));
        true
    } else {
        false
    }
}

/// The aliases, each with the keyword it stands for.
pub fn list_aliases(table: &AliasTable) -> (r: Vec<(String, String)>)
    ensures
        alias_views(r@) == table@,
{
    let mut r: Vec<(String, String)> = Vec::new();
    let mut i: usize = 0;
    while i < table.entries.len()
        invariant
            i <= table.entries.len(),
            r@.len() == i,
            forall|j: int|
                0 <= j < i ==> r@[j].0@ == table.entries@[j].0@ && r@[j].1@
                    == table.entries@[j].1@,
        decreases table.entries.len() - i,
    {
        r.push((table.entries[i].0.clone(), table.entries[i].1.clone()));
        i += 1;
    }
    assert(alias_views(r@) =~= table@);
    r
}

/// Maps aliases back: every name among `tokens` that is an alias gets the keyword
/// it stands for as its text.
pub fn canonicalize_tokens(table: &AliasTable, tokens: &mut Vec<Token>)
    ensures
        final(tokens)@.len() == old(tokens)@.len(),
        forall|i: int|
            0 <= i < old(tokens)@.len() ==> (#[trigger] final(tokens)@[i])@ == canonical_token(
                table@,
                old(tokens)@[i]@,
            ),
{
    let mut i: usize = 0;
    while i < tokens.len()
        invariant
            i <= tokens.len(),
            tokens@.len() == old(tokens)@.len(),
            forall|j: int|
                0 <= j < i ==> (#[trigger] tokens@[j])@ == canonical_token(
                    table@,
                    old(tokens)@[j]@,
                ),
            forall|j: int| i <= j < tokens.len() ==> tokens@[j] == old(tokens)@[j],
        decreases tokens.len() - i,
    {
        if tokens[i].token_type == TokenType::Name {
            let at = table.position(tokens[i].value.as_str());
            if at < table.entries.len() {
                tokens[i].value = table.entries[at].1.clone();
            }
        }
        i += 1;
    }
}

impl Clone for AliasTable {
    fn clone(&self) -> (r: Self)
        ensures
            r@ == self@,
    {
        AliasTable { entries: list_aliases(self) }
    }
}

} // verus!
