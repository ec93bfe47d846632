//! The rules of the language that need no state: how a lifetime is written, what the
//! modifiers of a declaration mean, what operators and indexing yield.

use crate::base::OperatorType;
use crate::binding::VariableLifetime;
use crate::builtin::{alike, db_not, db_to_boolean, list_get, negated, truth_of, value_view,
    value_views, values_equal, copy_value, DreamberdBoolean, DreamberdString, DreamberdUndefined,
    DreamberdValue, ListKey, ValueView};
use crate::number::{less, less_equal, number_less, number_less_equal, zero, Arithmetic,
    ArithmeticOperator, DreamberdNumber, IndexParts, is_zero};
use crate::processor::lexer::is_digit;
use crate::processor::syntax_tree::texts;
use crate::scope::LASTING;
use crate::text::{append_text, chars_of, same_text};
use vstd::prelude::*;

verus! {

/// The number that a sequence of digits writes.
pub open spec fn digits_value(s: Seq<char>) -> nat
    decreases s.len(),
{
    if s.len() == 0 {
        0
    } else {
        digits_value(s.drop_last()) * 10 + (s.last() as u32 - 48) as nat
    }
}

/// Whether all characters are digits.
pub open spec fn all_digits(s: Seq<char>) -> bool {
    forall|i: int| 0 <= i < s.len() ==> is_digit(#[trigger] s[i])
}

/// A numeral without its plus sign, if it has one.
pub open spec fn unsigned_part(s: Seq<char>) -> Seq<char> {
    if s.len() > 0 && s[0] == '+' {
        s.skip(1)
    } else {
        s
    }
}

/// The whole number that a text writes: digits, a plus sign before them if any, and a
/// value that fits 64 bits.
pub open spec fn natural_of(s: Seq<char>) -> Option<u64> {
    let body = unsigned_part(s);
    if body.len() > 0 && all_digits(body) && digits_value(body) <= u64::MAX {
        Some(digits_value(body) as u64)
    } else {
        None
    }
}

proof fn lemma_digits_grow(s: Seq<char>, n: int)
    requires
        0 <= n < s.len(),
    ensures
        digits_value(s.take(n + 1)) == digits_value(s.take(n)) * 10 + (s[n] as u32 - 48) as nat,
{
    assert(s.take(n + 1).drop_last() =~= s.take(n));
}

proof fn lemma_digits_monotone(s: Seq<char>, n: int, m: int)
    requires
        0 <= n <= m <= s.len(),
    ensures
        digits_value(s.take(n)) <= digits_value(s.take(m)),
    decreases m - n,
{
    if n < m {
        lemma_digits_grow(s, m - 1);
        lemma_digits_monotone(s, n, m - 1);
        assert(digits_value(s.take(m - 1)) * 10 >= digits_value(s.take(m - 1))) by (nonlinear_arith);
    }
}

/// Reads a whole number.
#[verifier::loop_isolation(false)]
pub fn parse_natural(text: &str) -> (r: Option<u64>)
    ensures
        r == natural_of(text@),
{
    let all = chars_of(text);
    let start: usize = if all.len() > 0 && all[0] == '+' {
        1
    } else {
        0
    };
    let ghost body = unsigned_part(text@);
    assert(body =~= all@.skip(start as int));
    if start >= all.len() {
        return None;
    }
    let mut value: u64 = 0;
    let mut i: usize = start;
    assert(body.take(0).len() == 0);
    while i < all.len()
        invariant
            start <= i <= all.len(),
            body == all@.skip(start as int),
            body.len() == all.len() - start,
            forall|j: int| 0 <= j < i - start ==> is_digit(#[trigger] body[j]),
            value == digits_value(body.take(i - start)),
        decreases all.len() - i,
    {
        let c = all[i];
        let n = c as u32;
        assert(body[i - start] == c);
        if !(48 <= n && n <= 57) {
            assert(!is_digit(body[i - start]));
            return None;
        }
        let digit = (n - 48) as u64;
        proof {
            lemma_digits_grow(body, i - start);
            lemma_digits_monotone(body, i - start + 1, body.len() as int);
            assert(body.take(body.len() as int) =~= body);
        }
        let scaled = match value.checked_mul(10) {
            Some(v) => v,
            None => {
                proof {
                    lemma_overflow_stays(body, i - start, body.len() as int);
                    assert(body.take(body.len() as int) =~= body);
                }
                return None;
            },
        };
        value = match scaled.checked_add(digit) {
            Some(v) => v,
            None => {
                proof {
                    lemma_overflow_stays(body, i - start, body.len() as int);
                    assert(body.take(body.len() as int) =~= body);
                }
                return None;
            },
        };
        i += 1;
    }
    assert(body.take(body.len() as int) =~= body);
    Some(value)
}

proof fn lemma_overflow_stays(s: Seq<char>, n: int, m: int)
    requires
        0 <= n < m <= s.len(),
        forall|j: int| 0 <= j <= n ==> is_digit(#[trigger] s[j]),
        digits_value(s.take(n)) * 10 + (s[n] as u32 - 48) as nat > u64::MAX,
    ensures
        !all_digits(s.take(m)) || digits_value(s.take(m)) > u64::MAX,
{
    lemma_digits_grow(s, n);
    lemma_digits_monotone(s, n + 1, m);
}

/// A text without the letters `s` at its end.
pub open spec fn without_seconds_mark(s: Seq<char>) -> Seq<char>
    decreases s.len(),
{
    if s.len() > 0 && s.last() == 's' {
        without_seconds_mark(s.drop_last())
    } else {
        s
    }
}

/// Whether the lifetime of a declaration is counted in seconds: it is written with an
/// `s` at its end.
pub open spec fn counted_in_seconds(lifetime: Option<Seq<char>>) -> bool {
    match lifetime {
        Some(t) => t.len() > 0 && t.last() == 's',
        None => false,
    }
}

/// The duration that the lifetime of a declaration writes. Without one, with
/// `Infinity`, and with a text that is no whole number it is the duration that
/// stands for no end: the binding never expires.
pub open spec fn duration_of(lifetime: Option<Seq<char>>) -> u64 {
    match lifetime {
        None => LASTING,
        Some(t) => if t == "Infinity"@ {
            LASTING
        } else {
            match natural_of(
                if counted_in_seconds(lifetime) {
                    without_seconds_mark(t)
                } else {
                    t
                },
            ) {
                Some(n) => n,
                None => LASTING,
            }
        },
    }
}

/// Reads the lifetime of a declaration: its duration, and whether it is counted in
/// seconds.
pub fn read_lifetime(lifetime: &Option<String>) -> (r: (u64, bool))
    ensures
        r.0 == duration_of(
            match *lifetime {
                Some(t) => Some(t@),
                None => None,
            },
        ),
        r.1 == counted_in_seconds(
            match *lifetime {
                Some(t) => Some(t@),
                None => None,
            },
        ),
{
    match lifetime {
        None => (LASTING, false),
        Some(text) => {
            let chars = chars_of(text.as_str());
            let timed = chars.len() > 0 && chars[chars.len() - 1] == 's';
            if same_text(text.as_str(), "Infinity") {
                proof {
                    reveal_strlit("Infinity");
                }
                return (LASTING, timed);
            }
            let mut end: usize = chars.len();
            assert(chars@.take(end as int) =~= chars@);
            if timed {
                while end > 0 && chars[end - 1] == 's'
                    invariant
                        end <= chars.len(),
                        without_seconds_mark(chars@) == without_seconds_mark(
                            chars@.take(end as int),
                        ),
                    decreases end,
                {
                    proof {
                        assert(chars@.take(end as int).drop_last() =~= chars@.take(end - 1));
                    }
                    end -= 1;
                }
            }
            let slice = crate::text::text_of(&chars, 0, end);
            proof {
                assert(chars@.subrange(0, end as int) =~= chars@.take(end as int));
                if !timed {
                    assert(chars@.take(end as int) =~= chars@);
                } else if end > 0 {
                    assert(chars@.take(end as int).last() == chars@[end - 1]);
                }
            }
            match parse_natural(slice.as_str()) {
                Some(n) => (n, timed),
                None => (LASTING, timed),
            }
        },
    }
}

/// Whether `word` is among `modifiers`.
pub open spec fn mentions(modifiers: Seq<Seq<char>>, word: Seq<char>) -> bool {
    exists|i: int| 0 <= i < modifiers.len() && #[trigger] modifiers[i] == word
}

/// Whether the modifiers declare a binding for all later runs: three or more, and
/// each of them `const`.
pub open spec fn declares_global(modifiers: Seq<Seq<char>>) -> bool {
    modifiers.len() >= 3 && forall|i: int|
        0 <= i < modifiers.len() ==> #[trigger] modifiers[i] == "const"@
}

/// Whether `word` is among `modifiers`.
pub fn has_modifier(modifiers: &Vec<String>, word: &str) -> (r: bool)
    ensures
        r == mentions(texts(modifiers@), word@),
{
    let mut i: usize = 0;
    while i < modifiers.len()
        invariant
            i <= modifiers.len(),
            forall|j: int| 0 <= j < i ==> #[trigger] texts(modifiers@)[j] != word@,
        decreases modifiers.len() - i,
    {
        if same_text(modifiers[i].as_str(), word) {
            assert(texts(modifiers@)[i as int] == word@);
            return true;
        }
        i += 1;
    }
    false
}

/// Whether the modifiers declare a binding for all later runs.
pub fn is_global_declaration(modifiers: &Vec<String>) -> (r: bool)
    ensures
        r == declares_global(texts(modifiers@)),
{
    if modifiers.len() < 3 {
        return false;
    }
    let mut i: usize = 0;
    while i < modifiers.len()
        invariant
            i <= modifiers.len(),
            forall|j: int| 0 <= j < i ==> #[trigger] texts(modifiers@)[j] == "const"@,
        decreases modifiers.len() - i,
    {
        if !same_text(modifiers[i].as_str(), "const") {
            assert(texts(modifiers@)[i as int] != "const"@);
            return false;
        }
        i += 1;
    }
    true
}

/// The arithmetic operation that an operator asks for, if it asks for one.
pub open spec fn arithmetic_of(op: OperatorType) -> Option<ArithmeticOperator> {
    match op {
        OperatorType::Add => Some(ArithmeticOperator::Add),
        OperatorType::Sub => Some(ArithmeticOperator::Subtract),
        OperatorType::Mul => Some(ArithmeticOperator::Multiply),
        OperatorType::Div => Some(ArithmeticOperator::Divide),
        OperatorType::Exp => Some(ArithmeticOperator::Power),
        _ => None,
    }
}

/// Whether an operator on two values is a matter of arithmetic: both are numbers, the
/// operator is one of `+ - * / ^`, and a division is not by zero.
pub open spec fn needs_arithmetic(op: OperatorType, left: ValueView, right: ValueView) -> bool {
    left is Number && right is Number && arithmetic_of(op) is Some && !(op == OperatorType::Div
        && is_zero(right->Number_0))
}

/// The truth value of `l` and `r` combined by `and` or `or`; maybe if either is maybe.
pub open spec fn combined(l: Option<bool>, r: Option<bool>, both: bool) -> Option<bool> {
    match (l, r) {
        (Some(a), Some(b)) => Some(
            if both {
                a && b
            } else {
                a || b
            },
        ),
        _ => None,
    }
}

/// What a comparison of two values yields: for two numbers the comparison of what
/// they stand for, for anything else maybe.
pub open spec fn compared(op: OperatorType, left: ValueView, right: ValueView) -> Option<bool> {
    if left is Number && right is Number {
        let l = left->Number_0;
        let r = right->Number_0;
        match op {
            OperatorType::Lt => Some(number_less(l, r)),
            OperatorType::Le => Some(number_less_equal(l, r)),
            OperatorType::Gt => Some(number_less(r, l)),
            _ => Some(number_less_equal(r, l)),
        }
    } else {
        None
    }
}

/// What an operator yields on two values, where that is no matter of arithmetic.
/// `+` joins two texts; division by zero is undefined; the equality operators compare
/// as `alike` says; comparisons yield a truth value for numbers and maybe otherwise;
/// `&` and `|` combine truth values; anything else is undefined.
pub open spec fn binary_value(op: OperatorType, left: ValueView, right: ValueView) -> ValueView {
    match op {
        OperatorType::Add => if left is String && right is String {
            ValueView::String(left->String_0 + right->String_0)
        } else {
            ValueView::Undefined
        },
        OperatorType::E | OperatorType::Ee | OperatorType::Eee | OperatorType::Eeee => {
            ValueView::Boolean(Some(alike(left, right)))
        },
        OperatorType::Ne | OperatorType::Nee | OperatorType::Neee => ValueView::Boolean(
            Some(!alike(left, right)),
        ),
        OperatorType::Lt | OperatorType::Le | OperatorType::Gt | OperatorType::Ge => {
            ValueView::Boolean(compared(op, left, right))
        },
        OperatorType::And => ValueView::Boolean(
            combined(truth_of(left), truth_of(right), true),
        ),
        OperatorType::Or => ValueView::Boolean(
            combined(truth_of(left), truth_of(right), false),
        ),
        _ => ValueView::Undefined,
    }
}

fn arithmetic_operator(op: OperatorType) -> (r: Option<ArithmeticOperator>)
    ensures
        r == arithmetic_of(op),
{
    match op {
        OperatorType::Add => Some(ArithmeticOperator::Add),
        OperatorType::Sub => Some(ArithmeticOperator::Subtract),
        OperatorType::Mul => Some(ArithmeticOperator::Multiply),
        OperatorType::Div => Some(ArithmeticOperator::Divide),
        OperatorType::Exp => Some(ArithmeticOperator::Power),
        _ => None,
    }
}

fn undefined<'a>() -> (v: DreamberdValue<'a>)
    ensures
        value_view(v) == ValueView::Undefined,
{
    DreamberdValue::Undefined(DreamberdUndefined)
}

fn truth<'a>(b: Option<bool>) -> (v: DreamberdValue<'a>)
    ensures
        value_view(v) == ValueView::Boolean(b),
{
    DreamberdValue::Boolean(DreamberdBoolean::new(b))
}

/// Applies a binary operator to two values. Arithmetic on two numbers is done by
/// `ops`; everything else is decided here.
pub fn apply_binary<'a, N: Arithmetic>(
    op: OperatorType,
    left: &DreamberdValue<'a>,
    right: &DreamberdValue<'a>,
    ops: &N,
) -> (r: DreamberdValue<'a>)
    ensures
        applies(ops, op, value_view(*left), value_view(*right), value_view(r)),
{
    if let DreamberdValue::Number(l) = left {
        if let DreamberdValue::Number(r) = right {
            if let Some(operation) = arithmetic_operator(op) {
                if op == OperatorType::Div && zero(r.bits) {
                    return undefined();
                }
                return DreamberdValue::Number(
                    DreamberdNumber::new(ops.compute(operation, l.bits, r.bits)),
                );
            }
        }
    }
    match op {
        OperatorType::Add => {
            if let DreamberdValue::String(l) = left {
                if let DreamberdValue::String(r) = right {
                    let mut joined = l.value.clone();
                    append_text(&mut joined, r.value.as_str());
                    return DreamberdValue::String(DreamberdString::new(joined));
                }
            }
            undefined()
        },
        OperatorType::E | OperatorType::Ee | OperatorType::Eee | OperatorType::Eeee => truth(
            Some(values_equal(left, right)),
        ),
        OperatorType::Ne | OperatorType::Nee | OperatorType::Neee => truth(
            Some(!values_equal(left, right)),
        ),
        OperatorType::Lt | OperatorType::Le | OperatorType::Gt | OperatorType::Ge => {
            if let DreamberdValue::Number(l) = left {
                if let DreamberdValue::Number(r) = right {
                    let outcome = match op {
                        OperatorType::Lt => less(l.bits, r.bits),
                        OperatorType::Le => less_equal(l.bits, r.bits),
                        OperatorType::Gt => less(r.bits, l.bits),
                        _ => less_equal(r.bits, l.bits),
                    };
                    return truth(Some(outcome));
                }
            }
            truth(None)
        },
        OperatorType::And => {
            let l = db_to_boolean(left);
            let r = db_to_boolean(right);
            match (l.value, r.value) {
                (Some(a), Some(b)) => truth(Some(a && b)),
                _ => truth(None),
            }
        },
        OperatorType::Or => {
            let l = db_to_boolean(left);
            let r = db_to_boolean(right);
            match (l.value, r.value) {
                (Some(a), Some(b)) => truth(Some(a || b)),
                _ => truth(None),
            }
        },
        _ => undefined(),
    }
}

/// The index under which a list holds the item that a number asks for.
pub open spec fn key_for(parts: IndexParts, bits: u64) -> ListKey {
    if parts.is_whole {
        ListKey::Whole(parts.truncated)
    } else {
        ListKey::Fraction(bits)
    }
}

/// The index of a character of a text that a number asks for: the number without its
/// fractional part, kept within 32 bits.
pub open spec fn string_index(parts: IndexParts) -> i64 {
    if parts.truncated > i32::MAX {
        i32::MAX as i64
    } else if parts.truncated < i32::MIN {
        i32::MIN as i64
    } else {
        parts.truncated
    }
}

/// What indexing yields, given what the index is as a number: for a list the item
/// under that index; for a text the character with that index, as a text; for
/// anything else, and where nothing is found, undefined.
pub open spec fn element_of(value: ValueView, index: ValueView, parts: IndexParts) -> ValueView {
    if index is Number {
        match value {
            ValueView::List { values, indexer } => match list_get(
                values,
                indexer,
                key_for(parts, index->Number_0),
            ) {
                Some(v) => v,
                None => ValueView::Undefined,
            },
            ValueView::String(s) => match DreamberdString::place(s.len(), string_index(parts)) {
                Some(p) => ValueView::String(seq![s[p as int]]),
                None => ValueView::Undefined,
            },
            _ => ValueView::Undefined,
        }
    } else {
        ValueView::Undefined
    }
}

/// The index under which a list holds the item that a number asks for.
pub fn list_key(parts: IndexParts, bits: u64) -> (k: ListKey)
    ensures
        k == key_for(parts, bits),
{
    if parts.is_whole {
        ListKey::Whole(parts.truncated)
    } else {
        ListKey::Fraction(bits)
    }
}

/// What indexing `value` by `index` yields, given what the index is as a number.
pub fn element_given<'a>(value: &DreamberdValue<'a>, index: &DreamberdValue<'a>, parts: IndexParts) -> (r:
    DreamberdValue<'a>)
    ensures
        value_view(r) == element_of(value_view(*value), value_view(*index), parts),
{
    if let DreamberdValue::Number(n) = index {
        match value {
            DreamberdValue::List(list) => match list.get(list_key(parts, n.bits)) {
                Some(v) => copy_value(v),
                None => undefined(),
            },
            DreamberdValue::String(s) => {
                let i: i64 = if parts.truncated > 0x7FFF_FFFF {
                    0x7FFF_FFFF
                } else if parts.truncated < -0x8000_0000 {
                    -0x8000_0000
                } else {
                    parts.truncated
                };
                match s.char_at(i) {
                    Some(c) => {
                        let mut text = String::new();
                        crate::text::push_char(&mut text, c);
                        assert(text@ =~= seq![c]);
                        DreamberdValue::String(DreamberdString::new(text))
                    },
                    None => undefined(),
                }
            },
            _ => undefined(),
        }
    } else {
        undefined()
    }
}

/// Whether `r` is what indexing `value` by `index` yields, with `ops` telling what a
/// number is as an index.
pub open spec fn indexes<N: Arithmetic>(ops: &N, value: ValueView, index: ValueView, r: ValueView) -> bool {
    if index is Number {
        exists|parts: IndexParts| #[trigger]
            call_ensures(N::index_parts, (ops, index->Number_0), parts) && r == element_of(
                value,
                index,
                parts,
            )
    } else {
        r == ValueView::Undefined
    }
}

/// Whether `r` is what a binary operator yields on two values, with `ops` doing the
/// arithmetic.
pub open spec fn applies<N: Arithmetic>(
    ops: &N,
    op: OperatorType,
    left: ValueView,
    right: ValueView,
    r: ValueView,
) -> bool {
    if needs_arithmetic(op, left, right) {
        r is Number && call_ensures(
            N::compute,
            (ops, arithmetic_of(op)->0, left->Number_0, right->Number_0),
            r->Number_0,
        )
    } else {
        r == binary_value(op, left, right)
    }
}

/// What indexing `value` by `index` yields. What a number is as an index is asked of
/// `ops`.
pub fn element_at<'a, N: Arithmetic>(
    value: &DreamberdValue<'a>,
    index: &DreamberdValue<'a>,
    ops: &N,
) -> (r: DreamberdValue<'a>)
    ensures
        indexes(ops, value_view(*value), value_view(*index), value_view(r)),
        !(value_view(*index) is Number) ==> value_view(r) == ValueView::Undefined,
        !(value_view(*value) is List) && !(value_view(*value) is String) ==> value_view(r)
            == ValueView::Undefined,
{
    match index {
        DreamberdValue::Number(n) => {
            let parts = ops.index_parts(n.bits);
            assert(call_ensures(N::index_parts, (ops, n.bits), parts));
            element_given(value, index, parts)
        },
        _ => undefined(),
    }
}

} // verus!
