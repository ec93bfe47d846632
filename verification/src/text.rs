//! Text helpers: the few string operations the rest of the crate builds on.

use vstd::prelude::*;
use vstd::std_specs::iter::IteratorSpec;

verus! {

/// Content comparison of two string slices, through `str`'s `==`.
/// Claimed and not proved: the result says whether both hold the same characters.
#[verifier::external_body]
pub(crate) fn same_text(a: &str, b: &str) -> (r: bool)
    ensures
        r == (a@ == b@),
{
    a == b
}

/// Appends one character, through `String::push`.
/// Claimed and not proved: the string afterwards is the old one followed by `c`.
#[verifier::external_body]
pub(crate) fn push_char(s: &mut String, c: char)
    ensures
        final(s)@ == old(s)@.push(c),
{
    s.push(c)
}

/// The characters of `s`, in order.
pub fn chars_of(s: &str) -> (v: Vec<char>)
    ensures
        v@ == s@,
{
    let mut it = s.chars();
    let mut v: Vec<char> = Vec::new();
    loop
        invariant
            it.obeys_prophetic_iter_laws(),
            v@ + it.remaining() == s@,
            it.decrease() is Some,
        decreases it.decrease()->0,
    {
        broadcast use vstd::string::group_string_axioms;
        let ghost before = it;
        match it.next() {
            Some(c) => {
                assert(before.remaining().len() > 0);
                assert(v@.push(c) + it.remaining() =~= v@ + before.remaining());
                v.push(c);
            },
            None => {
                assert(before.remaining().len() == 0);
                assert(v@ + before.remaining() =~= v@);
                return v;
            },
        }
    }
}

/// The text made of `chars[from..to]`.
pub fn text_of(chars: &Vec<char>, from: usize, to: usize) -> (s: String)
    requires
        from <= to <= chars.len(),
    ensures
        s@ == chars@.subrange(from as int, to as int),
{
    let mut s = String::new();
    let mut i: usize = from;
    while i < to
        invariant
            from <= i <= to <= chars.len(),
            s@ == chars@.subrange(from as int, i as int),
        decreases to - i,
    {
        push_char(&mut s, chars[i]);
        assert(chars@.subrange(from as int, i as int).push(chars@[i as int])
            =~= chars@.subrange(from as int, i + 1));
        i += 1;
    }
    s
}

/// `n` copies of `c`.
pub open spec fn repeated(c: char, n: nat) -> Seq<char> {
    Seq::new(n, |i: int| c)
}

/// A string of `n` copies of `c`.
pub fn repeat_char(c: char, n: usize) -> (s: String)
    ensures
        s@ == repeated(c, n as nat),
{
    let mut s = String::new();
    let mut i: usize = 0;
    while i < n
        invariant
            i <= n,
            s@ == repeated(c, i as nat),
        decreases n - i,
    {
        push_char(&mut s, c);
        assert(repeated(c, i as nat).push(c) =~= repeated(c, (i + 1) as nat));
        i += 1;
    }
    s
}

/// The character that writes the digit `d`.
pub open spec fn digit_char(d: nat) -> char {
    if d == 0 {
        '0'
    } else if d == 1 {
        '1'
    } else if d == 2 {
        '2'
    } else if d == 3 {
        '3'
    } else if d == 4 {
        '4'
    } else if d == 5 {
        '5'
    } else if d == 6 {
        '6'
    } else if d == 7 {
        '7'
    } else if d == 8 {
        '8'
    } else {
        '9'
    }
}

/// The decimal numeral of `n`, without leading zeros (`0` is written "0").
pub open spec fn decimal(n: nat) -> Seq<char>
    decreases n,
{
    if n < 10 {
        seq![digit_char(n)]
    } else {
        decimal(n / 10).push(digit_char(n % 10))
    }
}

fn digit_of(d: u64) -> (c: char)
    requires
        d < 10,
    ensures
        c == digit_char(d as nat),
{
    if d == 0 {
        '0'
    } else if d == 1 {
        '1'
    } else if d == 2 {
        '2'
    } else if d == 3 {
        '3'
    } else if d == 4 {
        '4'
    } else if d == 5 {
        '5'
    } else if d == 6 {
        '6'
    } else if d == 7 {
        '7'
    } else if d == 8 {
        '8'
    } else {
        '9'
    }
}

/// Writes `n` in decimal.
pub fn decimal_text(n: u64) -> (s: String)
    ensures
        s@ == decimal(n as nat),
{
    // Digits are found from the least significant one; `rev` holds them so.
    let mut rev: Vec<char> = Vec::new();
    let mut rest: u64 = n;
    while rest >= 10
        invariant
            decimal(n as nat) == decimal(rest as nat) + rev@.reverse(),
        decreases rest,
    {
        let d = digit_of(rest % 10);
        proof {
            assert(decimal(rest as nat) == decimal((rest / 10) as nat).push(d));
            assert(rev@.push(d).reverse() =~= seq![d] + rev@.reverse());
            assert(decimal((rest / 10) as nat).push(d) + rev@.reverse() =~= decimal(
                (rest / 10) as nat,
            ) + rev@.push(d).reverse());
        }
        rev.push(d);
        rest = rest / 10;
    }
    let mut s = String::new();
    push_char(&mut s, digit_of(rest));
    assert(s@ =~= decimal(rest as nat));
    let mut i: usize = rev.len();
    while i > 0
        invariant
            i <= rev.len(),
            s@ == decimal(rest as nat) + rev@.reverse().take(rev.len() - i),
        decreases i,
    {
        i -= 1;
        push_char(&mut s, rev[i]);
        assert(rev@.reverse().take(rev.len() - i - 1).push(rev@[i as int]) =~= rev@.reverse().take(
            rev.len() - i,
        ));
    }
    assert(rev@.reverse().take(rev.len() as int) =~= rev@.reverse());
    s
}

/// Appends the characters of `t` to `s`.
pub fn append_text(s: &mut String, t: &str)
    ensures
        final(s)@ == old(s)@ + t@,
{
    s.append(t);
}


/// How many characters of `s` come before its first line feed (all of them if it has none).
pub open spec fn first_newline(s: Seq<char>) -> nat
    decreases s.len(),
{
    if s.len() == 0 || s[0] == '\n' {
        0
    } else {
        1 + first_newline(s.drop_first())
    }
}

/// The lines of `s`: the pieces between line feeds. There is always at least one.
pub open spec fn lines_of(s: Seq<char>) -> Seq<Seq<char>>
    decreases s.len(),
{
    let k = first_newline(s) as int;
    if k >= s.len() {
        seq![s]
    } else {
        seq![s.take(k)] + lines_of(s.skip(k + 1))
    }
}

pub proof fn lemma_first_newline_bound(s: Seq<char>)
    ensures
        first_newline(s) <= s.len(),
        first_newline(s) < s.len() ==> s[first_newline(s) as int] == '\n',
        forall|j: int| 0 <= j < first_newline(s) ==> s[j] != '\n',
    decreases s.len(),
{
    if s.len() == 0 || s[0] == '\n' {
    } else {
        lemma_first_newline_bound(s.drop_first());
        assert forall|j: int| 0 <= j < first_newline(s) implies s[j] != '\n' by {
            if j > 0 {
                assert(s.drop_first()[j - 1] == s[j]);
            }
        }
    }
}

/// The index of the first line feed at or after `from`, or the length if there is none.
pub fn find_newline(chars: &Vec<char>, from: usize) -> (end: usize)
    requires
        from <= chars.len(),
    ensures
        end == from + first_newline(chars@.skip(from as int)),
        from <= end <= chars.len(),
{
    let mut i: usize = from;
    while i < chars.len() && chars[i] != '\n'
        invariant
            from <= i <= chars.len(),
            first_newline(chars@.skip(from as int)) == (i - from) + first_newline(
                chars@.skip(i as int),
            ),
        decreases chars.len() - i,
    {
        assert(chars@.skip(i as int).drop_first() =~= chars@.skip(i + 1));
        assert(chars@.skip(i as int)[0] == chars@[i as int]);
        i += 1;
    }
    proof {
        if i < chars.len() {
            assert(chars@.skip(i as int)[0] == chars@[i as int]);
        }
        lemma_first_newline_bound(chars@.skip(i as int));
    }
    i
}

/// The line with index `n` (counted from 0), if the text has that many lines.
pub fn nth_line(chars: &Vec<char>, n: usize) -> (line: Option<String>)
    ensures
        match line {
            Some(l) => n < lines_of(chars@).len() && l@ == lines_of(chars@)[n as int],
            None => n >= lines_of(chars@).len(),
        },
{
    let mut start: usize = 0;
    let mut k: usize = 0;
    assert(chars@.skip(0) =~= chars@);
    assert(lines_of(chars@).skip(0) =~= lines_of(chars@));
    loop
        invariant
            start <= chars.len(),
            k <= n,
            k <= lines_of(chars@).len(),
            lines_of(chars@).skip(k as int) == lines_of(chars@.skip(start as int)),
        decreases chars.len() - start,
    {
        let end = find_newline(chars, start);
        let ghost rest = chars@.skip(start as int);
        proof {
            lemma_first_newline_bound(rest);
            assert(lines_of(chars@).skip(k as int).len() == lines_of(chars@).len() - k);
            assert(rest.take(end - start) =~= chars@.subrange(start as int, end as int));
            if end < chars.len() {
                assert(rest.skip(end - start + 1) =~= chars@.skip(end + 1));
                assert(lines_of(rest).skip(1) =~= lines_of(chars@.skip(end + 1)));
                assert(lines_of(chars@).skip(k as int).skip(1) =~= lines_of(chars@).skip(k + 1));
            } else {
                assert(rest.take(end - start) =~= rest);
            }
            assert(lines_of(rest)[0] == chars@.subrange(start as int, end as int));
            assert(lines_of(chars@).skip(k as int)[0] == lines_of(chars@)[k as int]);
        }
        if k == n {
            return Some(text_of(chars, start, end));
        }
        if end >= chars.len() {
            assert(lines_of(rest).len() == 1);
            return None;
        }
        start = end + 1;
        k += 1;
    }
}


/// Whether `s` begins with `prefix`.
pub open spec fn begins_with(s: Seq<char>, prefix: Seq<char>) -> bool {
    prefix.len() <= s.len() && s.take(prefix.len() as int) == prefix
}

/// Whether the characters `chars` begin with `prefix`.
pub fn has_prefix(chars: &Vec<char>, prefix: &str) -> (r: bool)
    ensures
        r == begins_with(chars@, prefix@),
{
    let wanted = chars_of(prefix);
    if wanted.len() > chars.len() {
        return false;
    }
    let mut i: usize = 0;
    while i < wanted.len()
        invariant
            i <= wanted.len() <= chars.len(),
            wanted@ == prefix@,
            forall|j: int| 0 <= j < i ==> chars@[j] == wanted@[j],
        decreases wanted.len() - i,
    {
        if chars[i] != wanted[i] {
            assert(chars@.take(wanted.len() as int)[i as int] != wanted@[i as int]);
            return false;
        }
        i += 1;
    }
    assert(chars@.take(wanted.len() as int) =~= wanted@);
    true
}

/// The text made of `chars[from..]`.
pub fn text_from(chars: &Vec<char>, from: usize) -> (s: String)
    requires
        from <= chars.len(),
    ensures
        s@ == chars@.skip(from as int),
{
    let s = text_of(chars, from, chars.len());
    assert(chars@.subrange(from as int, chars.len() as int) =~= chars@.skip(from as int));
    s
}


/// Whether `c` is white space: one of the characters to which Unicode gives the
/// property White_Space. These are the tab, the line feed, the vertical tab, the form
/// feed, the carriage return, the space, the next-line mark, the no-break space, the
/// ogham space mark, the spaces from the en quad to the hair space, the line and the
/// paragraph separator, the narrow no-break space, the medium mathematical space and
/// the ideographic space.
pub open spec fn whitespace(c: char) -> bool {
    let u = c as u32;
    (0x09 <= u <= 0x0D) || u == 0x20 || u == 0x85 || u == 0xA0 || u == 0x1680 || (0x2000 <= u
        <= 0x200A) || u == 0x2028 || u == 0x2029 || u == 0x202F || u == 0x205F || u == 0x3000
}

/// Whether `c` is white space.
pub fn is_whitespace(c: char) -> (r: bool)
    ensures
        r == whitespace(c),
{
    let u = c as u32;
    (0x09 <= u && u <= 0x0D) || u == 0x20 || u == 0x85 || u == 0xA0 || u == 0x1680 || (0x2000
        <= u && u <= 0x200A) || u == 0x2028 || u == 0x2029 || u == 0x202F || u == 0x205F || u
        == 0x3000
}

/// Whether `s` ends with `suffix`.
pub open spec fn ends_with(s: Seq<char>, suffix: Seq<char>) -> bool {
    suffix.len() <= s.len() && s.skip(s.len() - suffix.len()) == suffix
}

/// Whether the characters `chars[from..to]` end with `suffix`.
pub fn has_suffix(chars: &Vec<char>, from: usize, to: usize, suffix: &str) -> (r: bool)
    requires
        from <= to <= chars.len(),
    ensures
        r == ends_with(chars@.subrange(from as int, to as int), suffix@),
{
    let wanted = chars_of(suffix);
    let ghost s = chars@.subrange(from as int, to as int);
    if wanted.len() > to - from {
        return false;
    }
    let start = to - wanted.len();
    let mut i: usize = 0;
    while i < wanted.len()
        invariant
            i <= wanted.len(),
            from <= start,
            start + wanted.len() == to,
            to <= chars.len(),
            wanted@ == suffix@,
            s == chars@.subrange(from as int, to as int),
            forall|j: int| 0 <= j < i ==> chars@[start + j] == wanted@[j],
        decreases wanted.len() - i,
    {
        if chars[start + i] != wanted[i] {
            assert(s.skip(s.len() - wanted.len())[i as int] == chars@[start + i]);
            return false;
        }
        i += 1;
    }
    assert(s.skip(s.len() - wanted.len()) =~= wanted@);
    true
}

/// The lines of a text. A line ends at a line feed, and a carriage return directly
/// before the line feed does not belong to it; the last line needs no line feed.
pub open spec fn text_lines(s: Seq<char>, from: int) -> Seq<Seq<char>>
    decreases s.len() - from,
{
    if !(0 <= from < s.len()) {
        Seq::empty()
    } else {
        let end = from + first_newline(s.skip(from));
        if end < s.len() {
            seq![without_return(s.subrange(from, end))] + text_lines(s, end + 1)
        } else {
            seq![s.subrange(from, end)]
        }
    }
}

/// A line without the carriage return at its end, if it has one.
pub open spec fn without_return(line: Seq<char>) -> Seq<char> {
    if line.len() > 0 && line.last() == '\r' {
        line.drop_last()
    } else {
        line
    }
}

/// The lines of a text, each as the place where it starts and the place where it ends.
pub fn line_bounds(chars: &Vec<char>) -> (bounds: Vec<(usize, usize)>)
    ensures
        bounds@.len() == text_lines(chars@, 0).len(),
        forall|i: int|
            0 <= i < bounds@.len() ==> (#[trigger] bounds@[i]).0 <= bounds@[i].1 <= chars@.len()
                && chars@.subrange(bounds@[i].0 as int, bounds@[i].1 as int) == text_lines(
                chars@,
                0,
            )[i],
{
    let mut bounds: Vec<(usize, usize)> = Vec::new();
    let mut from: usize = 0;
    let ghost all = text_lines(chars@, 0);
    assert(Seq::<Seq<char>>::empty() + all =~= all);
    let ghost mut done: Seq<Seq<char>> = Seq::empty();
    while from < chars.len()
        invariant
            from <= chars.len(),
            all == text_lines(chars@, 0),
            all == done + text_lines(chars@, from as int),
            bounds@.len() == done.len(),
            forall|i: int|
                0 <= i < bounds@.len() ==> (#[trigger] bounds@[i]).0 <= bounds@[i].1
                    <= chars@.len() && chars@.subrange(bounds@[i].0 as int, bounds@[i].1 as int)
                    == done[i],
        decreases chars.len() - from,
    {
        let end = find_newline(chars, from);
        let ghost rest = text_lines(chars@, from as int);
        if end < chars.len() {
            let stop = if end > from && chars[end - 1] == '\r' {
                end - 1
            } else {
                end
            };
            proof {
                let line = chars@.subrange(from as int, end as int);
                if end > from {
                    assert(line.last() == chars@[end - 1]);
                }
                assert(chars@.subrange(from as int, stop as int) =~= without_return(line));
                assert(done.push(without_return(line)) + text_lines(chars@, end + 1) =~= done
                    + rest);
                done = done.push(without_return(line));
            }
            bounds.push((from, stop));
            from = end + 1;
        } else {
            proof {
                let line = chars@.subrange(from as int, end as int);
                assert(done.push(line) + text_lines(chars@, chars@.len() as int) =~= done + rest);
                done = done.push(line);
            }
            bounds.push((from, end));
            from = chars.len();
        }
    }
    proof {
        assert(done + text_lines(chars@, from as int) =~= done);
    }
    bounds
}

/// The index of the first character at or after `from` and before `to` that is not
/// `c`, or `to`.
pub open spec fn skip_forward(s: Seq<char>, from: int, to: int, c: char) -> int
    decreases to - from,
{
    if 0 <= from < to <= s.len() && s[from] == c {
        skip_forward(s, from + 1, to, c)
    } else {
        from
    }
}

/// The index after the last character before `to` and at or after `from` that is not
/// `c`, or `from`.
pub open spec fn skip_backward(s: Seq<char>, from: int, to: int, c: char) -> int
    decreases to - from,
{
    if 0 <= from < to <= s.len() && s[to - 1] == c {
        skip_backward(s, from, to - 1, c)
    } else {
        to
    }
}

/// The same, for white space.
pub open spec fn skip_space_forward(s: Seq<char>, from: int, to: int) -> int
    decreases to - from,
{
    if 0 <= from < to <= s.len() && whitespace(s[from]) {
        skip_space_forward(s, from + 1, to)
    } else {
        from
    }
}

/// The same, for white space.
pub open spec fn skip_space_backward(s: Seq<char>, from: int, to: int) -> int
    decreases to - from,
{
    if 0 <= from < to <= s.len() && whitespace(s[to - 1]) {
        skip_space_backward(s, from, to - 1)
    } else {
        to
    }
}

pub fn trim_char_bounds(chars: &Vec<char>, from: usize, to: usize, c: char) -> (r: (usize, usize))
    requires
        from <= to <= chars.len(),
    ensures
        r.0 == skip_forward(chars@, from as int, to as int, c),
        r.1 == skip_backward(chars@, r.0 as int, to as int, c),
        from <= r.0 <= r.1 <= to,
{
    let mut a: usize = from;
    while a < to && chars[a] == c
        invariant
            from <= a <= to <= chars.len(),
            skip_forward(chars@, from as int, to as int, c) == skip_forward(
                chars@,
                a as int,
                to as int,
                c,
            ),
        decreases to - a,
    {
        a += 1;
    }
    let mut b: usize = to;
    while a < b && chars[b - 1] == c
        invariant
            a <= b <= to <= chars.len(),
            skip_backward(chars@, a as int, to as int, c) == skip_backward(
                chars@,
                a as int,
                b as int,
                c,
            ),
        decreases b - a,
    {
        b -= 1;
    }
    (a, b)
}

pub fn trim_space_bounds(chars: &Vec<char>, from: usize, to: usize) -> (r: (usize, usize))
    requires
        from <= to <= chars.len(),
    ensures
        r.0 == skip_space_forward(chars@, from as int, to as int),
        r.1 == skip_space_backward(chars@, r.0 as int, to as int),
        from <= r.0 <= r.1 <= to,
{
    let mut a: usize = from;
    while a < to && is_whitespace(chars[a])
        invariant
            from <= a <= to <= chars.len(),
            skip_space_forward(chars@, from as int, to as int) == skip_space_forward(
                chars@,
                a as int,
                to as int,
            ),
        decreases to - a,
    {
        a += 1;
    }
    let mut b: usize = to;
    while a < b && is_whitespace(chars[b - 1])
        invariant
            a <= b <= to <= chars.len(),
            skip_space_backward(chars@, a as int, to as int) == skip_space_backward(
                chars@,
                a as int,
                b as int,
            ),
        decreases b - a,
    {
        b -= 1;
    }
    (a, b)
}

/// A whole number with its sign, in decimal.
pub open spec fn signed_decimal(n: int) -> Seq<char> {
    if n < 0 {
        "-"@ + decimal((-n) as nat)
    } else {
        decimal(n as nat)
    }
}

/// Writes `n` in decimal, with its sign.
pub fn signed_text(n: i64) -> (s: String)
    ensures
        s@ == signed_decimal(n as int),
{
    if n < 0 {
        let mut s = String::from_str("-");
        let magnitude: u64 = if n == i64::MIN {
            0x8000_0000_0000_0000
        } else {
            (-n) as u64
        };
        append_text(&mut s, decimal_text(magnitude).as_str());
        s
    } else {
        decimal_text(n as u64)
    }
}

} // verus!
