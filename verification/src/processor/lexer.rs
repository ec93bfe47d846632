//! The lexer: source text to a flat sequence of tokens.

use crate::base::{line_error_text, raise_error_at_line, DreamberdError, Token, TokenType, TokenView};
use crate::text::{chars_of, push_char, text_of};
use vstd::prelude::*;

verus! {

/// Whether `c` is a letter; the name of what `char::is_alphabetic` returns.
pub uninterp spec fn alphabetic(c: char) -> bool;

/// Whether `c` is a letter or a numeral; the name of what `char::is_alphanumeric` returns.
pub uninterp spec fn alphanumeric(c: char) -> bool;

/// Calls `char::is_alphabetic`. Claimed and not proved: the result depends on `c` alone.
#[verifier::external_body]
fn is_alphabetic(c: char) -> (r: bool)
    ensures
        r == alphabetic(c),
{
    c.is_alphabetic()
}

/// Calls `char::is_alphanumeric`. Claimed and not proved: the result depends on `c`
/// alone, and every letter is alphanumeric, as the method's documentation says.
#[verifier::external_body]
fn is_alphanumeric(c: char) -> (r: bool)
    ensures
        r == alphanumeric(c),
        alphabetic(c) ==> r,
{
    c.is_alphanumeric()
}

/// An ASCII digit.
pub open spec fn is_digit(c: char) -> bool {
    48 <= c as u32 <= 57
}

fn is_ascii_digit(c: char) -> (r: bool)
    ensures
        r == is_digit(c),
{
    let n = c as u32;
    48 <= n && n <= 57
}

/// A quote character, single or double.
pub open spec fn is_quote(c: char) -> bool {
    c == '"' || c == '\''
}

/// A double quote weighs 2, any other character 1.
pub open spec fn quote_weight(c: char) -> nat {
    if c == '"' {
        2
    } else {
        1
    }
}

/// The summed weight of the characters of `s`.
pub open spec fn quote_count(s: Seq<char>) -> nat
    decreases s.len(),
{
    if s.len() == 0 {
        0
    } else {
        quote_count(s.drop_last()) + quote_weight(s.last())
    }
}

/// Whether a run of quotes opens and closes a string with nothing in between:
/// its weight is even and some proper prefix has exactly half of it.
pub open spec fn matching_pair(s: Seq<char>) -> bool {
    quote_count(s) % 2 == 0 && exists|i: int|
        0 <= i < s.len() && #[trigger] quote_count(s.take(i)) == quote_count(s) / 2
}

proof fn lemma_quote_count_step(s: Seq<char>, i: int)
    requires
        0 <= i < s.len(),
    ensures
        quote_count(s.take(i + 1)) == quote_count(s.take(i)) + quote_weight(s[i]),
        quote_count(s.take(i + 1)) <= 2 * (i + 1),
    decreases i,
{
    assert(s.take(i + 1).drop_last() =~= s.take(i));
    if i > 0 {
        lemma_quote_count_step(s, i - 1);
    } else {
        assert(s.take(0).len() == 0);
    }
}

/// The space that a blank character stands for.
pub open spec fn whitespace_value(ch: char) -> Seq<char> {
    if ch == ' ' {
        " "@
    } else if ch == '\t' {
        "\t"@
    } else {
        ""@
    }
}

fn get_effective_whitespace_value(ch: char) -> (r: &'static str)
    ensures
        r@ == whitespace_value(ch),
{
    if ch == ' ' {
        " "
    } else if ch == '\t' {
        "\t"
    } else {
        ""
    }
}

/// The weight of the first `upto` characters of `quotes`.
fn get_quote_count(quotes: &Vec<char>, upto: usize) -> (n: u128)
    requires
        upto <= quotes.len(),
    ensures
        n == quote_count(quotes@.take(upto as int)),
        n <= 2 * upto,
{
    let mut n: u128 = 0;
    let mut i: usize = 0;
    assert(quotes@.take(0).len() == 0);
    while i < upto
        invariant
            i <= upto <= quotes.len(),
            n == quote_count(quotes@.take(i as int)),
            n <= 2 * i,
        decreases upto - i,
    {
        proof {
            lemma_quote_count_step(quotes@, i as int);
        }
        if quotes[i] == '"' {
            n = n + 2;
        } else {
            n = n + 1;
        }
        i += 1;
    }
    n
}

fn is_matching_pair(quotes: &Vec<char>) -> (r: bool)
    ensures
        r == matching_pair(quotes@),
{
    let total = get_quote_count(quotes, quotes.len());
    assert(quotes@.take(quotes.len() as int) =~= quotes@);
    if total % 2 != 0 {
        return false;
    }
    let half = total / 2;
    let mut running: u128 = 0;
    let mut i: usize = 0;
    assert(quotes@.take(0).len() == 0);
    while i < quotes.len()
        invariant
            i <= quotes.len(),
            running == quote_count(quotes@.take(i as int)),
            running <= 2 * i,
            half == quote_count(quotes@) / 2,
            quote_count(quotes@) % 2 == 0,
            forall|j: int| 0 <= j < i ==> #[trigger] quote_count(quotes@.take(j)) != half,
        decreases quotes.len() - i,
    {
        if running == half {
            assert(quote_count(quotes@.take(i as int)) == quote_count(quotes@) / 2);
            return true;
        }
        proof {
            lemma_quote_count_step(quotes@, i as int);
        }
        if quotes[i] == '"' {
            running = running + 2;
        } else {
            running = running + 1;
        }
        i += 1;
    }
    false
}

/// Where the run of quotes that opens a string at `start` ends, scanning from `curr`:
/// at the first quote that completes a matching pair (then the flag is set), or at the
/// first character that is no quote.
pub open spec fn open_scan(chars: Seq<char>, start: int, curr: int) -> (int, bool)
    decreases chars.len() - curr,
{
    if 0 <= start <= curr < chars.len() && is_quote(chars[curr]) {
        if matching_pair(chars.subrange(start, curr + 1)) {
            (curr, true)
        } else {
            open_scan(chars, start, curr + 1)
        }
    } else {
        (curr, false)
    }
}

/// Scans a run of quotes from `curr`, adding weights to `running`: the run closes the
/// string at the quote where the sum is exactly `target` (then the flag is set).
pub open spec fn close_run(chars: Seq<char>, curr: int, running: nat, target: nat) -> (int, bool)
    decreases chars.len() - curr,
{
    if 0 <= curr < chars.len() && is_quote(chars[curr]) {
        let r = running + quote_weight(chars[curr]);
        if r == target {
            (curr, true)
        } else {
            close_run(chars, curr + 1, r, target)
        }
    } else {
        (curr, false)
    }
}

pub proof fn lemma_close_run_bounds(chars: Seq<char>, curr: int, running: nat, target: nat)
    requires
        0 <= curr <= chars.len(),
    ensures
        curr <= close_run(chars, curr, running, target).0 <= chars.len(),
        close_run(chars, curr, running, target).1 ==> close_run(chars, curr, running, target).0
            < chars.len(),
    decreases chars.len() - curr,
{
    if curr < chars.len() && is_quote(chars[curr]) {
        let r = running + quote_weight(chars[curr]);
        if r != target {
            lemma_close_run_bounds(chars, curr + 1, r, target);
        }
    }
}

pub proof fn lemma_open_scan_bounds(chars: Seq<char>, start: int, curr: int)
    requires
        0 <= start <= curr <= chars.len(),
    ensures
        curr <= open_scan(chars, start, curr).0 <= chars.len(),
        open_scan(chars, start, curr).1 ==> open_scan(chars, start, curr).0 < chars.len(),
    decreases chars.len() - curr,
{
    if curr < chars.len() && is_quote(chars[curr]) {
        if !matching_pair(chars.subrange(start, curr + 1)) {
            lemma_open_scan_bounds(chars, start, curr + 1);
        }
    }
}

/// Whether `c` stands for itself when it stands behind a backslash inside a string: a
/// quote and the backslash do.
pub open spec fn escapable(c: char) -> bool {
    c == '"' || c == '\'' || c == '\\'
}

/// Whether a backslash with a character that it protects stands at `curr`.
pub open spec fn escape_at(chars: Seq<char>, curr: int) -> bool {
    0 <= curr && curr + 1 < chars.len() && chars[curr] == '\\' && escapable(chars[curr + 1])
}

/// The text of a string whose opening quotes weigh `target`, read from `curr` on with
/// `value` read so far: the index of the closing quote and the text, or `None` if the
/// source ends first. A backslash before a quote or a backslash gives that character
/// as text; a run of quotes that does not close the string is text; so is any other
/// character.
pub open spec fn body_scan(chars: Seq<char>, curr: int, target: nat, value: Seq<char>) -> Option<
    (int, Seq<char>),
>
    decreases chars.len() - curr,
{
    if 0 <= curr < chars.len() {
        if escape_at(chars, curr) {
            body_scan(chars, curr + 2, target, value.push(chars[curr + 1]))
        } else {
            let (p, closed) = close_run(chars, curr, 0, target);
            if closed {
                Some((p, value))
            } else if curr <= p < chars.len() {
                let next = if p == curr {
                    p + 1
                } else {
                    p
                };
                body_scan(chars, next, target, value + chars.subrange(curr, next))
            } else {
                None
            }
        }
    } else {
        None
    }
}

/// A string literal that starts at `start`: the index of its last quote and its text.
pub open spec fn string_scan(chars: Seq<char>, start: int) -> Option<(int, Seq<char>)> {
    let (p, paired) = open_scan(chars, start, start);
    if paired {
        Some((p, Seq::<char>::empty()))
    } else {
        body_scan(chars, p, quote_count(chars.subrange(start, p)), Seq::<char>::empty())
    }
}

/// Reads the string literal whose first quote is at `start`. Quotes may be single or
/// double and several deep; the literal ends at a run of quotes that weighs as much as
/// the opening run. Inside it a backslash before a quote or a backslash gives that
/// character as text. Fails when the source ends before the closing run.
fn get_string_token(
    chars: &Vec<char>,
    start: usize,
    filename: &str,
    code: &str,
    error_line: usize,
) -> (r: Result<(usize, String), DreamberdError>)
    requires
        start < chars.len(),
    ensures
        match r {
            Ok((end, value)) => string_scan(chars@, start as int) == Some((end as int, value@))
                && start <= end < chars.len(),
            Err(e) => string_scan(chars@, start as int) is None && e is InterpretationError
                && e.text() == line_error_text(
                filename@,
                code@,
                error_line,
                "Invalid string. Starting quotes do not match closing quotes."@,
            ),
        },
{
    let mut curr: usize = start;
    let mut quotes: Vec<char> = Vec::new();
    assert(chars@.subrange(start as int, start as int) =~= quotes@);
    while curr < chars.len() && (chars[curr] == '"' || chars[curr] == '\'')
        invariant
            start <= curr <= chars.len(),
            quotes@ == chars@.subrange(start as int, curr as int),
            open_scan(chars@, start as int, start as int) == open_scan(
                chars@,
                start as int,
                curr as int,
            ),
        decreases chars.len() - curr,
    {
        quotes.push(chars[curr]);
        assert(quotes@ =~= chars@.subrange(start as int, curr + 1));
        if is_matching_pair(&quotes) {
            return Ok((curr, String::new()));
        }
        curr += 1;
    }
    let target = get_quote_count(&quotes, quotes.len());
    assert(quotes@.take(quotes.len() as int) =~= quotes@);
    let mut value = String::new();
    let ghost opened = curr as int;
    assert(value@ =~= Seq::<char>::empty());
    while curr < chars.len()
        invariant
            start <= opened <= curr <= chars.len(),
            target == quote_count(chars@.subrange(start as int, opened)),
            string_scan(chars@, start as int) == body_scan(
                chars@,
                opened,
                target as nat,
                Seq::<char>::empty(),
            ),
            curr < chars.len() ==> string_scan(chars@, start as int) == body_scan(
                chars@,
                curr as int,
                target as nat,
                value@,
            ),
            curr >= chars.len() ==> string_scan(chars@, start as int) is None,
        decreases chars.len() - curr,
    {
        if chars[curr] == '\\' && curr + 1 < chars.len() && (chars[curr + 1] == '"' || chars[curr
            + 1] == '\'' || chars[curr + 1] == '\\') {
            push_char(&mut value, chars[curr + 1]);
            curr += 2;
        } else {
            let mut running: u128 = 0;
            let quote_start = curr;
            while curr < chars.len() && (chars[curr] == '"' || chars[curr] == '\'')
                invariant
                    start <= quote_start <= curr <= chars.len(),
                    quote_start < chars.len(),
                    !escape_at(chars@, quote_start as int),
                    running <= 2 * (curr - quote_start),
                    string_scan(chars@, start as int) == body_scan(
                        chars@,
                        quote_start as int,
                        target as nat,
                        value@,
                    ),
                    close_run(chars@, quote_start as int, 0, target as nat) == close_run(
                        chars@,
                        curr as int,
                        running as nat,
                        target as nat,
                    ),
                decreases chars.len() - curr,
            {
                if chars[curr] == '"' {
                    running = running + 2;
                } else {
                    running = running + 1;
                }
                if running == target {
                    return Ok((curr, value));
                }
                curr += 1;
            }
            if curr < chars.len() {
                let stop = if curr == quote_start {
                    curr + 1
                } else {
                    curr
                };
                let mut i: usize = quote_start;
                let ghost before = value@;
                assert(value@ =~= before + chars@.subrange(quote_start as int, i as int));
                while i < stop
                    invariant
                        quote_start <= i <= stop <= chars.len(),
                        value@ == before + chars@.subrange(quote_start as int, i as int),
                    decreases stop - i,
                {
                    push_char(&mut value, chars[i]);
                    assert(chars@.subrange(quote_start as int, i as int).push(chars@[i as int])
                        =~= chars@.subrange(quote_start as int, i + 1));
                    assert(value@ =~= before + chars@.subrange(quote_start as int, i + 1));
                    i += 1;
                }
                curr = stop;
            }
        }
    }
    Err(
        raise_error_at_line(
            filename,
            code,
            error_line,
            "Invalid string. Starting quotes do not match closing quotes.",
        ),
    )
}


/// The views of a sequence of tokens.
pub open spec fn token_views(tokens: Seq<Token>) -> Seq<TokenView> {
    tokens.map_values(|t: Token| t@)
}

/// One token, as the sequence that a lexer step yields.
pub open spec fn emit(token_type: TokenType, value: Seq<char>, line: usize, col: usize) -> Seq<
    TokenView,
> {
    seq![TokenView { token_type, value, line, col }]
}

/// Appends a token to `tokens`; without a text of its own it gets the spelling of its kind.
fn add_token(
    tokens: &mut Vec<Token>,
    line: usize,
    col: usize,
    token_type: TokenType,
    value: Option<String>,
)
    ensures
        token_views(final(tokens)@) == token_views(old(tokens)@) + emit(
            token_type,
            match value {
                Some(v) => v@,
                None => token_type.symbol(),
            },
            line,
            col,
        ),
{
    let val = match value {
        Some(v) => v,
        None => String::from_str(token_type.as_str()),
    };
    let ghost before = tokens@;
    let token = Token::new(token_type, val, line, col);
    tokens.push(token);
    assert(token_views(tokens@) =~= token_views(before) + emit(token_type, val@, line, col));
}

/// The kind of a punctuation character that is a token by itself.
pub open spec fn fixed_symbol(ch: char) -> Option<TokenType> {
    if ch == '}' {
        Some(TokenType::RCurly)
    } else if ch == '{' {
        Some(TokenType::LCurly)
    } else if ch == '[' {
        Some(TokenType::LSquare)
    } else if ch == ']' {
        Some(TokenType::RSquare)
    } else if ch == '.' {
        Some(TokenType::Dot)
    } else if ch == ':' {
        Some(TokenType::Colon)
    } else if ch == '|' {
        Some(TokenType::Pipe)
    } else if ch == '&' {
        Some(TokenType::And)
    } else if ch == ',' {
        Some(TokenType::Comma)
    } else if ch == '*' {
        Some(TokenType::Multiply)
    } else if ch == '^' {
        Some(TokenType::Caret)
    } else if ch == '!' {
        Some(TokenType::Bang)
    } else if ch == '?' {
        Some(TokenType::Question)
    } else if ch == '(' {
        Some(TokenType::LParen)
    } else if ch == ')' {
        Some(TokenType::RParen)
    } else {
        None
    }
}

fn single_symbol(ch: char) -> (r: Option<TokenType>)
    ensures
        r == fixed_symbol(ch),
{
    if ch == '}' {
        Some(TokenType::RCurly)
    } else if ch == '{' {
        Some(TokenType::LCurly)
    } else if ch == '[' {
        Some(TokenType::LSquare)
    } else if ch == ']' {
        Some(TokenType::RSquare)
    } else if ch == '.' {
        Some(TokenType::Dot)
    } else if ch == ':' {
        Some(TokenType::Colon)
    } else if ch == '|' {
        Some(TokenType::Pipe)
    } else if ch == '&' {
        Some(TokenType::And)
    } else if ch == ',' {
        Some(TokenType::Comma)
    } else if ch == '*' {
        Some(TokenType::Multiply)
    } else if ch == '^' {
        Some(TokenType::Caret)
    } else if ch == '!' {
        Some(TokenType::Bang)
    } else if ch == '?' {
        Some(TokenType::Question)
    } else if ch == '(' {
        Some(TokenType::LParen)
    } else if ch == ')' {
        Some(TokenType::RParen)
    } else {
        None
    }
}

/// Whether the character at `i` is `c`.
pub open spec fn has(chars: Seq<char>, i: int, c: char) -> bool {
    0 <= i < chars.len() && chars[i] == c
}

/// The end of the run of `c` that starts at `from`.
pub open spec fn run_end(chars: Seq<char>, from: int, c: char) -> int
    decreases chars.len() - from,
{
    if 0 <= from < chars.len() && chars[from] == c {
        run_end(chars, from + 1, c)
    } else {
        from
    }
}

/// The end of the numeral that goes on at `from`: digits, and one dot unless `has_dot`.
pub open spec fn number_end(chars: Seq<char>, from: int, has_dot: bool) -> int
    decreases chars.len() - from,
{
    if 0 <= from < chars.len() {
        if is_digit(chars[from]) {
            number_end(chars, from + 1, has_dot)
        } else if chars[from] == '.' && !has_dot {
            number_end(chars, from + 1, true)
        } else {
            from
        }
    } else {
        from
    }
}

/// Whether `c` can go on a name.
pub open spec fn name_char(c: char) -> bool {
    alphanumeric(c) || c == '_' || c == '.'
}

/// The end of the name that goes on at `from`.
pub open spec fn name_end(chars: Seq<char>, from: int) -> int
    decreases chars.len() - from,
{
    if 0 <= from < chars.len() && name_char(chars[from]) {
        name_end(chars, from + 1)
    } else {
        from
    }
}

/// The index of the first line feed at or after `from`, or the length.
pub open spec fn line_end(chars: Seq<char>, from: int) -> int
    decreases chars.len() - from,
{
    if 0 <= from < chars.len() && chars[from] != '\n' {
        line_end(chars, from + 1)
    } else {
        from
    }
}

/// Whether a numeral starts at `i`: a digit, or a dot before a digit.
pub open spec fn starts_number(chars: Seq<char>, i: int) -> bool {
    0 <= i < chars.len() && (is_digit(chars[i]) || (chars[i] == '.' && i + 1 < chars.len()
        && is_digit(chars[i + 1])))
}

/// The kind of a run of `n` equal signs.
pub open spec fn equal_kind(n: int) -> TokenType {
    if n == 1 {
        TokenType::Equal
    } else if n == 2 {
        TokenType::EqualEqual
    } else if n == 3 {
        TokenType::EqualEqualEqual
    } else {
        TokenType::EqualEqualEqualEqual
    }
}

/// Whether `value` holds a dollar sign directly before an opening brace.
pub open spec fn interpolated(value: Seq<char>) -> bool {
    exists|i: int| 0 <= i && i + 1 < value.len() && #[trigger] value[i] == '$' && value[i + 1] == '{'
}

fn has_interpolation(value: &str) -> (r: bool)
    ensures
        r == interpolated(value@),
{
    let chars = chars_of(value);
    if chars.len() < 2 {
        return false;
    }
    let mut i: usize = 0;
    while i < chars.len() - 1
        invariant
            chars@ == value@,
            chars.len() >= 2,
            i <= chars.len() - 1,
            forall|j: int| 0 <= j < i && j + 1 < chars.len() ==> !(#[trigger] chars@[j] == '$'
                && chars@[j + 1] == '{'),
        decreases chars.len() - i,
    {
        if chars[i] == '$' && chars[i + 1] == '{' {
            return true;
        }
        i += 1;
    }
    false
}

fn scan_run(chars: &Vec<char>, from: usize, c: char) -> (end: usize)
    requires
        from <= chars.len(),
    ensures
        end == run_end(chars@, from as int, c),
        from <= end <= chars.len(),
{
    let mut i: usize = from;
    while i < chars.len() && chars[i] == c
        invariant
            from <= i <= chars.len(),
            run_end(chars@, from as int, c) == run_end(chars@, i as int, c),
        decreases chars.len() - i,
    {
        i += 1;
    }
    i
}

fn scan_number(chars: &Vec<char>, from: usize) -> (end: usize)
    requires
        from <= chars.len(),
    ensures
        end == number_end(chars@, from as int, false),
        from <= end <= chars.len(),
        from < chars.len() && is_digit(chars@[from as int]) ==> from < end,
{
    let mut i: usize = from;
    let mut has_dot = false;
    while i < chars.len()
        invariant
            from <= i <= chars.len(),
            number_end(chars@, from as int, false) == number_end(chars@, i as int, has_dot),
            from < chars.len() && is_digit(chars@[from as int]) && i == from ==> !has_dot,
        decreases chars.len() - i,
    {
        let c = chars[i];
        if is_ascii_digit(c) {
            i += 1;
        } else if c == '.' && !has_dot {
            has_dot = true;
            i += 1;
        } else {
            return i;
        }
    }
    i
}

fn scan_name(chars: &Vec<char>, from: usize) -> (end: usize)
    requires
        from <= chars.len(),
    ensures
        end == name_end(chars@, from as int),
        from <= end <= chars.len(),
        from < chars.len() && (alphabetic(chars@[from as int]) || chars@[from as int] == '_')
            ==> from < end,
{
    let mut i: usize = from;
    while i < chars.len() && (is_alphanumeric(chars[i]) || chars[i] == '_' || chars[i] == '.')
        invariant
            from <= i <= chars.len(),
            name_end(chars@, from as int) == name_end(chars@, i as int),
        decreases chars.len() - i,
    {
        i += 1;
    }
    i
}

fn scan_line(chars: &Vec<char>, from: usize) -> (end: usize)
    requires
        from <= chars.len(),
    ensures
        end == line_end(chars@, from as int),
        from <= end <= chars.len(),
        from < chars.len() && chars@[from as int] != '\n' ==> from < end,
{
    let mut i: usize = from;
    while i < chars.len() && chars[i] != '\n'
        invariant
            from <= i <= chars.len(),
            line_end(chars@, from as int) == line_end(chars@, i as int),
        decreases chars.len() - i,
    {
        i += 1;
    }
    i
}

/// What one step of the lexer yields: the tokens found (none or one), where the next
/// step starts, the line counter and the start of the line after the step, and whether
/// the step met a string that never ends.
pub struct Scan {
    pub tokens: Seq<TokenView>,
    pub next: int,
    pub line: usize,
    pub start: int,
    pub failed: bool,
}

/// A step that stays on its line.
pub open spec fn on(tokens: Seq<TokenView>, next: int, line: usize, start: int) -> Scan {
    Scan { tokens, next, line, start, failed: false }
}

/// One step of the lexer at `curr`, on line `line` whose start is `start`.
pub open spec fn scan(chars: Seq<char>, curr: int, line: usize, start: int) -> Scan {
    let ch = chars[curr];
    let col = (curr - start) as usize;
    if ch == '\n' {
        let l = (line + 1) as usize;
        on(emit(TokenType::Newline, TokenType::Newline.symbol(), l, col), curr + 1, l, curr)
    } else if fixed_symbol(ch) is Some {
        let t = fixed_symbol(ch)->0;
        on(emit(t, t.symbol(), line, col), curr + 1, line, start)
    } else if ch == ';' {
        let end = run_end(chars, curr + 1, '=');
        if end == curr + 1 {
            on(
                emit(TokenType::Semicolon, TokenType::Semicolon.symbol(), line, col),
                curr + 1,
                line,
                start,
            )
        } else {
            on(emit(TokenType::NotEqual, chars.subrange(curr, end), line, col), end, line, start)
        }
    } else if ch == '+' {
        if has(chars, curr + 1, '+') {
            on(
                emit(TokenType::Increment, TokenType::Increment.symbol(), line, col),
                curr + 2,
                line,
                start,
            )
        } else {
            on(emit(TokenType::Add, TokenType::Add.symbol(), line, col), curr + 1, line, start)
        }
    } else if ch == '-' {
        if has(chars, curr + 1, '-') {
            on(
                emit(TokenType::Decrement, TokenType::Decrement.symbol(), line, col),
                curr + 2,
                line,
                start,
            )
        } else if starts_number(chars, curr + 1) {
            let end = number_end(chars, curr + 1, false);
            on(emit(TokenType::Number, chars.subrange(curr, end), line, col), end, line, start)
        } else {
            on(
                emit(TokenType::Subtract, TokenType::Subtract.symbol(), line, col),
                curr + 1,
                line,
                start,
            )
        }
    } else if ch == '/' {
        if has(chars, curr + 1, '/') {
            on(Seq::empty(), line_end(chars, curr), line, start)
        } else {
            on(
                emit(TokenType::Divide, TokenType::Divide.symbol(), line, col),
                curr + 1,
                line,
                start,
            )
        }
    } else if ch == '=' {
        if has(chars, curr + 1, '>') {
            on(
                emit(TokenType::FuncPoint, TokenType::FuncPoint.symbol(), line, col),
                curr + 2,
                line,
                start,
            )
        } else {
            let end = run_end(chars, curr + 1, '=');
            if end == curr + 1 {
                on(
                    emit(TokenType::Equal, TokenType::Equal.symbol(), line, col),
                    end,
                    line,
                    start,
                )
            } else {
                on(
                    emit(equal_kind(end - curr), chars.subrange(curr, end), line, col),
                    end,
                    line,
                    start,
                )
            }
        }
    } else if ch == '<' {
        if has(chars, curr + 1, '=') {
            on(
                emit(TokenType::LessEqual, TokenType::LessEqual.symbol(), line, col),
                curr + 2,
                line,
                start,
            )
        } else {
            on(
                emit(TokenType::LessThan, TokenType::LessThan.symbol(), line, col),
                curr + 1,
                line,
                start,
            )
        }
    } else if ch == '>' {
        if has(chars, curr + 1, '=') {
            on(
                emit(TokenType::GreaterEqual, TokenType::GreaterEqual.symbol(), line, col),
                curr + 2,
                line,
                start,
            )
        } else {
            on(
                emit(TokenType::GreaterThan, TokenType::GreaterThan.symbol(), line, col),
                curr + 1,
                line,
                start,
            )
        }
    } else if is_quote(ch) {
        match string_scan(chars, curr) {
            Some((end, value)) => on(
                emit(
                    if interpolated(value) {
                        TokenType::InterpolatedString
                    } else {
                        TokenType::String
                    },
                    value,
                    line,
                    col,
                ),
                end + 1,
                line,
                start,
            ),
            None => Scan { tokens: Seq::empty(), next: curr + 1, line, start, failed: true },
        }
    } else if ch == ' ' || ch == '\t' {
        on(emit(TokenType::Whitespace, whitespace_value(ch), line, col), curr + 1, line, start)
    } else if is_digit(ch) {
        let end = number_end(chars, curr, false);
        on(emit(TokenType::Number, chars.subrange(curr, end), line, col), end, line, start)
    } else if alphabetic(ch) || ch == '_' {
        let end = name_end(chars, curr);
        on(emit(TokenType::Name, chars.subrange(curr, end), line, col), end, line, start)
    } else {
        on(Seq::empty(), curr + 1, line, start)
    }
}

/// The message of the error for a string that never ends.
pub open spec fn unclosed_string_message() -> Seq<char> {
    "Invalid string. Starting quotes do not match closing quotes."@
}

/// Makes one step of the lexer and appends what it finds to `tokens`. On success
/// returns where the next step starts, the line counter and the start of the line.
fn scan_token(
    chars: &Vec<char>,
    curr: usize,
    line: usize,
    start: usize,
    tokens: &mut Vec<Token>,
    filename: &str,
    code: &str,
) -> (r: Result<(usize, usize, usize), DreamberdError>)
    requires
        start <= curr < chars.len(),
        line < usize::MAX || chars@[curr as int] != '\n',
    ensures
        match r {
            Ok((next, l, s)) => {
                let step = scan(chars@, curr as int, line, start as int);
                &&& !step.failed
                &&& next == step.next
                &&& l == step.line
                &&& s == step.start
                &&& token_views(final(tokens)@) == token_views(old(tokens)@) + step.tokens
                &&& curr < next <= chars.len()
                &&& s <= next
                &&& l == line || (l == line + 1 && next == curr + 1)
            },
            Err(e) => {
                &&& scan(chars@, curr as int, line, start as int).failed
                &&& e is InterpretationError
                &&& e.text() == line_error_text(filename@, code@, line, unclosed_string_message())
            },
        },
{
    let ch = chars[curr];
    let col = curr - start;
    let ghost before = token_views(tokens@);
    assert(before + Seq::<TokenView>::empty() =~= before);
    if ch == '\n' {
        let l = line + 1;
        add_token(tokens, l, col, TokenType::Newline, None);
        return Ok((curr + 1, l, curr));
    }
    if let Some(t) = single_symbol(ch) {
        add_token(tokens, line, col, t, None);
        return Ok((curr + 1, line, start));
    }
    if ch == ';' {
        let end = scan_run(chars, curr + 1, '=');
        if end == curr + 1 {
            add_token(tokens, line, col, TokenType::Semicolon, None);
            return Ok((curr + 1, line, start));
        }
        add_token(tokens, line, col, TokenType::NotEqual, Some(text_of(chars, curr, end)));
        return Ok((end, line, start));
    }
    if ch == '+' {
        if curr + 1 < chars.len() && chars[curr + 1] == '+' {
            add_token(tokens, line, col, TokenType::Increment, None);
            return Ok((curr + 2, line, start));
        }
        add_token(tokens, line, col, TokenType::Add, None);
        return Ok((curr + 1, line, start));
    }
    if ch == '-' {
        if curr + 1 < chars.len() && chars[curr + 1] == '-' {
            add_token(tokens, line, col, TokenType::Decrement, None);
            return Ok((curr + 2, line, start));
        }
        if curr + 1 < chars.len() && (is_ascii_digit(chars[curr + 1]) || (chars[curr + 1] == '.'
            && curr + 2 < chars.len() && is_ascii_digit(chars[curr + 2]))) {
            let end = scan_number(chars, curr + 1);
            add_token(tokens, line, col, TokenType::Number, Some(text_of(chars, curr, end)));
            return Ok((end, line, start));
        }
        add_token(tokens, line, col, TokenType::Subtract, None);
        return Ok((curr + 1, line, start));
    }
    if ch == '/' {
        if curr + 1 < chars.len() && chars[curr + 1] == '/' {
            let end = scan_line(chars, curr);
            return Ok((end, line, start));
        }
        add_token(tokens, line, col, TokenType::Divide, None);
        return Ok((curr + 1, line, start));
    }
    if ch == '=' {
        if curr + 1 < chars.len() && chars[curr + 1] == '>' {
            add_token(tokens, line, col, TokenType::FuncPoint, None);
            return Ok((curr + 2, line, start));
        }
        let end = scan_run(chars, curr + 1, '=');
        let count = end - curr;
        if count == 1 {
            add_token(tokens, line, col, TokenType::Equal, None);
        } else if count == 2 {
            add_token(tokens, line, col, TokenType::EqualEqual, Some(text_of(chars, curr, end)));
        } else if count == 3 {
            add_token(
                tokens,
                line,
                col,
                TokenType::EqualEqualEqual,
                Some(text_of(chars, curr, end)),
            );
        } else {
            add_token(
                tokens,
                line,
                col,
                TokenType::EqualEqualEqualEqual,
                Some(text_of(chars, curr, end)),
            );
        }
        return Ok((end, line, start));
    }
    if ch == '<' {
        if curr + 1 < chars.len() && chars[curr + 1] == '=' {
            add_token(tokens, line, col, TokenType::LessEqual, None);
            return Ok((curr + 2, line, start));
        }
        add_token(tokens, line, col, TokenType::LessThan, None);
        return Ok((curr + 1, line, start));
    }
    if ch == '>' {
        if curr + 1 < chars.len() && chars[curr + 1] == '=' {
            add_token(tokens, line, col, TokenType::GreaterEqual, None);
            return Ok((curr + 2, line, start));
        }
        add_token(tokens, line, col, TokenType::GreaterThan, None);
        return Ok((curr + 1, line, start));
    }
    if ch == '"' || ch == '\'' {
        let (end, value) = match get_string_token(chars, curr, filename, code, line) {
            Ok(found) => found,
            Err(e) => {
                return Err(e);
            },
        };
        if has_interpolation(value.as_str()) {
            add_token(tokens, line, col, TokenType::InterpolatedString, Some(value));
        } else {
            add_token(tokens, line, col, TokenType::String, Some(value));
        }
        return Ok((end + 1, line, start));
    }
    if ch == ' ' || ch == '\t' {
        let ws = get_effective_whitespace_value(ch);
        add_token(tokens, line, col, TokenType::Whitespace, Some(String::from_str(ws)));
        return Ok((curr + 1, line, start));
    }
    if is_ascii_digit(ch) {
        let end = scan_number(chars, curr);
        add_token(tokens, line, col, TokenType::Number, Some(text_of(chars, curr, end)));
        return Ok((end, line, start));
    }
    if is_alphabetic(ch) || ch == '_' {
        let end = scan_name(chars, curr);
        add_token(tokens, line, col, TokenType::Name, Some(text_of(chars, curr, end)));
        return Ok((end, line, start));
    }
    Ok((curr + 1, line, start))
}

/// What the lexer makes of a text: its tokens, or the line of a string that never ends.
pub enum Lexed {
    Tokens(Seq<TokenView>),
    BadString(usize),
}

/// `done` before what `rest` holds.
pub open spec fn after(done: Seq<TokenView>, rest: Lexed) -> Lexed {
    match rest {
        Lexed::Tokens(more) => Lexed::Tokens(done + more),
        Lexed::BadString(line) => Lexed::BadString(line),
    }
}

/// The tokens of `chars` from `curr` on, which is on line `line` whose start is `start`.
pub open spec fn lex(chars: Seq<char>, curr: int, line: usize, start: int) -> Lexed
    decreases chars.len() - curr,
{
    if 0 <= start <= curr < chars.len() {
        let step = scan(chars, curr, line, start);
        if step.failed {
            Lexed::BadString(line)
        } else if step.next <= curr || step.next > chars.len() || step.start > step.next {
            Lexed::Tokens(step.tokens)
        } else {
            after(step.tokens, lex(chars, step.next, step.line, step.start))
        }
    } else {
        Lexed::Tokens(Seq::empty())
    }
}

/// The text that the lexer reads: the source followed by three spaces.
pub open spec fn padded(code: Seq<char>) -> Seq<char> {
    code + "   "@
}

/// Turns source text into tokens. Every token carries its line (counted from 1; a line
/// feed token carries the number of the line that it opens) and its column. Comments
/// from `//` to the end of the line and unknown characters yield no token. Inside a
/// string a backslash before a quote or a backslash gives that character. Fails, with
/// the line of the string, when a string literal never ends.
pub fn tokenize(filename: &str, code: &str) -> (r: Result<Vec<Token>, DreamberdError>)
    ensures
        match r {
            Ok(tokens) => lex(padded(code@), 0, 1, 0) == Lexed::Tokens(token_views(tokens@)),
            Err(e) => {
                &&& lex(padded(code@), 0, 1, 0) is BadString
                &&& e is InterpretationError
                &&& e.text() == line_error_text(
                    filename@,
                    padded(code@),
                    lex(padded(code@), 0, 1, 0)->BadString_0,
                    unclosed_string_message(),
                )
            },
        },
{
    let mut padded_code = String::from_str(code);
    padded_code.append("   ");
    let chars = chars_of(padded_code.as_str());
    proof {
        reveal_strlit("   ");
        assert(chars@.len() >= 3);
        assert(chars@[chars@.len() - 1] == ' ');
    }
    let mut tokens: Vec<Token> = Vec::new();
    let mut line: usize = 1;
    let mut curr: usize = 0;
    let mut start: usize = 0;
    assert(token_views(tokens@) =~= Seq::<TokenView>::empty());
    assert(after(Seq::<TokenView>::empty(), lex(chars@, 0, 1, 0)) == lex(chars@, 0, 1, 0)) by {
        match lex(chars@, 0, 1, 0) {
            Lexed::Tokens(more) => {
                assert(Seq::<TokenView>::empty() + more =~= more);
            },
            Lexed::BadString(_) => {},
        }
    }
    while curr < chars.len()
        invariant
            start <= curr <= chars.len(),
            line <= curr + 1,
            chars@ == padded(code@),
            chars@ == padded_code@,
            chars@.len() >= 3,
            chars@[chars@.len() - 1] == ' ',
            lex(chars@, 0, 1, 0) == after(
                token_views(tokens@),
                lex(chars@, curr as int, line, start as int),
            ),
        decreases chars.len() - curr,
    {
        let ghost done = token_views(tokens@);
        let ghost step = scan(chars@, curr as int, line, start as int);
        match scan_token(&chars, curr, line, start, &mut tokens, filename, padded_code.as_str()) {
            Ok((next, l, s)) => {
                proof {
                    let rest = lex(chars@, next as int, l, s as int);
                    match rest {
                        Lexed::Tokens(more) => {
                            assert(done + (step.tokens + more) =~= (done + step.tokens) + more);
                        },
                        Lexed::BadString(_) => {},
                    }
                }
                curr = next;
                line = l;
                start = s;
            },
            Err(e) => {
                return Err(e);
            },
        }
    }
    proof {
        assert(token_views(tokens@) + Seq::<TokenView>::empty() =~= token_views(tokens@));
    }
    Ok(tokens)
}

} // verus!
