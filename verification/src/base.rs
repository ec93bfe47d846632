//! Tokens, operators and errors shared by the lexer, the parser and the evaluator.

use crate::text::{
    append_text, chars_of, decimal, decimal_text, lines_of, nth_line, repeat_char, repeated,
    same_text,
};
use vstd::prelude::*;

verus! {

/// Characters that can be part of names (letters, digits, underscore and dot).
pub const ALPH_NUMS: &'static str = "abcdefghijklmnopqrstuvwxyzABCDEFGHIJKLMNOPQRSTUVWXYZ0123456789_.";

/// An error raised while reading or running a program.
#[derive(Debug)]
pub enum DreamberdError {
    /// An error whose message shows where in the source it arose.
    InterpretationError(String),
    /// An error that is a bare message.
    NonFormattedError(String),
}

impl DreamberdError {
    /// The message that the error carries.
    pub open spec fn text(&self) -> Seq<char> {
        match self {
            DreamberdError::InterpretationError(m) => m@,
            DreamberdError::NonFormattedError(m) => m@,
        }
    }

    /// The message that the error carries.
    pub fn message(&self) -> (m: String)
        ensures
            m@ == self.text(),
    {
        match self {
            DreamberdError::InterpretationError(m) => m.clone(),
            DreamberdError::NonFormattedError(m) => m.clone(),
        }
    }
}

/// The kinds of token.
#[derive(Debug, Clone, Copy, PartialEq, Eq, Hash, Structural)]
pub enum TokenType {
    RCurly,
    LCurly,
    RSquare,
    LSquare,
    LParen,
    RParen,
    Dot,
    Add,
    Increment,
    Decrement,
    Equal,
    EqualEqual,
    EqualEqualEqual,
    EqualEqualEqualEqual,
    Divide,
    Multiply,
    Subtract,
    Comma,
    Colon,
    Semicolon,
    Bang,
    Question,
    Caret,
    FuncPoint,
    LessThan,
    GreaterThan,
    LessEqual,
    GreaterEqual,
    NotEqual,
    Pipe,
    And,
    Number,
    Whitespace,
    Name,
    String,
    InterpolatedString,
    Newline,
    SingleQuote,
    DoubleQuote,
}

impl TokenType {
    /// The token kind that the text `s` writes, for the kinds with a fixed spelling.
    pub open spec fn of_symbol(s: Seq<char>) -> Option<TokenType> {
        if s == "}"@ {
            Some(TokenType::RCurly)
        } else if s == "{"@ {
            Some(TokenType::LCurly)
        } else if s == "]"@ {
            Some(TokenType::RSquare)
        } else if s == "["@ {
            Some(TokenType::LSquare)
        } else if s == "("@ {
            Some(TokenType::LParen)
        } else if s == ")"@ {
            Some(TokenType::RParen)
        } else if s == "."@ {
            Some(TokenType::Dot)
        } else if s == "+"@ {
            Some(TokenType::Add)
        } else if s == "++"@ {
            Some(TokenType::Increment)
        } else if s == "--"@ {
            Some(TokenType::Decrement)
        } else if s == "="@ {
            Some(TokenType::Equal)
        } else if s == "=="@ {
            Some(TokenType::EqualEqual)
        } else if s == "==="@ {
            Some(TokenType::EqualEqualEqual)
        } else if s == "===="@ {
            Some(TokenType::EqualEqualEqualEqual)
        } else if s == "/"@ {
            Some(TokenType::Divide)
        } else if s == "*"@ {
            Some(TokenType::Multiply)
        } else if s == "-"@ {
            Some(TokenType::Subtract)
        } else if s == ","@ {
            Some(TokenType::Comma)
        } else if s == ":"@ {
            Some(TokenType::Colon)
        } else if s == ";"@ {
            Some(TokenType::Semicolon)
        } else if s == "!"@ {
            Some(TokenType::Bang)
        } else if s == "?"@ {
            Some(TokenType::Question)
        } else if s == "^"@ {
            Some(TokenType::Caret)
        } else if s == "=>"@ {
            Some(TokenType::FuncPoint)
        } else if s == "<"@ {
            Some(TokenType::LessThan)
        } else if s == ">"@ {
            Some(TokenType::GreaterThan)
        } else if s == "<="@ {
            Some(TokenType::LessEqual)
        } else if s == ">="@ {
            Some(TokenType::GreaterEqual)
        } else if s == ";="@ {
            Some(TokenType::NotEqual)
        } else if s == "|"@ {
            Some(TokenType::Pipe)
        } else if s == "&"@ {
            Some(TokenType::And)
        } else if s == "\n"@ {
            Some(TokenType::Newline)
        } else if s == "'"@ {
            Some(TokenType::SingleQuote)
        } else if s == "\""@ {
            Some(TokenType::DoubleQuote)
        } else {
            None
        }
    }

    /// The spelling of a token kind; kinds without a fixed spelling have a placeholder.
    pub open spec fn symbol(self) -> Seq<char> {
        match self {
            TokenType::RCurly => "}"@,
            TokenType::LCurly => "{"@,
            TokenType::RSquare => "]"@,
            TokenType::LSquare => "["@,
            TokenType::LParen => "("@,
            TokenType::RParen => ")"@,
            TokenType::Dot => "."@,
            TokenType::Add => "+"@,
            TokenType::Increment => "++"@,
            TokenType::Decrement => "--"@,
            TokenType::Equal => "="@,
            TokenType::EqualEqual => "=="@,
            TokenType::EqualEqualEqual => "==="@,
            TokenType::EqualEqualEqualEqual => "===="@,
            TokenType::Divide => "/"@,
            TokenType::Multiply => "*"@,
            TokenType::Subtract => "-"@,
            TokenType::Comma => ","@,
            TokenType::Colon => ":"@,
            TokenType::Semicolon => ";"@,
            TokenType::Bang => "!"@,
            TokenType::Question => "?"@,
            TokenType::Caret => "^"@,
            TokenType::FuncPoint => "=>"@,
            TokenType::LessThan => "<"@,
            TokenType::GreaterThan => ">"@,
            TokenType::LessEqual => "<="@,
            TokenType::GreaterEqual => ">="@,
            TokenType::NotEqual => ";="@,
            TokenType::Pipe => "|"@,
            TokenType::And => "&"@,
            TokenType::Number => "NUMBER"@,
            TokenType::Newline => "\n"@,
            TokenType::SingleQuote => "'"@,
            TokenType::DoubleQuote => "\""@,
            TokenType::Whitespace => " "@,
            TokenType::Name => "NAME"@,
            TokenType::String => "STRING"@,
            TokenType::InterpolatedString => "INTERPOLATED"@,
        }
    }

    /// Reads a token kind from its spelling.
    pub fn from_str(s: &str) -> (r: Option<Self>)
        ensures
            r == Self::of_symbol(s@),
    {
        if same_text(s, "}") {
            Some(TokenType::RCurly)
        } else if same_text(s, "{") {
            Some(TokenType::LCurly)
        } else if same_text(s, "]") {
            Some(TokenType::RSquare)
        } else if same_text(s, "[") {
            Some(TokenType::LSquare)
        } else if same_text(s, "(") {
            Some(TokenType::LParen)
        } else if same_text(s, ")") {
            Some(TokenType::RParen)
        } else if same_text(s, ".") {
            Some(TokenType::Dot)
        } else if same_text(s, "+") {
            Some(TokenType::Add)
        } else if same_text(s, "++") {
            Some(TokenType::Increment)
        } else if same_text(s, "--") {
            Some(TokenType::Decrement)
        } else if same_text(s, "=") {
            Some(TokenType::Equal)
        } else if same_text(s, "==") {
            Some(TokenType::EqualEqual)
        } else if same_text(s, "===") {
            Some(TokenType::EqualEqualEqual)
        } else if same_text(s, "====") {
            Some(TokenType::EqualEqualEqualEqual)
        } else if same_text(s, "/") {
            Some(TokenType::Divide)
        } else if same_text(s, "*") {
            Some(TokenType::Multiply)
        } else if same_text(s, "-") {
            Some(TokenType::Subtract)
        } else if same_text(s, ",") {
            Some(TokenType::Comma)
        } else if same_text(s, ":") {
            Some(TokenType::Colon)
        } else if same_text(s, ";") {
            Some(TokenType::Semicolon)
        } else if same_text(s, "!") {
            Some(TokenType::Bang)
        } else if same_text(s, "?") {
            Some(TokenType::Question)
        } else if same_text(s, "^") {
            Some(TokenType::Caret)
        } else if same_text(s, "=>") {
            Some(TokenType::FuncPoint)
        } else if same_text(s, "<") {
            Some(TokenType::LessThan)
        } else if same_text(s, ">") {
            Some(TokenType::GreaterThan)
        } else if same_text(s, "<=") {
            Some(TokenType::LessEqual)
        } else if same_text(s, ">=") {
            Some(TokenType::GreaterEqual)
        } else if same_text(s, ";=") {
            Some(TokenType::NotEqual)
        } else if same_text(s, "|") {
            Some(TokenType::Pipe)
        } else if same_text(s, "&") {
            Some(TokenType::And)
        } else if same_text(s, "\n") {
            Some(TokenType::Newline)
        } else if same_text(s, "'") {
            Some(TokenType::SingleQuote)
        } else if same_text(s, "\"") {
            Some(TokenType::DoubleQuote)
        } else {
            None
        }
    }

    /// The spelling of a token kind.
    pub fn as_str(&self) -> (r: &'static str)
        ensures
            r@ == self.symbol(),
    {
        match self {
            TokenType::RCurly => "}",
            TokenType::LCurly => "{",
            TokenType::RSquare => "]",
            TokenType::LSquare => "[",
            TokenType::LParen => "(",
            TokenType::RParen => ")",
            TokenType::Dot => ".",
            TokenType::Add => "+",
            TokenType::Increment => "++",
            TokenType::Decrement => "--",
            TokenType::Equal => "=",
            TokenType::EqualEqual => "==",
            TokenType::EqualEqualEqual => "===",
            TokenType::EqualEqualEqualEqual => "====",
            TokenType::Divide => "/",
            TokenType::Multiply => "*",
            TokenType::Subtract => "-",
            TokenType::Comma => ",",
            TokenType::Colon => ":",
            TokenType::Semicolon => ";",
            TokenType::Bang => "!",
            TokenType::Question => "?",
            TokenType::Caret => "^",
            TokenType::FuncPoint => "=>",
            TokenType::LessThan => "<",
            TokenType::GreaterThan => ">",
            TokenType::LessEqual => "<=",
            TokenType::GreaterEqual => ">=",
            TokenType::NotEqual => ";=",
            TokenType::Pipe => "|",
            TokenType::And => "&",
            TokenType::Number => "NUMBER",
            TokenType::Newline => "\n",
            TokenType::SingleQuote => "'",
            TokenType::DoubleQuote => "\"",
            TokenType::Whitespace => " ",
            TokenType::Name => "NAME",
            TokenType::String => "STRING",
            TokenType::InterpolatedString => "INTERPOLATED",
        }
    }
}

/// The binary operators of expressions.
#[derive(Debug, Clone, Copy, PartialEq, Eq, Structural)]
pub enum OperatorType {
    Add,
    Sub,
    Mul,
    Div,
    Exp,
    Gt,
    Ge,
    Lt,
    Le,
    Or,
    And,
    Com,
    E,
    Ee,
    Eee,
    Eeee,
    Ne,
    Nee,
    Neee,
}

impl OperatorType {
    /// The operator that the text `s` writes.
    pub open spec fn of_symbol(s: Seq<char>) -> Option<OperatorType> {
        if s == "+"@ {
            Some(OperatorType::Add)
        } else if s == "-"@ {
            Some(OperatorType::Sub)
        } else if s == "*"@ {
            Some(OperatorType::Mul)
        } else if s == "/"@ {
            Some(OperatorType::Div)
        } else if s == "^"@ {
            Some(OperatorType::Exp)
        } else if s == ">"@ {
            Some(OperatorType::Gt)
        } else if s == ">="@ {
            Some(OperatorType::Ge)
        } else if s == "<"@ {
            Some(OperatorType::Lt)
        } else if s == "<="@ {
            Some(OperatorType::Le)
        } else if s == "|"@ {
            Some(OperatorType::Or)
        } else if s == "&"@ {
            Some(OperatorType::And)
        } else if s == ","@ {
            Some(OperatorType::Com)
        } else if s == "="@ {
            Some(OperatorType::E)
        } else if s == "=="@ {
            Some(OperatorType::Ee)
        } else if s == "==="@ {
            Some(OperatorType::Eee)
        } else if s == "===="@ {
            Some(OperatorType::Eeee)
        } else if s == ";="@ {
            Some(OperatorType::Ne)
        } else if s == ";=="@ {
            Some(OperatorType::Nee)
        } else if s == ";==="@ {
            Some(OperatorType::Neee)
        } else {
            None
        }
    }

    /// The spelling of an operator.
    pub open spec fn symbol(self) -> Seq<char> {
        match self {
            OperatorType::Add => "+"@,
            OperatorType::Sub => "-"@,
            OperatorType::Mul => "*"@,
            OperatorType::Div => "/"@,
            OperatorType::Exp => "^"@,
            OperatorType::Gt => ">"@,
            OperatorType::Ge => ">="@,
            OperatorType::Lt => "<"@,
            OperatorType::Le => "<="@,
            OperatorType::Or => "|"@,
            OperatorType::And => "&"@,
            OperatorType::Com => ","@,
            OperatorType::E => "="@,
            OperatorType::Ee => "=="@,
            OperatorType::Eee => "==="@,
            OperatorType::Eeee => "===="@,
            OperatorType::Ne => ";="@,
            OperatorType::Nee => ";=="@,
            OperatorType::Neee => ";==="@,
        }
    }

    /// Reads an operator from its spelling.
    pub fn from_str(s: &str) -> (r: Option<Self>)
        ensures
            r == Self::of_symbol(s@),
    {
        if same_text(s, "+") {
            Some(OperatorType::Add)
        } else if same_text(s, "-") {
            Some(OperatorType::Sub)
        } else if same_text(s, "*") {
            Some(OperatorType::Mul)
        } else if same_text(s, "/") {
            Some(OperatorType::Div)
        } else if same_text(s, "^") {
            Some(OperatorType::Exp)
        } else if same_text(s, ">") {
            Some(OperatorType::Gt)
        } else if same_text(s, ">=") {
            Some(OperatorType::Ge)
        } else if same_text(s, "<") {
            Some(OperatorType::Lt)
        } else if same_text(s, "<=") {
            Some(OperatorType::Le)
        } else if same_text(s, "|") {
            Some(OperatorType::Or)
        } else if same_text(s, "&") {
            Some(OperatorType::And)
        } else if same_text(s, ",") {
            Some(OperatorType::Com)
        } else if same_text(s, "=") {
            Some(OperatorType::E)
        } else if same_text(s, "==") {
            Some(OperatorType::Ee)
        } else if same_text(s, "===") {
            Some(OperatorType::Eee)
        } else if same_text(s, "====") {
            Some(OperatorType::Eeee)
        } else if same_text(s, ";=") {
            Some(OperatorType::Ne)
        } else if same_text(s, ";==") {
            Some(OperatorType::Nee)
        } else if same_text(s, ";===") {
            Some(OperatorType::Neee)
        } else {
            None
        }
    }

    /// The spelling of an operator.
    pub fn as_str(&self) -> (r: &'static str)
        ensures
            r@ == self.symbol(),
    {
        match self {
            OperatorType::Add => "+",
            OperatorType::Sub => "-",
            OperatorType::Mul => "*",
            OperatorType::Div => "/",
            OperatorType::Exp => "^",
            OperatorType::Gt => ">",
            OperatorType::Ge => ">=",
            OperatorType::Lt => "<",
            OperatorType::Le => "<=",
            OperatorType::Or => "|",
            OperatorType::And => "&",
            OperatorType::Com => ",",
            OperatorType::E => "=",
            OperatorType::Ee => "==",
            OperatorType::Eee => "===",
            OperatorType::Eeee => "====",
            OperatorType::Ne => ";=",
            OperatorType::Nee => ";==",
            OperatorType::Neee => ";===",
        }
    }
}

/// What a token is, with its text as a sequence of characters.
pub struct TokenView {
    pub token_type: TokenType,
    pub value: Seq<char>,
    pub line: usize,
    pub col: usize,
}

/// A lexical token: its kind, its text, and where it stands in the source.
#[derive(Debug, PartialEq, Eq, Hash)]
pub struct Token {
    pub token_type: TokenType,
    pub value: String,
    pub line: usize,
    pub col: usize,
}

impl View for Token {
    type V = TokenView;

    open spec fn view(&self) -> TokenView {
        TokenView {
            token_type: self.token_type,
            value: self.value@,
            line: self.line,
            col: self.col,
        }
    }
}

impl Clone for Token {
    fn clone(&self) -> (r: Self)
        ensures
            r == *self,
    {
        Token {
            token_type: self.token_type,
            value: self.value.clone(),
            line: self.line,
            col: self.col,
        }
    }
}

impl Token {
    pub fn new(token_type: TokenType, value: String, line: usize, col: usize) -> (t: Self)
        ensures
            t.token_type == token_type,
            t.value == value,
            t.line == line,
            t.col == col,
    {
        Token { token_type, value, line, col }
    }
}

/// A message on its own, set off by line feeds.
pub open spec fn bare_notice(message: Seq<char>) -> Seq<char> {
    seq!['\n'] + message + seq!['\n']
}

/// A message under the source line it is about, with carets under the token.
pub open spec fn token_notice(
    filename: Seq<char>,
    line_number: nat,
    line: Seq<char>,
    spaces: nat,
    carets: nat,
    message: Seq<char>,
) -> Seq<char> {
    filename + ", line "@ + decimal(line_number) + "\n\n  "@ + line + "\n "@ + repeated(' ', spaces)
        + repeated('^', carets) + "\n"@ + message
}

/// A message under the source line it is about.
pub open spec fn line_notice(
    filename: Seq<char>,
    line_number: nat,
    line: Seq<char>,
    message: Seq<char>,
) -> Seq<char> {
    filename + ", line "@ + decimal(line_number) + "\n\n  "@ + line + "\n\n"@ + message
}

/// How many spaces stand before the carets under a token that ends at column `col`
/// and is `width` wide.
pub open spec fn caret_indent(col: usize, width: usize) -> nat {
    if col >= width {
        if col - width == usize::MAX {
            col as nat
        } else {
            (col - width + 1) as nat
        }
    } else {
        1
    }
}

/// The message of an error at `token`.
pub open spec fn token_error_text(
    filename: Seq<char>,
    code: Seq<char>,
    message: Seq<char>,
    token: TokenView,
) -> Seq<char> {
    let width = vstd::utf8::encode_utf8(token.value).len() as usize;
    if code.len() == 0 || token.line == 0 || token.line > lines_of(code).len() {
        bare_notice(message)
    } else {
        token_notice(
            filename,
            token.line as nat,
            lines_of(code)[token.line - 1],
            caret_indent(token.col, width),
            width as nat,
            message,
        )
    }
}

/// The message of an error at line `line`.
pub open spec fn line_error_text(
    filename: Seq<char>,
    code: Seq<char>,
    line: usize,
    message: Seq<char>,
) -> Seq<char> {
    if code.len() == 0 || line == 0 || line > lines_of(code).len() {
        bare_notice(message)
    } else {
        line_notice(filename, line as nat, lines_of(code)[line - 1], message)
    }
}

fn bare_notice_text(message: &str) -> (s: String)
    ensures
        s@ == bare_notice(message@),
{
    let mut s = String::new();
    crate::text::push_char(&mut s, '\n');
    append_text(&mut s, message);
    crate::text::push_char(&mut s, '\n');
    assert(s@ =~= bare_notice(message@));
    s
}

/// Builds the error for a fault at `token`: the source line, carets under the token,
/// and the message. Without source text, or with a line outside it, only the message.
pub fn raise_error_at_token(filename: &str, code: &str, message: &str, token: &Token) -> (e:
    DreamberdError)
    ensures
        e is InterpretationError,
        e.text() == token_error_text(filename@, code@, message@, token@),
{
    if code.is_empty() || token.line == 0 {
        return DreamberdError::InterpretationError(bare_notice_text(message));
    }
    let chars = chars_of(code);
    match nth_line(&chars, token.line - 1) {
        None => DreamberdError::InterpretationError(bare_notice_text(message)),
        Some(line) => {
            let num_carets = token.value.as_str().len();
            let num_spaces = if token.col >= num_carets {
                let gap = token.col - num_carets;
                if gap == usize::MAX {
                    gap
                } else {
                    gap + 1
                }
            } else {
                1
            };
            let mut s = String::new();
            append_text(&mut s, filename);
            append_text(&mut s, ", line ");
            append_text(&mut s, decimal_text(token.line as u64).as_str());
            append_text(&mut s, "\n\n  ");
            append_text(&mut s, line.as_str());
            append_text(&mut s, "\n ");
            append_text(&mut s, repeat_char(' ', num_spaces).as_str());
            append_text(&mut s, repeat_char('^', num_carets).as_str());
            append_text(&mut s, "\n");
            append_text(&mut s, message);
            DreamberdError::InterpretationError(s)
        },
    }
}

/// Builds the error for a fault on line `line`: the source line and the message.
/// Without source text, or with a line outside it, only the message.
pub fn raise_error_at_line(filename: &str, code: &str, line: usize, message: &str) -> (e:
    DreamberdError)
    ensures
        e is InterpretationError,
        e.text() == line_error_text(filename@, code@, line, message@),
{
    if code.is_empty() || line == 0 {
        return DreamberdError::InterpretationError(bare_notice_text(message));
    }
    let chars = chars_of(code);
    match nth_line(&chars, line - 1) {
        None => DreamberdError::InterpretationError(bare_notice_text(message)),
        Some(text) => {
            let mut s = String::new();
            append_text(&mut s, filename);
            append_text(&mut s, ", line ");
            append_text(&mut s, decimal_text(line as u64).as_str());
            append_text(&mut s, "\n\n  ");
            append_text(&mut s, text.as_str());
            append_text(&mut s, "\n\n");
            append_text(&mut s, message);
            DreamberdError::InterpretationError(s)
        },
    }
}

} // verus!
