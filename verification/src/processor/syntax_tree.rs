//! Statements, and the parser that builds them from tokens.

use crate::base::{DreamberdError, Token, TokenType, TokenView};
use crate::processor::expression_tree::{
    build_expression_tree, expr_view, expression_of, expressions_equal, plain_error,
    tokens_equal, views_of, ExprView, ExpressionTreeNode, Parsed,
};
use crate::text::{append_text, same_text};
use vstd::prelude::*;

verus! {

/// What every kind of statement can say of itself.
pub trait CodeStatementTrait {
    /// The name of the kind of statement.
    fn statement_type(&self) -> &'static str;
}

/// A statement.
#[derive(Debug, PartialEq)]
pub enum CodeStatement {
    FunctionDefinition(FunctionDefinition),
    ClassDeclaration(ClassDeclaration),
    VariableDeclaration(VariableDeclaration),
    VariableAssignment(VariableAssignment),
    IndexAssignment(IndexAssignment),
    Conditional(Conditional),
    ReturnStatement(ReturnStatement),
    ExpressionStatement(ExpressionStatement),
    WhenStatement(WhenStatement),
    AfterStatement(AfterStatement),
    DeleteStatement(DeleteStatement),
    ExportStatement(ExportStatement),
    ImportStatement(ImportStatement),
    ReverseStatement(ReverseStatement),
}

#[derive(Debug, PartialEq)]
pub struct FunctionDefinition {
    pub name: String,
    pub args: Vec<String>,
    pub body: Vec<CodeStatement>,
    pub is_async: bool,
    pub keywords: Vec<String>,
}

#[derive(Debug, PartialEq)]
pub struct ClassDeclaration {
    pub name: String,
    pub body: Vec<CodeStatement>,
    pub keywords: Vec<String>,
}

#[derive(Debug, PartialEq)]
pub struct VariableDeclaration {
    pub name: Token,
    /// The modifiers before the name, such as `const`, `const`.
    pub modifiers: Vec<String>,
    pub value: Option<ExpressionTreeNode>,
    /// The text between the angle brackets after the name, if any.
    pub lifetime: Option<String>,
    pub confidence: i32,
    /// How many question marks ended the statement.
    pub debug: u8,
}

#[derive(Debug, PartialEq)]
pub struct VariableAssignment {
    pub target: ExpressionTreeNode,
    pub value: ExpressionTreeNode,
    pub debug: u8,
}

#[derive(Debug, PartialEq)]
pub struct IndexAssignment {
    pub target: ExpressionTreeNode,
    pub index: ExpressionTreeNode,
    pub value: ExpressionTreeNode,
    pub debug: u8,
}

#[derive(Debug, PartialEq)]
pub struct Conditional {
    pub condition: ExpressionTreeNode,
    pub body: Vec<CodeStatement>,
    pub else_body: Option<Vec<CodeStatement>>,
    pub keywords: Vec<String>,
}

#[derive(Debug, PartialEq)]
pub struct ReturnStatement {
    pub value: Option<ExpressionTreeNode>,
    pub debug: u8,
}

#[derive(Debug, PartialEq)]
pub struct ExpressionStatement {
    pub expression: ExpressionTreeNode,
    pub debug: u8,
}

#[derive(Debug, PartialEq)]
pub struct WhenStatement {
    pub condition: ExpressionTreeNode,
    pub body: Vec<CodeStatement>,
}

#[derive(Debug, PartialEq)]
pub struct AfterStatement {
    pub event: String,
    pub body: Vec<CodeStatement>,
}

#[derive(Debug, PartialEq)]
pub struct DeleteStatement {
    pub target: ExpressionTreeNode,
}

#[derive(Debug, PartialEq)]
pub struct ExportStatement {
    pub name: String,
    pub target_file: String,
}

#[derive(Debug, PartialEq)]
pub struct ImportStatement {
    pub name: String,
}

#[derive(Debug, PartialEq)]
pub struct ReverseStatement;

/// What a statement is, with texts as sequences of characters.
#[allow(inconsistent_fields)]
pub enum StmtView {
    FunctionDefinition {
        name: Seq<char>,
        args: Seq<Seq<char>>,
        body: Seq<StmtView>,
        is_async: bool,
        keywords: Seq<Seq<char>>,
    },
    ClassDeclaration { name: Seq<char>, body: Seq<StmtView>, keywords: Seq<Seq<char>> },
    VariableDeclaration {
        name: TokenView,
        modifiers: Seq<Seq<char>>,
        value: Option<ExprView>,
        lifetime: Option<Seq<char>>,
        confidence: i32,
        debug: u8,
    },
    VariableAssignment { target: ExprView, value: ExprView, debug: u8 },
    IndexAssignment { target: ExprView, index: ExprView, value: ExprView, debug: u8 },
    Conditional {
        condition: ExprView,
        body: Seq<StmtView>,
        else_body: Option<Seq<StmtView>>,
        keywords: Seq<Seq<char>>,
    },
    ReturnStatement { value: Option<ExprView>, debug: u8 },
    ExpressionStatement { expression: ExprView, debug: u8 },
    WhenStatement { condition: ExprView, body: Seq<StmtView> },
    AfterStatement { event: Seq<char>, body: Seq<StmtView> },
    DeleteStatement { target: ExprView },
    ExportStatement { name: Seq<char>, target_file: Seq<char> },
    ImportStatement { name: Seq<char> },
    ReverseStatement,
}

/// The texts of a sequence of strings.
pub open spec fn texts(strings: Seq<String>) -> Seq<Seq<char>> {
    strings.map_values(|s: String| s@)
}

/// The view of an expression that may be absent.
pub open spec fn optional_view(e: Option<ExpressionTreeNode>) -> Option<ExprView> {
    match e {
        Some(e) => Some(expr_view(e)),
        None => None,
    }
}

/// The views of a sequence of statements.
pub open spec fn stmt_views(statements: Seq<CodeStatement>) -> Seq<StmtView>
    decreases statements,
{
    Seq::new(
        statements.len(),
        |i: int|
            if 0 <= i < statements.len() {
                stmt_view(statements[i])
            } else {
                arbitrary()
            },
    )
}

/// The view of a statement.
pub open spec fn stmt_view(statement: CodeStatement) -> StmtView
    decreases statement,
{
    match statement {
        CodeStatement::FunctionDefinition(f) => StmtView::FunctionDefinition {
            name: f.name@,
            args: texts(f.args@),
            body: stmt_views(f.body@),
            is_async: f.is_async,
            keywords: texts(f.keywords@),
        },
        CodeStatement::ClassDeclaration(c) => StmtView::ClassDeclaration {
            name: c.name@,
            body: stmt_views(c.body@),
            keywords: texts(c.keywords@),
        },
        CodeStatement::VariableDeclaration(d) => StmtView::VariableDeclaration {
            name: d.name@,
            modifiers: texts(d.modifiers@),
            value: optional_view(d.value),
            lifetime: match d.lifetime {
                Some(l) => Some(l@),
                None => None,
            },
            confidence: d.confidence,
            debug: d.debug,
        },
        CodeStatement::VariableAssignment(a) => StmtView::VariableAssignment {
            target: expr_view(a.target),
            value: expr_view(a.value),
            debug: a.debug,
        },
        CodeStatement::IndexAssignment(a) => StmtView::IndexAssignment {
            target: expr_view(a.target),
            index: expr_view(a.index),
            value: expr_view(a.value),
            debug: a.debug,
        },
        CodeStatement::Conditional(c) => StmtView::Conditional {
            condition: expr_view(c.condition),
            body: stmt_views(c.body@),
            else_body: match c.else_body {
                Some(b) => Some(stmt_views(b@)),
                None => None,
            },
            keywords: texts(c.keywords@),
        },
        CodeStatement::ReturnStatement(r) => StmtView::ReturnStatement {
            value: optional_view(r.value),
            debug: r.debug,
        },
        CodeStatement::ExpressionStatement(e) => StmtView::ExpressionStatement {
            expression: expr_view(e.expression),
            debug: e.debug,
        },
        CodeStatement::WhenStatement(w) => StmtView::WhenStatement {
            condition: expr_view(w.condition),
            body: stmt_views(w.body@),
        },
        CodeStatement::AfterStatement(a) => StmtView::AfterStatement {
            event: a.event@,
            body: stmt_views(a.body@),
        },
        CodeStatement::DeleteStatement(d) => StmtView::DeleteStatement {
            target: expr_view(d.target),
        },
        CodeStatement::ExportStatement(e) => StmtView::ExportStatement {
            name: e.name@,
            target_file: e.target_file@,
        },
        CodeStatement::ImportStatement(i) => StmtView::ImportStatement { name: i.name@ },
        CodeStatement::ReverseStatement(_) => StmtView::ReverseStatement,
    }
}

impl View for CodeStatement {
    type V = StmtView;

    open spec fn view(&self) -> StmtView {
        stmt_view(*self)
    }
}

/// The name of the kind of a statement.
pub open spec fn statement_kind(statement: CodeStatement) -> Seq<char> {
    match statement {
        CodeStatement::FunctionDefinition(_) => "FunctionDefinition"@,
        CodeStatement::ClassDeclaration(_) => "ClassDeclaration"@,
        CodeStatement::VariableDeclaration(_) => "VariableDeclaration"@,
        CodeStatement::VariableAssignment(_) => "VariableAssignment"@,
        CodeStatement::IndexAssignment(_) => "IndexAssignment"@,
        CodeStatement::Conditional(_) => "Conditional"@,
        CodeStatement::ReturnStatement(_) => "ReturnStatement"@,
        CodeStatement::ExpressionStatement(_) => "ExpressionStatement"@,
        CodeStatement::WhenStatement(_) => "WhenStatement"@,
        CodeStatement::AfterStatement(_) => "AfterStatement"@,
        CodeStatement::DeleteStatement(_) => "DeleteStatement"@,
        CodeStatement::ExportStatement(_) => "ExportStatement"@,
        CodeStatement::ImportStatement(_) => "ImportStatement"@,
        CodeStatement::ReverseStatement(_) => "ReverseStatement"@,
    }
}

impl CodeStatementTrait for CodeStatement {
    fn statement_type(&self) -> (r: &'static str)
        ensures
            r@ == statement_kind(*self),
    {
        match self {
            CodeStatement::FunctionDefinition(_) => "FunctionDefinition",
            CodeStatement::ClassDeclaration(_) => "ClassDeclaration",
            CodeStatement::VariableDeclaration(_) => "VariableDeclaration",
            CodeStatement::VariableAssignment(_) => "VariableAssignment",
            CodeStatement::IndexAssignment(_) => "IndexAssignment",
            CodeStatement::Conditional(_) => "Conditional",
            CodeStatement::ReturnStatement(_) => "ReturnStatement",
            CodeStatement::ExpressionStatement(_) => "ExpressionStatement",
            CodeStatement::WhenStatement(_) => "WhenStatement",
            CodeStatement::AfterStatement(_) => "AfterStatement",
            CodeStatement::DeleteStatement(_) => "DeleteStatement",
            CodeStatement::ExportStatement(_) => "ExportStatement",
            CodeStatement::ImportStatement(_) => "ImportStatement",
            CodeStatement::ReverseStatement(_) => "ReverseStatement",
        }
    }
}

/// How a token changes the depth of brackets of the kind that `open` opens and `close`
/// closes.
pub open spec fn depth_change(t: TokenType, open: TokenType, close: TokenType) -> int {
    if t == open {
        1
    } else if t == close {
        -1
    } else {
        0
    }
}

/// Where the expression that starts at `pos` ends: at the first token whose kind is in
/// `stops` and that stands outside all parentheses, brackets and braces opened since
/// `pos`, or at the end of the tokens. The three numbers are the depths at `pos`.
pub open spec fn expression_end(
    t: Seq<TokenView>,
    pos: int,
    stops: Seq<TokenType>,
    parens: int,
    brackets: int,
    braces: int,
) -> int
    decreases t.len() - pos,
{
    if 0 <= pos < t.len() {
        let kind = t[pos].token_type;
        if stops.contains(kind) && parens == 0 && brackets == 0 && braces == 0 {
            pos
        } else {
            expression_end(
                t,
                pos + 1,
                stops,
                parens + depth_change(kind, TokenType::LParen, TokenType::RParen),
                brackets + depth_change(kind, TokenType::LSquare, TokenType::RSquare),
                braces + depth_change(kind, TokenType::LCurly, TokenType::RCurly),
            )
        }
    } else {
        pos
    }
}

fn kind_in(kinds: &Vec<TokenType>, kind: TokenType) -> (r: bool)
    ensures
        r == kinds@.contains(kind),
{
    let mut i: usize = 0;
    while i < kinds.len()
        invariant
            i <= kinds.len(),
            forall|j: int| 0 <= j < i ==> kinds@[j] != kind,
        decreases kinds.len() - i,
    {
        if kinds[i] == kind {
            return true;
        }
        i += 1;
    }
    false
}

/// Takes the tokens of an expression: those from `pos` up to the first token whose
/// kind is in `stop_tokens` and that stands outside all brackets opened on the way.
fn collect_expression_tokens_until(
    tokens: &Vec<Token>,
    pos: &mut usize,
    stop_tokens: &Vec<TokenType>,
) -> (r: Vec<Token>)
    requires
        *old(pos) <= tokens.len(),
    ensures
        *old(pos) <= *final(pos) <= tokens.len(),
        *final(pos) == expression_end(views_of(tokens@), *old(pos) as int, stop_tokens@, 0, 0, 0),
        views_of(r@) == views_of(tokens@).subrange(*old(pos) as int, *final(pos) as int),
{
    let mut expr_tokens: Vec<Token> = Vec::new();
    let mut paren_depth: i128 = 0;
    let mut bracket_depth: i128 = 0;
    let mut brace_depth: i128 = 0;
    let ghost t = views_of(tokens@);
    let ghost begin = *pos as int;
    assert(views_of(expr_tokens@) =~= t.subrange(begin, begin));
    while *pos < tokens.len()
        invariant
            0 <= begin <= *pos <= tokens.len(),
            t == views_of(tokens@),
            -(*pos - begin) <= paren_depth <= *pos - begin,
            -(*pos - begin) <= bracket_depth <= *pos - begin,
            -(*pos - begin) <= brace_depth <= *pos - begin,
            expression_end(t, begin, stop_tokens@, 0, 0, 0) == expression_end(
                t,
                *pos as int,
                stop_tokens@,
                paren_depth as int,
                bracket_depth as int,
                brace_depth as int,
            ),
            views_of(expr_tokens@) == t.subrange(begin, *pos as int),
        ensures
            0 <= begin <= *pos <= tokens.len(),
            *pos == expression_end(t, begin, stop_tokens@, 0, 0, 0),
            views_of(expr_tokens@) == t.subrange(begin, *pos as int),
        decreases tokens.len() - *pos,
    {
        let token = &tokens[*pos];
        if kind_in(stop_tokens, token.token_type) && paren_depth == 0 && bracket_depth == 0
            && brace_depth == 0 {
            break ;
        }
        match token.token_type {
            TokenType::LParen => {
                paren_depth = paren_depth + 1;
            },
            TokenType::RParen => {
                paren_depth = paren_depth - 1;
            },
            TokenType::LSquare => {
                bracket_depth = bracket_depth + 1;
            },
            TokenType::RSquare => {
                bracket_depth = bracket_depth - 1;
            },
            TokenType::LCurly => {
                brace_depth = brace_depth + 1;
            },
            TokenType::RCurly => {
                brace_depth = brace_depth - 1;
            },
            _ => {},
        }
        let ghost before = expr_tokens@;
        expr_tokens.push(token.clone());
        assert(views_of(expr_tokens@) =~= t.subrange(begin, *pos + 1)) by {
            assert(views_of(before) == t.subrange(begin, *pos as int));
            assert(views_of(expr_tokens@) =~= views_of(before).push(t[*pos as int]));
        }
        *pos += 1;
    }
    expr_tokens
}

/// The kinds of token that end a statement.
pub open spec fn statement_stops() -> Seq<TokenType> {
    seq![TokenType::Bang, TokenType::Question, TokenType::Semicolon]
}

/// Takes the tokens of an expression up to the end of its statement.
fn collect_expression_tokens(tokens: &Vec<Token>, pos: &mut usize) -> (r: Vec<Token>)
    requires
        *old(pos) <= tokens.len(),
    ensures
        *old(pos) <= *final(pos) <= tokens.len(),
        *final(pos) == expression_end(
            views_of(tokens@),
            *old(pos) as int,
            statement_stops(),
            0,
            0,
            0,
        ),
        views_of(r@) == views_of(tokens@).subrange(*old(pos) as int, *final(pos) as int),
{
    let mut stops: Vec<TokenType> = Vec::new();
    stops.push(TokenType::Bang);
    stops.push(TokenType::Question);
    stops.push(TokenType::Semicolon);
    assert(stops@ =~= statement_stops());
    collect_expression_tokens_until(tokens, pos, &stops)
}

/// The end of the run of tokens of kind `kind` that starts at `pos`.
pub open spec fn kind_run_end(t: Seq<TokenView>, pos: int, kind: TokenType) -> int
    decreases t.len() - pos,
{
    if 0 <= pos < t.len() && t[pos].token_type == kind {
        kind_run_end(t, pos + 1, kind)
    } else {
        pos
    }
}

/// How many question marks stand at `pos`, counted up to 255.
pub open spec fn debug_level(t: Seq<TokenView>, pos: int) -> u8 {
    let n = kind_run_end(t, pos, TokenType::Question) - pos;
    if n > 255 {
        255u8
    } else {
        n as u8
    }
}

/// Reads the question marks at the end of a statement and counts them, up to 255.
fn parse_debug_markers(tokens: &Vec<Token>, pos: &mut usize) -> (debug: u8)
    requires
        *old(pos) <= tokens.len(),
    ensures
        *old(pos) <= *final(pos) <= tokens.len(),
        *final(pos) == kind_run_end(views_of(tokens@), *old(pos) as int, TokenType::Question),
        debug == debug_level(views_of(tokens@), *old(pos) as int),
{
    let mut debug: u8 = 0;
    let ghost t = views_of(tokens@);
    let ghost begin = *pos as int;
    while *pos < tokens.len() && tokens[*pos].token_type == TokenType::Question
        invariant
            begin <= *pos <= tokens.len(),
            t == views_of(tokens@),
            kind_run_end(t, begin, TokenType::Question) == kind_run_end(
                t,
                *pos as int,
                TokenType::Question,
            ),
            debug as int == if *pos - begin > 255 {
                255
            } else {
                *pos - begin
            },
        decreases tokens.len() - *pos,
    {
        if debug < 255 {
            debug += 1;
        }
        *pos += 1;
    }
    debug
}

/// The position after the `!` at `pos`, or `pos` if there is none.
pub open spec fn after_bang(t: Seq<TokenView>, pos: int) -> int {
    if 0 <= pos < t.len() && t[pos].token_type == TokenType::Bang {
        pos + 1
    } else {
        pos
    }
}

fn skip_bang(tokens: &Vec<Token>, pos: &mut usize)
    requires
        *old(pos) <= tokens.len(),
    ensures
        *final(pos) == after_bang(views_of(tokens@), *old(pos) as int),
        *old(pos) <= *final(pos) <= tokens.len(),
{
    if *pos < tokens.len() && tokens[*pos].token_type == TokenType::Bang {
        *pos += 1;
    }
}

/// Whether a text is a modifier of a declaration.
pub open spec fn is_modifier(v: Seq<char>) -> bool {
    v == "const"@ || v == "var"@
}

/// Whether a text is one of the words that start a function definition.
pub open spec fn is_function_word(v: Seq<char>) -> bool {
    v == "function"@ || v == "func"@ || v == "fun"@ || v == "fn"@ || v == "functi"@ || v
        == "union"@
}

/// Whether a text is one of the words that start a class declaration.
pub open spec fn is_class_word(v: Seq<char>) -> bool {
    v == "class"@ || v == "className"@
}

fn modifier_word(s: &str) -> (r: bool)
    ensures
        r == is_modifier(s@),
{
    same_text(s, "const") || same_text(s, "var")
}

fn function_word(s: &str) -> (r: bool)
    ensures
        r == is_function_word(s@),
{
    same_text(s, "function") || same_text(s, "func") || same_text(s, "fun") || same_text(s, "fn")
        || same_text(s, "functi") || same_text(s, "union")
}

fn class_word(s: &str) -> (r: bool)
    ensures
        r == is_class_word(s@),
{
    same_text(s, "class") || same_text(s, "className")
}

/// The end of the run of modifiers that starts at `pos`.
pub open spec fn modifiers_end(t: Seq<TokenView>, pos: int) -> int
    decreases t.len() - pos,
{
    if 0 <= pos < t.len() && is_modifier(t[pos].value) {
        modifiers_end(t, pos + 1)
    } else {
        pos
    }
}

/// The texts of the tokens from `from` up to `to`.
pub open spec fn values_between(t: Seq<TokenView>, from: int, to: int) -> Seq<Seq<char>> {
    Seq::new((to - from) as nat, |i: int| t[from + i].value)
}

/// The index of the first token of kind `kind` at or after `pos`, or the length.
pub open spec fn kind_end(t: Seq<TokenView>, pos: int, kind: TokenType) -> int
    decreases t.len() - pos,
{
    if 0 <= pos < t.len() && t[pos].token_type != kind {
        kind_end(t, pos + 1, kind)
    } else {
        pos
    }
}

/// The texts of the tokens from `from` up to `to`, one after the other.
pub open spec fn joined(t: Seq<TokenView>, from: int, to: int) -> Seq<char>
    decreases to - from,
{
    if to <= from {
        Seq::empty()
    } else {
        joined(t, from, to - 1) + t[to - 1].value
    }
}

/// The end of the run of function words and `async` that starts at `pos`.
pub open spec fn function_words_end(t: Seq<TokenView>, pos: int) -> int
    decreases t.len() - pos,
{
    if 0 <= pos < t.len() && (is_function_word(t[pos].value) || t[pos].value == "async"@) {
        function_words_end(t, pos + 1)
    } else {
        pos
    }
}

/// The texts of the tokens from `from` up to `to` that are not `async`.
pub open spec fn function_words(t: Seq<TokenView>, from: int, to: int) -> Seq<Seq<char>>
    decreases to - from,
{
    if to <= from {
        Seq::empty()
    } else if t[to - 1].value == "async"@ {
        function_words(t, from, to - 1)
    } else {
        function_words(t, from, to - 1).push(t[to - 1].value)
    }
}

/// Whether one of the tokens from `from` up to `to` is `async`.
pub open spec fn has_async(t: Seq<TokenView>, from: int, to: int) -> bool {
    exists|i: int| from <= i < to && #[trigger] t[i].value == "async"@
}

/// The end of a declaration from its equal sign at `p` on.
pub open spec fn declaration_value_at(
    t: Seq<TokenView>,
    pos: int,
    m_end: int,
    lifetime: Option<Seq<char>>,
    p: int,
) -> Parsed<StmtView> {
    if !(0 <= p < t.len()) || t[p].token_type != TokenType::Equal {
        Parsed::Failed { message: "Expected '=' in variable declaration"@ }
    } else {
        let v_end = expression_end(t, p + 1, statement_stops(), 0, 0, 0);
        match expression_of(t.subrange(p + 1, v_end)) {
            Err(message) => Parsed::Failed { message },
            Ok(value) => {
                let b = after_bang(t, v_end);
                Parsed::Done {
                    value: StmtView::VariableDeclaration {
                        name: t[m_end],
                        modifiers: values_between(t, pos, m_end),
                        value: Some(value),
                        lifetime,
                        confidence: 100,
                        debug: debug_level(t, b),
                    },
                    next: kind_run_end(t, b, TokenType::Question),
                }
            },
        }
    }
}

/// A declaration at `pos`: modifiers, a name, a lifetime in angle brackets if any, an
/// equal sign, a value, then `!` and question marks if any.
#[verifier::opaque]
pub open spec fn declaration_at(t: Seq<TokenView>, pos: int) -> Parsed<StmtView> {
    let m_end = modifiers_end(t, pos);
    if !(0 <= m_end < t.len()) || t[m_end].token_type != TokenType::Name {
        Parsed::Failed { message: "Expected variable name after modifiers"@ }
    } else {
        let p = m_end + 1;
        if p < t.len() && t[p].token_type == TokenType::LessThan {
            let e = kind_end(t, p + 1, TokenType::GreaterThan);
            if !(0 <= e < t.len()) {
                Parsed::Failed { message: "Expected '>' to close lifetime specifier"@ }
            } else {
                declaration_value_at(t, pos, m_end, Some(joined(t, p + 1, e)), e + 1)
            }
        } else {
            declaration_value_at(t, pos, m_end, None, p)
        }
    }
}

/// An expression statement at `pos`: an expression, then `;`, `!` and question marks
/// if any.
#[verifier::opaque]
pub open spec fn expression_statement_at(t: Seq<TokenView>, pos: int) -> Parsed<StmtView> {
    let e_end = expression_end(t, pos, statement_stops(), 0, 0, 0);
    match expression_of(t.subrange(pos, e_end)) {
        Err(message) => Parsed::Failed { message },
        Ok(expression) => {
            let p = if 0 <= e_end < t.len() && t[e_end].token_type == TokenType::Semicolon {
                e_end + 1
            } else {
                e_end
            };
            let b = after_bang(t, p);
            Parsed::Done {
                value: StmtView::ExpressionStatement { expression, debug: debug_level(t, b) },
                next: kind_run_end(t, b, TokenType::Question),
            }
        },
    }
}

/// A return statement at `pos`: `return`, question marks if any, a value if any, then
/// `!` if any.
#[verifier::opaque]
pub open spec fn return_at(t: Seq<TokenView>, pos: int) -> Parsed<StmtView> {
    let p = pos + 1;
    let d_end = kind_run_end(t, p, TokenType::Question);
    let debug = debug_level(t, p);
    if 0 <= d_end < t.len() && t[d_end].token_type != TokenType::Bang && t[d_end].token_type
        != TokenType::Question {
        let v_end = expression_end(t, d_end, statement_stops(), 0, 0, 0);
        match expression_of(t.subrange(d_end, v_end)) {
            Err(message) => Parsed::Failed { message },
            Ok(value) => Parsed::Done {
                value: StmtView::ReturnStatement { value: Some(value), debug },
                next: after_bang(t, v_end),
            },
        }
    } else {
        Parsed::Done {
            value: StmtView::ReturnStatement { value: None, debug },
            next: after_bang(t, d_end),
        }
    }
}

/// A delete statement at `pos`: `delete`, what to delete, then `!` if any.
#[verifier::opaque]
pub open spec fn delete_at(t: Seq<TokenView>, pos: int) -> Parsed<StmtView> {
    let v_end = expression_end(t, pos + 1, statement_stops(), 0, 0, 0);
    match expression_of(t.subrange(pos + 1, v_end)) {
        Err(message) => Parsed::Failed { message },
        Ok(target) => Parsed::Done {
            value: StmtView::DeleteStatement { target },
            next: after_bang(t, v_end),
        },
    }
}

/// An export statement at `pos`: `export`, a name, `to`, a file name, then `!` if any.
#[verifier::opaque]
pub open spec fn export_at(t: Seq<TokenView>, pos: int) -> Parsed<StmtView> {
    let p = pos + 1;
    if !(0 <= p < t.len()) || t[p].token_type != TokenType::Name {
        Parsed::Failed { message: "Expected name after export"@ }
    } else if p + 1 >= t.len() || t[p + 1].value != "to"@ {
        Parsed::Failed { message: "Expected 'to' after export name"@ }
    } else if p + 2 >= t.len() || t[p + 2].token_type != TokenType::String {
        Parsed::Failed { message: "Expected target filename after 'to'"@ }
    } else {
        Parsed::Done {
            value: StmtView::ExportStatement { name: t[p].value, target_file: t[p + 2].value },
            next: after_bang(t, p + 3),
        }
    }
}

/// An import statement at `pos`: `import`, a name, then `!` if any.
#[verifier::opaque]
pub open spec fn import_at(t: Seq<TokenView>, pos: int) -> Parsed<StmtView> {
    let p = pos + 1;
    if !(0 <= p < t.len()) || t[p].token_type != TokenType::Name {
        Parsed::Failed { message: "Expected name after import"@ }
    } else {
        Parsed::Done {
            value: StmtView::ImportStatement { name: t[p].value },
            next: after_bang(t, p + 1),
        }
    }
}

/// A reverse statement at `pos`: `reverse`, then `!` if any.
#[verifier::opaque]
pub open spec fn reverse_at(t: Seq<TokenView>, pos: int) -> Parsed<StmtView> {
    Parsed::Done { value: StmtView::ReverseStatement, next: after_bang(t, pos + 1) }
}

/// The parameters of a function from `pos` on, up to the closing parenthesis, which is
/// consumed too: names, which commas may set apart. `args` are those read so far.
pub open spec fn parameters_at(t: Seq<TokenView>, pos: int, args: Seq<Seq<char>>) -> Parsed<
    Seq<Seq<char>>,
>
    decreases t.len() - pos,
{
    if 0 <= pos < t.len() && t[pos].token_type != TokenType::RParen {
        let p = if args.len() > 0 && t[pos].token_type == TokenType::Comma {
            pos + 1
        } else {
            pos
        };
        if p < t.len() && t[p].token_type == TokenType::Name {
            parameters_at(t, p + 1, args.push(t[p].value))
        } else {
            Parsed::Failed { message: "Expected parameter name in function definition"@ }
        }
    } else if pos >= t.len() {
        Parsed::Failed { message: "Expected ')' after function parameters"@ }
    } else {
        Parsed::Done { value: args, next: pos + 1 }
    }
}

/// The kinds of token that end the condition of `if` and `when`.
pub open spec fn condition_stops() -> Seq<TokenType> {
    seq![TokenType::LCurly]
}

/// A statement at `pos`. The first token decides its kind: `const` or `var` start a
/// declaration, the function words a function definition, and so on; anything else is
/// an expression statement.
pub open spec fn statement_at(t: Seq<TokenView>, pos: int) -> Parsed<StmtView>
    decreases t.len() - pos, 1int,
{
    if !(0 <= pos < t.len()) {
        Parsed::Failed { message: "Unexpected end of input"@ }
    } else if t[pos].token_type == TokenType::Name {
        let word = t[pos].value;
        if is_modifier(word) {
            declaration_at(t, pos)
        } else if is_function_word(word) {
            function_at(t, pos)
        } else if is_class_word(word) {
            class_at(t, pos)
        } else if word == "if"@ {
            conditional_at(t, pos)
        } else if word == "when"@ {
            when_at(t, pos)
        } else if word == "after"@ {
            after_at(t, pos)
        } else if word == "return"@ {
            return_at(t, pos)
        } else if word == "delete"@ {
            delete_at(t, pos)
        } else if word == "export"@ {
            export_at(t, pos)
        } else if word == "import"@ {
            import_at(t, pos)
        } else if word == "reverse"@ {
            reverse_at(t, pos)
        } else {
            expression_statement_at(t, pos)
        }
    } else {
        expression_statement_at(t, pos)
    }
}

/// A function definition at `pos`: function words (`async` among them makes the
/// function asynchronous), a name, parameters in parentheses, `=>`, and a block.
pub open spec fn function_at(t: Seq<TokenView>, pos: int) -> Parsed<StmtView>
    decreases t.len() - pos, 0int,
{
    let k_end = function_words_end(t, pos);
    if !(0 <= k_end < t.len()) || t[k_end].token_type != TokenType::Name {
        Parsed::Failed { message: "Expected function name"@ }
    } else if k_end + 1 >= t.len() || t[k_end + 1].token_type != TokenType::LParen {
        Parsed::Failed { message: "Expected '(' after function name"@ }
    } else {
        match parameters_at(t, k_end + 2, Seq::empty()) {
            Parsed::Failed { message } => Parsed::Failed { message },
            Parsed::Done { value: args, next: q } => {
                if !(0 <= q < t.len()) || t[q].token_type != TokenType::FuncPoint {
                    Parsed::Failed { message: "Expected '=>' after function parameters"@ }
                } else if q + 1 >= t.len() || t[q + 1].token_type != TokenType::LCurly {
                    Parsed::Failed { message: "Expected '{' to start function body"@ }
                } else if q < pos {
                    Parsed::Failed { message: Seq::empty() }
                } else {
                    match block_at(t, q + 2, 1, Seq::empty()) {
                        Parsed::Failed { message } => Parsed::Failed { message },
                        Parsed::Done { value: body, next } => Parsed::Done {
                            value: StmtView::FunctionDefinition {
                                name: t[k_end].value,
                                args,
                                body,
                                is_async: has_async(t, pos, k_end),
                                keywords: function_words(t, pos, k_end),
                            },
                            next,
                        },
                    }
                }
            },
        }
    }
}

/// A class declaration at `pos`: a class word, a name, and a block.
pub open spec fn class_at(t: Seq<TokenView>, pos: int) -> Parsed<StmtView>
    decreases t.len() - pos, 0int,
{
    if !(0 <= pos < t.len()) {
        Parsed::Failed { message: "Expected class name"@ }
    } else {
        let worded = is_class_word(t[pos].value);
        let p = if worded {
            pos + 1
        } else {
            pos
        };
        if p >= t.len() || t[p].token_type != TokenType::Name {
            Parsed::Failed { message: "Expected class name"@ }
        } else if p + 1 >= t.len() || t[p + 1].token_type != TokenType::LCurly {
            Parsed::Failed { message: "Expected '{' to start class body"@ }
        } else {
            match block_at(t, p + 2, 1, Seq::empty()) {
                Parsed::Failed { message } => Parsed::Failed { message },
                Parsed::Done { value: body, next } => Parsed::Done {
                    value: StmtView::ClassDeclaration {
                        name: t[p].value,
                        body,
                        keywords: if worded {
                            seq![t[pos].value]
                        } else {
                            Seq::empty()
                        },
                    },
                    next,
                },
            }
        }
    }
}

/// A conditional at `pos`: `if`, a condition, a block, and `else` with a block if any.
pub open spec fn conditional_at(t: Seq<TokenView>, pos: int) -> Parsed<StmtView>
    decreases t.len() - pos, 0int,
{
    let c_end = expression_end(t, pos + 1, condition_stops(), 0, 0, 0);
    match expression_of(t.subrange(pos + 1, c_end)) {
        Err(message) => Parsed::Failed { message },
        Ok(condition) => {
            if !(0 <= c_end < t.len()) || t[c_end].token_type != TokenType::LCurly {
                Parsed::Failed { message: "Expected '{' after if condition"@ }
            } else if c_end < pos {
                Parsed::Failed { message: Seq::empty() }
            } else {
                match block_at(t, c_end + 1, 1, Seq::empty()) {
                    Parsed::Failed { message } => Parsed::Failed { message },
                    Parsed::Done { value: body, next: q } => {
                        if 0 <= q < t.len() && t[q].value == "else"@ {
                            if q + 1 >= t.len() || t[q + 1].token_type != TokenType::LCurly {
                                Parsed::Failed { message: "Expected '{' after else"@ }
                            } else if q < pos {
                                Parsed::Failed { message: Seq::empty() }
                            } else {
                                match block_at(t, q + 2, 1, Seq::empty()) {
                                    Parsed::Failed { message } => Parsed::Failed { message },
                                    Parsed::Done { value: else_body, next } => Parsed::Done {
                                        value: StmtView::Conditional {
                                            condition,
                                            body,
                                            else_body: Some(else_body),
                                            keywords: seq!["if"@],
                                        },
                                        next,
                                    },
                                }
                            }
                        } else {
                            Parsed::Done {
                                value: StmtView::Conditional {
                                    condition,
                                    body,
                                    else_body: None,
                                    keywords: seq!["if"@],
                                },
                                next: q,
                            }
                        }
                    },
                }
            }
        },
    }
}

/// A when statement at `pos`: `when`, a condition, and a block.
pub open spec fn when_at(t: Seq<TokenView>, pos: int) -> Parsed<StmtView>
    decreases t.len() - pos, 0int,
{
    let c_end = expression_end(t, pos + 1, condition_stops(), 0, 0, 0);
    match expression_of(t.subrange(pos + 1, c_end)) {
        Err(message) => Parsed::Failed { message },
        Ok(condition) => {
            if !(0 <= c_end < t.len()) || t[c_end].token_type != TokenType::LCurly {
                Parsed::Failed { message: "Expected '{' after when condition"@ }
            } else if c_end < pos {
                Parsed::Failed { message: Seq::empty() }
            } else {
                match block_at(t, c_end + 1, 1, Seq::empty()) {
                    Parsed::Failed { message } => Parsed::Failed { message },
                    Parsed::Done { value: body, next } => Parsed::Done {
                        value: StmtView::WhenStatement { condition, body },
                        next,
                    },
                }
            }
        },
    }
}

/// An after statement at `pos`: `after`, the event as a string, and a block.
pub open spec fn after_at(t: Seq<TokenView>, pos: int) -> Parsed<StmtView>
    decreases t.len() - pos, 0int,
{
    let p = pos + 1;
    if !(0 <= p < t.len()) || t[p].token_type != TokenType::String {
        Parsed::Failed { message: "Expected event string after 'after'"@ }
    } else if p + 1 >= t.len() || t[p + 1].token_type != TokenType::LCurly {
        Parsed::Failed { message: "Expected '{' after after event"@ }
    } else {
        match block_at(t, p + 2, 1, Seq::empty()) {
            Parsed::Failed { message } => Parsed::Failed { message },
            Parsed::Done { value: body, next } => Parsed::Done {
                value: StmtView::AfterStatement { event: t[p].value, body },
                next,
            },
        }
    }
}

/// The statements of a block from `pos` on, up to the brace that closes it, which is
/// consumed too. `braces` counts the braces that are open, the block's own among them;
/// a brace between statements opens or closes one more. `statements` are the
/// statements read so far.
pub open spec fn block_at(t: Seq<TokenView>, pos: int, braces: int, statements: Seq<StmtView>) -> Parsed<
    Seq<StmtView>,
>
    decreases t.len() - pos, 2int,
{
    if 0 <= pos < t.len() && braces > 0 {
        if t[pos].token_type == TokenType::LCurly {
            block_at(t, pos + 1, braces + 1, statements)
        } else if t[pos].token_type == TokenType::RCurly {
            if braces - 1 > 0 {
                block_at(t, pos + 1, braces - 1, statements)
            } else {
                Parsed::Done { value: statements, next: pos + 1 }
            }
        } else {
            match statement_at(t, pos) {
                Parsed::Done { value, next } => if pos < next <= t.len() {
                    block_at(t, next, braces, statements.push(value))
                } else {
                    Parsed::Failed { message: Seq::empty() }
                },
                Parsed::Failed { message } => Parsed::Failed { message },
            }
        }
    } else {
        Parsed::Failed { message: "Unclosed brace in statement block"@ }
    }
}

/// Whether what a statement parser returned is what `expected` says.
pub open spec fn statement_parsed(
    r: Result<CodeStatement, DreamberdError>,
    pos: usize,
    expected: Parsed<StmtView>,
) -> bool {
    match expected {
        Parsed::Done { value, next } => r is Ok && stmt_view(r->Ok_0) == value && pos == next,
        Parsed::Failed { message } => r is Err && r->Err_0 is NonFormattedError
            && r->Err_0.text() == message,
    }
}

/// The same for a block.
pub open spec fn block_parsed(
    r: Result<Vec<CodeStatement>, DreamberdError>,
    pos: usize,
    expected: Parsed<Seq<StmtView>>,
) -> bool {
    match expected {
        Parsed::Done { value, next } => r is Ok && stmt_views(r->Ok_0@) == value && pos == next,
        Parsed::Failed { message } => r is Err && r->Err_0 is NonFormattedError
            && r->Err_0.text() == message,
    }
}

proof fn lemma_push_statement(items: Seq<CodeStatement>, item: CodeStatement)
    ensures
        stmt_views(items.push(item)) == stmt_views(items).push(stmt_view(item)),
{
    assert(stmt_views(items.push(item)) =~= stmt_views(items).push(stmt_view(item)));
}

proof fn lemma_push_text(items: Seq<String>, item: String)
    ensures
        texts(items.push(item)) == texts(items).push(item@),
{
    assert(texts(items.push(item)) =~= texts(items).push(item@));
}

/// Parses one statement.
fn parse_statement(tokens: &Vec<Token>, pos: &mut usize, filename: &str, code: &str) -> (r: Result<
    CodeStatement,
    DreamberdError,
>)
    requires
        *old(pos) <= tokens.len(),
    ensures
        *old(pos) <= *final(pos) <= tokens.len(),
        r is Ok ==> *old(pos) < *final(pos),
        statement_parsed(r, *final(pos), statement_at(views_of(tokens@), *old(pos) as int)),
    decreases tokens.len() - *old(pos), 1int,
{
    if *pos >= tokens.len() {
        return Err(plain_error("Unexpected end of input"));
    }
    let token = &tokens[*pos];
    if token.token_type == TokenType::Name {
        let word = token.value.as_str();
        if modifier_word(word) {
            parse_variable_declaration(tokens, pos, filename, code)
        } else if function_word(word) {
            parse_function_definition(tokens, pos, filename, code)
        } else if class_word(word) {
            parse_class_declaration(tokens, pos, filename, code)
        } else if same_text(word, "if") {
            parse_conditional(tokens, pos, filename, code)
        } else if same_text(word, "when") {
            parse_when_statement(tokens, pos, filename, code)
        } else if same_text(word, "after") {
            parse_after_statement(tokens, pos, filename, code)
        } else if same_text(word, "return") {
            parse_return_statement(tokens, pos, filename, code)
        } else if same_text(word, "delete") {
            parse_delete_statement(tokens, pos, filename, code)
        } else if same_text(word, "export") {
            parse_export_statement(tokens, pos, filename, code)
        } else if same_text(word, "import") {
            parse_import_statement(tokens, pos, filename, code)
        } else if same_text(word, "reverse") {
            parse_reverse_statement(tokens, pos, filename, code)
        } else {
            parse_expression_statement(tokens, pos, filename, code)
        }
    } else {
        parse_expression_statement(tokens, pos, filename, code)
    }
}

/// Parses a declaration, such as `const const x = 5!`.
fn parse_variable_declaration(
    tokens: &Vec<Token>,
    pos: &mut usize,
    filename: &str,
    code: &str,
) -> (r: Result<CodeStatement, DreamberdError>)
    requires
        *old(pos) < tokens.len(),
        is_modifier(tokens@[*old(pos) as int].value@),
    ensures
        *old(pos) <= *final(pos) <= tokens.len(),
        r is Ok ==> *old(pos) < *final(pos),
        statement_parsed(r, *final(pos), declaration_at(views_of(tokens@), *old(pos) as int)),
{
    reveal(declaration_at);
    let ghost t = views_of(tokens@);
    let ghost begin = *pos as int;
    let mut modifiers: Vec<String> = Vec::new();
    assert(texts(modifiers@) =~= values_between(t, begin, begin));
    while *pos < tokens.len() && modifier_word(tokens[*pos].value.as_str())
        invariant
            0 <= begin <= *pos <= tokens.len(),
            t == views_of(tokens@),
            modifiers_end(t, begin) == modifiers_end(t, *pos as int),
            texts(modifiers@) == values_between(t, begin, *pos as int),
        decreases tokens.len() - *pos,
    {
        proof {
            lemma_push_text(modifiers@, tokens@[*pos as int].value);
            assert(values_between(t, begin, *pos as int).push(t[*pos as int].value)
                =~= values_between(t, begin, *pos + 1));
        }
        modifiers.push(tokens[*pos].value.clone());
        *pos += 1;
    }
    assert(*pos > begin);
    if *pos >= tokens.len() || tokens[*pos].token_type != TokenType::Name {
        return Err(plain_error("Expected variable name after modifiers"));
    }
    let name_token = tokens[*pos].clone();
    *pos += 1;
    let mut lifetime: Option<String> = None;
    if *pos < tokens.len() && tokens[*pos].token_type == TokenType::LessThan {
        *pos += 1;
        let mut lifetime_str = String::new();
        let ghost from = *pos as int;
        assert(lifetime_str@ =~= joined(t, from, from));
        while *pos < tokens.len() && tokens[*pos].token_type != TokenType::GreaterThan
            invariant
                0 <= from <= *pos <= tokens.len(),
                t == views_of(tokens@),
                kind_end(t, from, TokenType::GreaterThan) == kind_end(
                    t,
                    *pos as int,
                    TokenType::GreaterThan,
                ),
                lifetime_str@ == joined(t, from, *pos as int),
            decreases tokens.len() - *pos,
        {
            append_text(&mut lifetime_str, tokens[*pos].value.as_str());
            *pos += 1;
        }
        if *pos >= tokens.len() {
            return Err(plain_error("Expected '>' to close lifetime specifier"));
        }
        *pos += 1;
        lifetime = Some(lifetime_str);
    }
    if *pos >= tokens.len() || tokens[*pos].token_type != TokenType::Equal {
        return Err(plain_error("Expected '=' in variable declaration"));
    }
    *pos += 1;
    let value_tokens = collect_expression_tokens(tokens, pos);
    let value = match build_expression_tree(filename, value_tokens, code) {
        Ok(value) => value,
        Err(e) => {
            return Err(e);
        },
    };
    skip_bang(tokens, pos);
    let debug = parse_debug_markers(tokens, pos);
    Ok(
        CodeStatement::VariableDeclaration(
            VariableDeclaration {
                name: name_token,
                modifiers,
                value: Some(value),
                lifetime,
                confidence: 100,
                debug,
            },
        ),
    )
}

/// Parses a function definition, such as `function add(a, b) => { return a + b! }`.
#[verifier::loop_isolation(false)]
fn parse_function_definition(
    tokens: &Vec<Token>,
    pos: &mut usize,
    filename: &str,
    code: &str,
) -> (r: Result<CodeStatement, DreamberdError>)
    requires
        *old(pos) < tokens.len(),
    ensures
        *old(pos) <= *final(pos) <= tokens.len(),
        r is Ok ==> *old(pos) < *final(pos),
        statement_parsed(r, *final(pos), function_at(views_of(tokens@), *old(pos) as int)),
    decreases tokens.len() - *old(pos), 0int,
{
    let ghost t = views_of(tokens@);
    let ghost begin = *pos as int;
    let mut keywords: Vec<String> = Vec::new();
    let mut is_async = false;
    assert(texts(keywords@) =~= function_words(t, begin, begin));
    while *pos < tokens.len() && (function_word(tokens[*pos].value.as_str()) || same_text(
        tokens[*pos].value.as_str(),
        "async",
    ))
        invariant
            0 <= begin <= *pos <= tokens.len(),
            t == views_of(tokens@),
            function_words_end(t, begin) == function_words_end(t, *pos as int),
            texts(keywords@) == function_words(t, begin, *pos as int),
            is_async == has_async(t, begin, *pos as int),
        decreases tokens.len() - *pos,
    {
        let ghost here = *pos as int;
        if same_text(tokens[*pos].value.as_str(), "async") {
            is_async = true;
        } else {
            proof {
                lemma_push_text(keywords@, tokens@[*pos as int].value);
            }
            keywords.push(tokens[*pos].value.clone());
        }
        *pos += 1;
        proof {
            if has_async(t, begin, here + 1) {
                let i = choose|i: int| begin <= i < here + 1 && #[trigger] t[i].value == "async"@;
                if i < here {
                    assert(has_async(t, begin, here));
                }
            }
            if has_async(t, begin, here) {
                let i = choose|i: int| begin <= i < here && #[trigger] t[i].value == "async"@;
                assert(begin <= i < here + 1 && t[i].value == "async"@);
            }
            if t[here].value == "async"@ {
                assert(begin <= here < here + 1 && t[here].value == "async"@);
            }
        }
    }
    if *pos >= tokens.len() || tokens[*pos].token_type != TokenType::Name {
        return Err(plain_error("Expected function name"));
    }
    let name = tokens[*pos].value.clone();
    *pos += 1;
    if *pos >= tokens.len() || tokens[*pos].token_type != TokenType::LParen {
        return Err(plain_error("Expected '(' after function name"));
    }
    *pos += 1;
    let mut args: Vec<String> = Vec::new();
    let ghost from = *pos as int;
    assert(texts(args@) =~= Seq::<Seq<char>>::empty());
    while *pos < tokens.len() && tokens[*pos].token_type != TokenType::RParen
        invariant
            0 <= begin < from <= *pos <= tokens.len(),
            t == views_of(tokens@),
            parameters_at(t, from, Seq::empty()) == parameters_at(t, *pos as int, texts(args@)),
        decreases tokens.len() - *pos,
    {
        if args.len() > 0 {
            if tokens[*pos].token_type == TokenType::Comma {
                *pos += 1;
            }
        }
        if *pos < tokens.len() && tokens[*pos].token_type == TokenType::Name {
            proof {
                lemma_push_text(args@, tokens@[*pos as int].value);
            }
            args.push(tokens[*pos].value.clone());
            *pos += 1;
        } else {
            return Err(plain_error("Expected parameter name in function definition"));
        }
    }
    if *pos >= tokens.len() {
        return Err(plain_error("Expected ')' after function parameters"));
    }
    *pos += 1;
    if *pos >= tokens.len() || tokens[*pos].token_type != TokenType::FuncPoint {
        return Err(plain_error("Expected '=>' after function parameters"));
    }
    *pos += 1;
    if *pos >= tokens.len() || tokens[*pos].token_type != TokenType::LCurly {
        return Err(plain_error("Expected '{' to start function body"));
    }
    *pos += 1;
    let body = match parse_statement_block(tokens, pos, filename, code) {
        Ok(body) => body,
        Err(e) => {
            return Err(e);
        },
    };
    Ok(
        CodeStatement::FunctionDefinition(
            FunctionDefinition { name, args, body, is_async, keywords },
        ),
    )
}

/// Parses a class declaration, such as `class Player { ... }`.
fn parse_class_declaration(
    tokens: &Vec<Token>,
    pos: &mut usize,
    filename: &str,
    code: &str,
) -> (r: Result<CodeStatement, DreamberdError>)
    requires
        *old(pos) < tokens.len(),
    ensures
        *old(pos) <= *final(pos) <= tokens.len(),
        r is Ok ==> *old(pos) < *final(pos),
        statement_parsed(r, *final(pos), class_at(views_of(tokens@), *old(pos) as int)),
    decreases tokens.len() - *old(pos), 0int,
{
    let mut keywords: Vec<String> = Vec::new();
    assert(texts(keywords@) =~= Seq::<Seq<char>>::empty());
    if class_word(tokens[*pos].value.as_str()) {
        proof {
            lemma_push_text(keywords@, tokens@[*pos as int].value);
            assert(Seq::<Seq<char>>::empty().push(tokens@[*pos as int].value@)
                =~= seq![tokens@[*pos as int].value@]);
        }
        keywords.push(tokens[*pos].value.clone());
        *pos += 1;
    }
    if *pos >= tokens.len() || tokens[*pos].token_type != TokenType::Name {
        return Err(plain_error("Expected class name"));
    }
    let name = tokens[*pos].value.clone();
    *pos += 1;
    if *pos >= tokens.len() || tokens[*pos].token_type != TokenType::LCurly {
        return Err(plain_error("Expected '{' to start class body"));
    }
    *pos += 1;
    let body = match parse_statement_block(tokens, pos, filename, code) {
        Ok(body) => body,
        Err(e) => {
            return Err(e);
        },
    };
    Ok(CodeStatement::ClassDeclaration(ClassDeclaration { name, body, keywords }))
}

fn condition_stop_kinds() -> (r: Vec<TokenType>)
    ensures
        r@ == condition_stops(),
{
    let mut stops: Vec<TokenType> = Vec::new();
    stops.push(TokenType::LCurly);
    assert(stops@ =~= condition_stops());
    stops
}

/// Parses a conditional, such as `if (x > 5) { ... } else { ... }`.
fn parse_conditional(tokens: &Vec<Token>, pos: &mut usize, filename: &str, code: &str) -> (r:
    Result<CodeStatement, DreamberdError>)
    requires
        *old(pos) < tokens.len(),
    ensures
        *old(pos) <= *final(pos) <= tokens.len(),
        r is Ok ==> *old(pos) < *final(pos),
        statement_parsed(r, *final(pos), conditional_at(views_of(tokens@), *old(pos) as int)),
    decreases tokens.len() - *old(pos), 0int,
{
    *pos += 1;
    let stops = condition_stop_kinds();
    let condition_tokens = collect_expression_tokens_until(tokens, pos, &stops);
    let condition = match build_expression_tree(filename, condition_tokens, code) {
        Ok(c) => c,
        Err(e) => {
            return Err(e);
        },
    };
    if *pos >= tokens.len() || tokens[*pos].token_type != TokenType::LCurly {
        return Err(plain_error("Expected '{' after if condition"));
    }
    *pos += 1;
    let body = match parse_statement_block(tokens, pos, filename, code) {
        Ok(body) => body,
        Err(e) => {
            return Err(e);
        },
    };
    let mut else_body: Option<Vec<CodeStatement>> = None;
    if *pos < tokens.len() && same_text(tokens[*pos].value.as_str(), "else") {
        *pos += 1;
        if *pos >= tokens.len() || tokens[*pos].token_type != TokenType::LCurly {
            return Err(plain_error("Expected '{' after else"));
        }
        *pos += 1;
        else_body = Some(
            match parse_statement_block(tokens, pos, filename, code) {
                Ok(body) => body,
                Err(e) => {
                    return Err(e);
                },
            },
        );
    }
    let mut keywords: Vec<String> = Vec::new();
    keywords.push(String::from_str("if"));
    assert(texts(keywords@) =~= seq!["if"@]);
    Ok(CodeStatement::Conditional(Conditional { condition, body, else_body, keywords }))
}

/// Parses a when statement, such as `when (x > 5) { ... }`.
fn parse_when_statement(tokens: &Vec<Token>, pos: &mut usize, filename: &str, code: &str) -> (r:
    Result<CodeStatement, DreamberdError>)
    requires
        *old(pos) < tokens.len(),
    ensures
        *old(pos) <= *final(pos) <= tokens.len(),
        r is Ok ==> *old(pos) < *final(pos),
        statement_parsed(r, *final(pos), when_at(views_of(tokens@), *old(pos) as int)),
    decreases tokens.len() - *old(pos), 0int,
{
    *pos += 1;
    let stops = condition_stop_kinds();
    let condition_tokens = collect_expression_tokens_until(tokens, pos, &stops);
    let condition = match build_expression_tree(filename, condition_tokens, code) {
        Ok(c) => c,
        Err(e) => {
            return Err(e);
        },
    };
    if *pos >= tokens.len() || tokens[*pos].token_type != TokenType::LCurly {
        return Err(plain_error("Expected '{' after when condition"));
    }
    *pos += 1;
    let body = match parse_statement_block(tokens, pos, filename, code) {
        Ok(body) => body,
        Err(e) => {
            return Err(e);
        },
    };
    Ok(CodeStatement::WhenStatement(WhenStatement { condition, body }))
}

/// Parses an expression statement, such as `print x!`.
fn parse_expression_statement(
    tokens: &Vec<Token>,
    pos: &mut usize,
    filename: &str,
    code: &str,
) -> (r: Result<CodeStatement, DreamberdError>)
    requires
        *old(pos) <= tokens.len(),
    ensures
        *old(pos) <= *final(pos) <= tokens.len(),
        r is Ok ==> *old(pos) < *final(pos),
        statement_parsed(
            r,
            *final(pos),
            expression_statement_at(views_of(tokens@), *old(pos) as int),
        ),
{
    reveal(expression_statement_at);
    let expr_tokens = collect_expression_tokens(tokens, pos);
    let expression = match build_expression_tree(filename, expr_tokens, code) {
        Ok(e) => e,
        Err(e) => {
            return Err(e);
        },
    };
    if *pos < tokens.len() && tokens[*pos].token_type == TokenType::Semicolon {
        *pos += 1;
    }
    skip_bang(tokens, pos);
    let debug = parse_debug_markers(tokens, pos);
    Ok(CodeStatement::ExpressionStatement(ExpressionStatement { expression, debug }))
}

/// Parses a return statement, such as `return x!`.
fn parse_return_statement(
    tokens: &Vec<Token>,
    pos: &mut usize,
    filename: &str,
    code: &str,
) -> (r: Result<CodeStatement, DreamberdError>)
    requires
        *old(pos) < tokens.len(),
    ensures
        *old(pos) <= *final(pos) <= tokens.len(),
        r is Ok ==> *old(pos) < *final(pos),
        statement_parsed(r, *final(pos), return_at(views_of(tokens@), *old(pos) as int)),
{
    reveal(return_at);
    *pos += 1;
    let mut value: Option<ExpressionTreeNode> = None;
    let debug = parse_debug_markers(tokens, pos);
    if *pos < tokens.len() && tokens[*pos].token_type != TokenType::Bang && tokens[*pos].token_type
        != TokenType::Question {
        let expr_tokens = collect_expression_tokens(tokens, pos);
        value = Some(
            match build_expression_tree(filename, expr_tokens, code) {
                Ok(e) => e,
                Err(e) => {
                    return Err(e);
                },
            },
        );
    }
    skip_bang(tokens, pos);
    Ok(CodeStatement::ReturnStatement(ReturnStatement { value, debug }))
}

/// Parses a delete statement, such as `delete x!`.
fn parse_delete_statement(
    tokens: &Vec<Token>,
    pos: &mut usize,
    filename: &str,
    code: &str,
) -> (r: Result<CodeStatement, DreamberdError>)
    requires
        *old(pos) < tokens.len(),
    ensures
        *old(pos) <= *final(pos) <= tokens.len(),
        r is Ok ==> *old(pos) < *final(pos),
        statement_parsed(r, *final(pos), delete_at(views_of(tokens@), *old(pos) as int)),
{
    reveal(delete_at);
    *pos += 1;
    let expr_tokens = collect_expression_tokens(tokens, pos);
    let target = match build_expression_tree(filename, expr_tokens, code) {
        Ok(e) => e,
        Err(e) => {
            return Err(e);
        },
    };
    skip_bang(tokens, pos);
    Ok(CodeStatement::DeleteStatement(DeleteStatement { target }))
}

/// Parses an export statement, such as `export x to "file.gom"!`.
fn parse_export_statement(
    tokens: &Vec<Token>,
    pos: &mut usize,
    filename: &str,
    code: &str,
) -> (r: Result<CodeStatement, DreamberdError>)
    requires
        *old(pos) < tokens.len(),
    ensures
        *old(pos) <= *final(pos) <= tokens.len(),
        r is Ok ==> *old(pos) < *final(pos),
        statement_parsed(r, *final(pos), export_at(views_of(tokens@), *old(pos) as int)),
{
    reveal(export_at);
    *pos += 1;
    if *pos >= tokens.len() || tokens[*pos].token_type != TokenType::Name {
        return Err(plain_error("Expected name after export"));
    }
    let name = tokens[*pos].value.clone();
    *pos += 1;
    if *pos >= tokens.len() || !same_text(tokens[*pos].value.as_str(), "to") {
        return Err(plain_error("Expected 'to' after export name"));
    }
    *pos += 1;
    if *pos >= tokens.len() || tokens[*pos].token_type != TokenType::String {
        return Err(plain_error("Expected target filename after 'to'"));
    }
    let target_file = tokens[*pos].value.clone();
    *pos += 1;
    skip_bang(tokens, pos);
    Ok(CodeStatement::ExportStatement(ExportStatement { name, target_file }))
}

/// Parses an import statement, such as `import tools!`.
fn parse_import_statement(
    tokens: &Vec<Token>,
    pos: &mut usize,
    filename: &str,
    code: &str,
) -> (r: Result<CodeStatement, DreamberdError>)
    requires
        *old(pos) < tokens.len(),
    ensures
        *old(pos) <= *final(pos) <= tokens.len(),
        r is Ok ==> *old(pos) < *final(pos),
        statement_parsed(r, *final(pos), import_at(views_of(tokens@), *old(pos) as int)),
{
    reveal(import_at);
    *pos += 1;
    if *pos >= tokens.len() || tokens[*pos].token_type != TokenType::Name {
        return Err(plain_error("Expected name after import"));
    }
    let name = tokens[*pos].value.clone();
    *pos += 1;
    skip_bang(tokens, pos);
    Ok(CodeStatement::ImportStatement(ImportStatement { name }))
}

/// Parses a reverse statement: `reverse!`.
fn parse_reverse_statement(
    tokens: &Vec<Token>,
    pos: &mut usize,
    filename: &str,
    code: &str,
) -> (r: Result<CodeStatement, DreamberdError>)
    requires
        *old(pos) < tokens.len(),
    ensures
        *old(pos) <= *final(pos) <= tokens.len(),
        r is Ok ==> *old(pos) < *final(pos),
        statement_parsed(r, *final(pos), reverse_at(views_of(tokens@), *old(pos) as int)),
{
    reveal(reverse_at);
    *pos += 1;
    skip_bang(tokens, pos);
    Ok(CodeStatement::ReverseStatement(ReverseStatement))
}

/// Parses an after statement, such as `after "keydown:A" { ... }`.
fn parse_after_statement(tokens: &Vec<Token>, pos: &mut usize, filename: &str, code: &str) -> (r:
    Result<CodeStatement, DreamberdError>)
    requires
        *old(pos) < tokens.len(),
    ensures
        *old(pos) <= *final(pos) <= tokens.len(),
        r is Ok ==> *old(pos) < *final(pos),
        statement_parsed(r, *final(pos), after_at(views_of(tokens@), *old(pos) as int)),
    decreases tokens.len() - *old(pos), 0int,
{
    *pos += 1;
    if *pos >= tokens.len() || tokens[*pos].token_type != TokenType::String {
        return Err(plain_error("Expected event string after 'after'"));
    }
    let event = tokens[*pos].value.clone();
    *pos += 1;
    if *pos >= tokens.len() || tokens[*pos].token_type != TokenType::LCurly {
        return Err(plain_error("Expected '{' after after event"));
    }
    *pos += 1;
    let body = match parse_statement_block(tokens, pos, filename, code) {
        Ok(body) => body,
        Err(e) => {
            return Err(e);
        },
    };
    Ok(CodeStatement::AfterStatement(AfterStatement { event, body }))
}

/// Parses the statements of a block up to the brace that closes it. The opening brace
/// has been consumed.
fn parse_statement_block(tokens: &Vec<Token>, pos: &mut usize, filename: &str, code: &str) -> (r:
    Result<Vec<CodeStatement>, DreamberdError>)
    requires
        *old(pos) <= tokens.len(),
    ensures
        *old(pos) <= *final(pos) <= tokens.len(),
        r is Ok ==> *old(pos) < *final(pos),
        block_parsed(
            r,
            *final(pos),
            block_at(views_of(tokens@), *old(pos) as int, 1, Seq::empty()),
        ),
    decreases tokens.len() - *old(pos), 2int,
{
    let mut statements: Vec<CodeStatement> = Vec::new();
    let mut brace_count: u128 = 1;
    let ghost t = views_of(tokens@);
    let ghost begin = *pos as int;
    assert(stmt_views(statements@) =~= Seq::<StmtView>::empty());
    while *pos < tokens.len() && brace_count > 0
        invariant
            0 <= begin <= *pos <= tokens.len(),
            begin == *old(pos),
            t == views_of(tokens@),
            brace_count <= *pos - begin + 1,
            brace_count == 0 ==> *pos < tokens.len(),
            brace_count > 0 ==> block_at(t, begin, 1, Seq::empty()) == block_at(
                t,
                *pos as int,
                brace_count as int,
                stmt_views(statements@),
            ),
            brace_count == 0 ==> block_at(t, begin, 1, Seq::empty()) == (Parsed::Done {
                value: stmt_views(statements@),
                next: *pos + 1,
            }),
        decreases tokens.len() - *pos, brace_count,
    {
        match tokens[*pos].token_type {
            TokenType::LCurly => {
                brace_count = brace_count + 1;
                *pos += 1;
            },
            TokenType::RCurly => {
                brace_count = brace_count - 1;
                if brace_count > 0 {
                    *pos += 1;
                }
            },
            _ => {
                let stmt = match parse_statement(tokens, pos, filename, code) {
                    Ok(stmt) => stmt,
                    Err(e) => {
                        return Err(e);
                    },
                };
                proof {
                    lemma_push_statement(statements@, stmt);
                }
                statements.push(stmt);
            },
        }
    }
    if brace_count > 0 {
        return Err(plain_error("Unclosed brace in statement block"));
    }
    *pos += 1;
    Ok(statements)
}

/// The tokens that count for the parser: all but blanks and line feeds.
pub open spec fn significant(t: Seq<TokenView>) -> Seq<TokenView>
    decreases t.len(),
{
    if t.len() == 0 {
        Seq::empty()
    } else if t.last().token_type == TokenType::Whitespace || t.last().token_type
        == TokenType::Newline {
        significant(t.drop_last())
    } else {
        significant(t.drop_last()).push(t.last())
    }
}

/// The statements from `pos` on, after `statements`, or the message of the first error.
pub open spec fn statements_at(t: Seq<TokenView>, pos: int, statements: Seq<StmtView>) -> Result<
    Seq<StmtView>,
    Seq<char>,
>
    decreases t.len() - pos,
{
    if 0 <= pos < t.len() {
        match statement_at(t, pos) {
            Parsed::Done { value, next } => if pos < next <= t.len() {
                statements_at(t, next, statements.push(value))
            } else {
                Err(Seq::empty())
            },
            Parsed::Failed { message } => Err(message),
        }
    } else {
        Ok(statements)
    }
}

/// The statements that the tokens `t` write, or the message of the first error.
pub open spec fn program_of(t: Seq<TokenView>) -> Result<Seq<StmtView>, Seq<char>> {
    statements_at(significant(t), 0, Seq::empty())
}

/// Parses the tokens of a source text into its statements. Blanks and line feeds
/// between tokens do not count.
pub fn generate_syntax_tree(filename: &str, tokens: Vec<Token>, code: &str) -> (r: Result<
    Vec<CodeStatement>,
    DreamberdError,
>)
    ensures
        match program_of(views_of(tokens@)) {
            Ok(statements) => r is Ok && stmt_views(r->Ok_0@) == statements,
            Err(message) => r is Err && r->Err_0 is NonFormattedError && r->Err_0.text()
                == message,
        },
{
    let mut filtered: Vec<Token> = Vec::new();
    let mut i: usize = 0;
    let ghost all = views_of(tokens@);
    assert(all.take(0) =~= Seq::<TokenView>::empty());
    assert(views_of(filtered@) =~= Seq::<TokenView>::empty());
    while i < tokens.len()
        invariant
            i <= tokens.len(),
            all == views_of(tokens@),
            views_of(filtered@) == significant(all.take(i as int)),
        decreases tokens.len() - i,
    {
        proof {
            assert(all.take(i + 1).drop_last() =~= all.take(i as int));
            assert(all.take(i + 1).last() == all[i as int]);
        }
        let kind = tokens[i].token_type;
        if kind != TokenType::Whitespace && kind != TokenType::Newline {
            let ghost before = filtered@;
            filtered.push(tokens[i].clone());
            assert(views_of(filtered@) =~= views_of(before).push(all[i as int]));
        }
        i += 1;
    }
    assert(all.take(tokens.len() as int) =~= all);
    let ghost t = views_of(filtered@);
    let mut statements: Vec<CodeStatement> = Vec::new();
    let mut pos: usize = 0;
    assert(stmt_views(statements@) =~= Seq::<StmtView>::empty());
    while pos < filtered.len()
        invariant
            pos <= filtered.len(),
            t == views_of(filtered@),
            t == significant(views_of(tokens@)),
            statements_at(t, 0, Seq::empty()) == statements_at(
                t,
                pos as int,
                stmt_views(statements@),
            ),
        decreases filtered.len() - pos,
    {
        let stmt = match parse_statement(&filtered, &mut pos, filename, code) {
            Ok(stmt) => stmt,
            Err(e) => {
                return Err(e);
            },
        };
        proof {
            lemma_push_statement(statements@, stmt);
        }
        statements.push(stmt);
    }
    Ok(statements)
}

/// Whether two sequences of strings hold the same texts.
pub fn texts_equal(a: &Vec<String>, b: &Vec<String>) -> (r: bool)
    ensures
        r == (texts(a@) == texts(b@)),
{
    if a.len() != b.len() {
        assert(texts(a@).len() != texts(b@).len());
        return false;
    }
    let mut i: usize = 0;
    while i < a.len()
        invariant
            i <= a.len(),
            a.len() == b.len(),
            forall|j: int| 0 <= j < i ==> a@[j]@ == b@[j]@,
        decreases a.len() - i,
    {
        if a[i] != b[i] {
            assert(texts(a@)[i as int] != texts(b@)[i as int]);
            return false;
        }
        i += 1;
    }
    assert(texts(a@) =~= texts(b@));
    true
}

fn optional_expressions_equal(a: &Option<ExpressionTreeNode>, b: &Option<ExpressionTreeNode>) -> (r:
    bool)
    ensures
        r == (optional_view(*a) == optional_view(*b)),
{
    match a {
        Some(x) => match b {
            Some(y) => expressions_equal(x, y),
            None => false,
        },
        None => b.is_none(),
    }
}

fn optional_texts_equal(a: &Option<String>, b: &Option<String>) -> (r: bool)
    ensures
        r == (match *a {
            Some(x) => match *b {
                Some(y) => x@ == y@,
                None => false,
            },
            None => *b is None,
        }),
{
    match a {
        Some(x) => match b {
            Some(y) => *x == *y,
            None => false,
        },
        None => b.is_none(),
    }
}

/// Whether two sequences of statements are alike, item by item.
pub fn statement_lists_equal(a: &Vec<CodeStatement>, b: &Vec<CodeStatement>) -> (r: bool)
    ensures
        r == (stmt_views(a@) == stmt_views(b@)),
    decreases a,
{
    if a.len() != b.len() {
        assert(stmt_views(a@).len() != stmt_views(b@).len());
        return false;
    }
    let mut i: usize = 0;
    while i < a.len()
        invariant
            i <= a.len(),
            a.len() == b.len(),
            forall|j: int| 0 <= j < i ==> stmt_view(a@[j]) == stmt_view(b@[j]),
        decreases a.len() - i,
    {
        if !statements_equal(&a[i], &b[i]) {
            assert(stmt_views(a@)[i as int] != stmt_views(b@)[i as int]);
            return false;
        }
        i += 1;
    }
    assert(stmt_views(a@) =~= stmt_views(b@));
    true
}

/// Whether two statements are alike in every part.
pub fn statements_equal(a: &CodeStatement, b: &CodeStatement) -> (r: bool)
    ensures
        r == (stmt_view(*a) == stmt_view(*b)),
    decreases a,
{
    match a {
        CodeStatement::FunctionDefinition(x) => match b {
            CodeStatement::FunctionDefinition(y) => x.name == y.name && texts_equal(
                &x.args,
                &y.args,
            ) && x.is_async == y.is_async && texts_equal(&x.keywords, &y.keywords)
                && statement_lists_equal(&x.body, &y.body),
            _ => false,
        },
        CodeStatement::ClassDeclaration(x) => match b {
            CodeStatement::ClassDeclaration(y) => x.name == y.name && texts_equal(
                &x.keywords,
                &y.keywords,
            ) && statement_lists_equal(&x.body, &y.body),
            _ => false,
        },
        CodeStatement::VariableDeclaration(x) => match b {
            CodeStatement::VariableDeclaration(y) => tokens_equal(&x.name, &y.name)
                && texts_equal(&x.modifiers, &y.modifiers) && optional_expressions_equal(
                &x.value,
                &y.value,
            ) && optional_texts_equal(&x.lifetime, &y.lifetime) && x.confidence == y.confidence
                && x.debug == y.debug,
            _ => false,
        },
        CodeStatement::VariableAssignment(x) => match b {
            CodeStatement::VariableAssignment(y) => expressions_equal(&x.target, &y.target)
                && expressions_equal(&x.value, &y.value) && x.debug == y.debug,
            _ => false,
        },
        CodeStatement::IndexAssignment(x) => match b {
            CodeStatement::IndexAssignment(y) => expressions_equal(&x.target, &y.target)
                && expressions_equal(&x.index, &y.index) && expressions_equal(&x.value, &y.value)
                && x.debug == y.debug,
            _ => false,
        },
        CodeStatement::Conditional(x) => match b {
            CodeStatement::Conditional(y) => {
                let else_same = match &x.else_body {
                    Some(p) => match &y.else_body {
                        Some(q) => statement_lists_equal(p, q),
                        None => false,
                    },
                    None => y.else_body.is_none(),
                };
                else_same && expressions_equal(&x.condition, &y.condition) && texts_equal(
                    &x.keywords,
                    &y.keywords,
                ) && statement_lists_equal(&x.body, &y.body)
            },
            _ => false,
        },
        CodeStatement::ReturnStatement(x) => match b {
            CodeStatement::ReturnStatement(y) => optional_expressions_equal(&x.value, &y.value)
                && x.debug == y.debug,
            _ => false,
        },
        CodeStatement::ExpressionStatement(x) => match b {
            CodeStatement::ExpressionStatement(y) => expressions_equal(
                &x.expression,
                &y.expression,
            ) && x.debug == y.debug,
            _ => false,
        },
        CodeStatement::WhenStatement(x) => match b {
            CodeStatement::WhenStatement(y) => expressions_equal(&x.condition, &y.condition)
                && statement_lists_equal(&x.body, &y.body),
            _ => false,
        },
        CodeStatement::AfterStatement(x) => match b {
            CodeStatement::AfterStatement(y) => x.event == y.event && statement_lists_equal(
                &x.body,
                &y.body,
            ),
            _ => false,
        },
        CodeStatement::DeleteStatement(x) => match b {
            CodeStatement::DeleteStatement(y) => expressions_equal(&x.target, &y.target),
            _ => false,
        },
        CodeStatement::ExportStatement(x) => match b {
            CodeStatement::ExportStatement(y) => x.name == y.name && x.target_file
                == y.target_file,
            _ => false,
        },
        CodeStatement::ImportStatement(x) => match b {
            CodeStatement::ImportStatement(y) => x.name == y.name,
            _ => false,
        },
        CodeStatement::ReverseStatement(_) => match b {
            CodeStatement::ReverseStatement(_) => true,
            _ => false,
        },
    }
}

} // verus!
