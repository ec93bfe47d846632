//! Expression trees, and the parser that builds them from tokens.

use crate::base::{DreamberdError, OperatorType, Token, TokenType, TokenView};
use crate::text::{append_text, same_text};
use vstd::prelude::*;

verus! {

/// An expression.
#[derive(Debug, PartialEq)]
pub enum ExpressionTreeNode {
    /// A literal or a name.
    Value(ValueNode),
    /// An operator before its operand.
    UnaryOp(SingleOperatorNode),
    /// An operator between two operands.
    BinaryOp(ExpressionNode),
    /// A call.
    Function(FunctionNode),
    /// `new` before a class name and arguments.
    Constructor(ConstructorNode),
    /// A value with an index in brackets.
    Index(IndexNode),
    /// A list in brackets.
    List(ListNode),
}

#[derive(Debug, PartialEq)]
pub struct ValueNode {
    pub token: Token,
}

#[derive(Debug, PartialEq)]
pub struct SingleOperatorNode {
    pub operator: Token,
    pub expression: Box<ExpressionTreeNode>,
}

#[derive(Debug, PartialEq)]
pub struct ExpressionNode {
    pub left: Box<ExpressionTreeNode>,
    pub right: Box<ExpressionTreeNode>,
    pub operator: OperatorType,
    pub operator_token: Token,
}

#[derive(Debug, PartialEq)]
pub struct FunctionNode {
    pub name: Token,
    pub args: Vec<ExpressionTreeNode>,
}

#[derive(Debug, PartialEq)]
pub struct ConstructorNode {
    pub class_name: Token,
    pub args: Vec<ExpressionTreeNode>,
}

#[derive(Debug, PartialEq)]
pub struct IndexNode {
    pub value: Box<ExpressionTreeNode>,
    pub index: Box<ExpressionTreeNode>,
}

#[derive(Debug, PartialEq)]
pub struct ListNode {
    pub values: Vec<ExpressionTreeNode>,
}

/// What an expression is, with texts as sequences of characters.
#[allow(inconsistent_fields)]
pub enum ExprView {
    Value(TokenView),
    UnaryOp { operator: TokenView, expression: Box<ExprView> },
    BinaryOp {
        left: Box<ExprView>,
        right: Box<ExprView>,
        operator: OperatorType,
        operator_token: TokenView,
    },
    Function { name: TokenView, args: Seq<ExprView> },
    Constructor { class_name: TokenView, args: Seq<ExprView> },
    Index { value: Box<ExprView>, index: Box<ExprView> },
    List { values: Seq<ExprView> },
}

/// The views of a sequence of expressions.
pub open spec fn expr_views(nodes: Seq<ExpressionTreeNode>) -> Seq<ExprView>
    decreases nodes,
{
    Seq::new(
        nodes.len(),
        |i: int|
            if 0 <= i < nodes.len() {
                expr_view(nodes[i])
            } else {
                arbitrary()
            },
    )
}

/// The view of an expression.
pub open spec fn expr_view(node: ExpressionTreeNode) -> ExprView
    decreases node,
{
    match node {
        ExpressionTreeNode::Value(v) => ExprView::Value(v.token@),
        ExpressionTreeNode::UnaryOp(op) => ExprView::UnaryOp {
            operator: op.operator@,
            expression: Box::new(expr_view(*op.expression)),
        },
        ExpressionTreeNode::BinaryOp(op) => ExprView::BinaryOp {
            left: Box::new(expr_view(*op.left)),
            right: Box::new(expr_view(*op.right)),
            operator: op.operator,
            operator_token: op.operator_token@,
        },
        ExpressionTreeNode::Function(f) => ExprView::Function {
            name: f.name@,
            args: expr_views(f.args@),
        },
        ExpressionTreeNode::Constructor(c) => ExprView::Constructor {
            class_name: c.class_name@,
            args: expr_views(c.args@),
        },
        ExpressionTreeNode::Index(i) => ExprView::Index {
            value: Box::new(expr_view(*i.value)),
            index: Box::new(expr_view(*i.index)),
        },
        ExpressionTreeNode::List(l) => ExprView::List { values: expr_views(l.values@) },
    }
}

impl View for ExpressionTreeNode {
    type V = ExprView;

    open spec fn view(&self) -> ExprView {
        expr_view(*self)
    }
}

impl ValueNode {
    pub fn new(token: Token) -> (n: Self)
        ensures
            n.token == token,
    {
        ValueNode { token }
    }
}

impl SingleOperatorNode {
    pub fn new(operator: Token, expression: ExpressionTreeNode) -> (n: Self)
        ensures
            n.operator == operator,
            *n.expression == expression,
    {
        SingleOperatorNode { operator, expression: Box::new(expression) }
    }
}

impl ExpressionNode {
    pub fn new(
        left: ExpressionTreeNode,
        right: ExpressionTreeNode,
        operator: OperatorType,
        operator_token: Token,
    ) -> (n: Self)
        ensures
            *n.left == left,
            *n.right == right,
            n.operator == operator,
            n.operator_token == operator_token,
    {
        ExpressionNode { left: Box::new(left), right: Box::new(right), operator, operator_token }
    }
}

impl FunctionNode {
    pub fn new(name: Token, args: Vec<ExpressionTreeNode>) -> (n: Self)
        ensures
            n.name == name,
            n.args == args,
    {
        FunctionNode { name, args }
    }
}

impl ConstructorNode {
    pub fn new(class_name: Token, args: Vec<ExpressionTreeNode>) -> (n: Self)
        ensures
            n.class_name == class_name,
            n.args == args,
    {
        ConstructorNode { class_name, args }
    }
}

impl IndexNode {
    pub fn new(value: ExpressionTreeNode, index: ExpressionTreeNode) -> (n: Self)
        ensures
            *n.value == value,
            *n.index == index,
    {
        IndexNode { value: Box::new(value), index: Box::new(index) }
    }
}

impl ListNode {
    pub fn new(values: Vec<ExpressionTreeNode>) -> (n: Self)
        ensures
            n.values == values,
    {
        ListNode { values }
    }
}

/// The binary operator that a token kind writes, if it writes one.
pub open spec fn binary_operator(t: TokenType) -> Option<OperatorType> {
    match t {
        TokenType::Add => Some(OperatorType::Add),
        TokenType::Subtract => Some(OperatorType::Sub),
        TokenType::Multiply => Some(OperatorType::Mul),
        TokenType::Divide => Some(OperatorType::Div),
        TokenType::Caret => Some(OperatorType::Exp),
        TokenType::Equal => Some(OperatorType::E),
        TokenType::NotEqual => Some(OperatorType::Ne),
        TokenType::EqualEqual => Some(OperatorType::Ee),
        TokenType::EqualEqualEqual => Some(OperatorType::Eee),
        TokenType::EqualEqualEqualEqual => Some(OperatorType::Eeee),
        TokenType::LessThan => Some(OperatorType::Lt),
        TokenType::GreaterThan => Some(OperatorType::Gt),
        TokenType::LessEqual => Some(OperatorType::Le),
        TokenType::GreaterEqual => Some(OperatorType::Ge),
        TokenType::Pipe => Some(OperatorType::Or),
        TokenType::And => Some(OperatorType::And),
        _ => None,
    }
}

fn operator_of(t: TokenType) -> (r: Option<OperatorType>)
    ensures
        r == binary_operator(t),
{
    match t {
        TokenType::Add => Some(OperatorType::Add),
        TokenType::Subtract => Some(OperatorType::Sub),
        TokenType::Multiply => Some(OperatorType::Mul),
        TokenType::Divide => Some(OperatorType::Div),
        TokenType::Caret => Some(OperatorType::Exp),
        TokenType::Equal => Some(OperatorType::E),
        TokenType::NotEqual => Some(OperatorType::Ne),
        TokenType::EqualEqual => Some(OperatorType::Ee),
        TokenType::EqualEqualEqual => Some(OperatorType::Eee),
        TokenType::EqualEqualEqualEqual => Some(OperatorType::Eeee),
        TokenType::LessThan => Some(OperatorType::Lt),
        TokenType::GreaterThan => Some(OperatorType::Gt),
        TokenType::LessEqual => Some(OperatorType::Le),
        TokenType::GreaterEqual => Some(OperatorType::Ge),
        TokenType::Pipe => Some(OperatorType::Or),
        TokenType::And => Some(OperatorType::And),
        _ => None,
    }
}

/// How tightly an operator binds; a higher number binds tighter.
pub open spec fn precedence(op: OperatorType) -> int {
    match op {
        OperatorType::Or => 1,
        OperatorType::And => 2,
        OperatorType::E
        | OperatorType::Ee
        | OperatorType::Eee
        | OperatorType::Eeee
        | OperatorType::Ne
        | OperatorType::Nee
        | OperatorType::Neee
        | OperatorType::Lt
        | OperatorType::Le
        | OperatorType::Gt
        | OperatorType::Ge => 3,
        OperatorType::Add | OperatorType::Sub => 4,
        OperatorType::Mul | OperatorType::Div => 5,
        OperatorType::Exp => 6,
        OperatorType::Com => 0,
    }
}

fn get_precedence(op: OperatorType) -> (p: i32)
    ensures
        p == precedence(op),
{
    match op {
        OperatorType::Or => 1,
        OperatorType::And => 2,
        OperatorType::E
        | OperatorType::Ee
        | OperatorType::Eee
        | OperatorType::Eeee
        | OperatorType::Ne
        | OperatorType::Nee
        | OperatorType::Neee
        | OperatorType::Lt
        | OperatorType::Le
        | OperatorType::Gt
        | OperatorType::Ge => 3,
        OperatorType::Add | OperatorType::Sub => 4,
        OperatorType::Mul | OperatorType::Div => 5,
        OperatorType::Exp => 6,
        _ => 0,
    }
}

pub(crate) fn plain_error(message: &str) -> (e: DreamberdError)
    ensures
        e is NonFormattedError,
        e.text() == message@,
{
    DreamberdError::NonFormattedError(String::from_str(message))
}

/// The name of a token kind, as error messages write it.
pub open spec fn kind_name(t: TokenType) -> Seq<char> {
    match t {
        TokenType::RCurly => "RCurly"@,
        TokenType::LCurly => "LCurly"@,
        TokenType::RSquare => "RSquare"@,
        TokenType::LSquare => "LSquare"@,
        TokenType::LParen => "LParen"@,
        TokenType::RParen => "RParen"@,
        TokenType::Dot => "Dot"@,
        TokenType::Add => "Add"@,
        TokenType::Increment => "Increment"@,
        TokenType::Decrement => "Decrement"@,
        TokenType::Equal => "Equal"@,
        TokenType::EqualEqual => "EqualEqual"@,
        TokenType::EqualEqualEqual => "EqualEqualEqual"@,
        TokenType::EqualEqualEqualEqual => "EqualEqualEqualEqual"@,
        TokenType::Divide => "Divide"@,
        TokenType::Multiply => "Multiply"@,
        TokenType::Subtract => "Subtract"@,
        TokenType::Comma => "Comma"@,
        TokenType::Colon => "Colon"@,
        TokenType::Semicolon => "Semicolon"@,
        TokenType::Bang => "Bang"@,
        TokenType::Question => "Question"@,
        TokenType::Caret => "Caret"@,
        TokenType::FuncPoint => "FuncPoint"@,
        TokenType::LessThan => "LessThan"@,
        TokenType::GreaterThan => "GreaterThan"@,
        TokenType::LessEqual => "LessEqual"@,
        TokenType::GreaterEqual => "GreaterEqual"@,
        TokenType::NotEqual => "NotEqual"@,
        TokenType::Pipe => "Pipe"@,
        TokenType::And => "And"@,
        TokenType::Number => "Number"@,
        TokenType::Whitespace => "Whitespace"@,
        TokenType::Name => "Name"@,
        TokenType::String => "String"@,
        TokenType::InterpolatedString => "InterpolatedString"@,
        TokenType::Newline => "Newline"@,
        TokenType::SingleQuote => "SingleQuote"@,
        TokenType::DoubleQuote => "DoubleQuote"@,
    }
}

/// The name of a token kind, as error messages write it.
pub fn token_type_name(t: TokenType) -> (r: &'static str)
    ensures
        r@ == kind_name(t),
{
    match t {
        TokenType::RCurly => "RCurly",
        TokenType::LCurly => "LCurly",
        TokenType::RSquare => "RSquare",
        TokenType::LSquare => "LSquare",
        TokenType::LParen => "LParen",
        TokenType::RParen => "RParen",
        TokenType::Dot => "Dot",
        TokenType::Add => "Add",
        TokenType::Increment => "Increment",
        TokenType::Decrement => "Decrement",
        TokenType::Equal => "Equal",
        TokenType::EqualEqual => "EqualEqual",
        TokenType::EqualEqualEqual => "EqualEqualEqual",
        TokenType::EqualEqualEqualEqual => "EqualEqualEqualEqual",
        TokenType::Divide => "Divide",
        TokenType::Multiply => "Multiply",
        TokenType::Subtract => "Subtract",
        TokenType::Comma => "Comma",
        TokenType::Colon => "Colon",
        TokenType::Semicolon => "Semicolon",
        TokenType::Bang => "Bang",
        TokenType::Question => "Question",
        TokenType::Caret => "Caret",
        TokenType::FuncPoint => "FuncPoint",
        TokenType::LessThan => "LessThan",
        TokenType::GreaterThan => "GreaterThan",
        TokenType::LessEqual => "LessEqual",
        TokenType::GreaterEqual => "GreaterEqual",
        TokenType::NotEqual => "NotEqual",
        TokenType::Pipe => "Pipe",
        TokenType::And => "And",
        TokenType::Number => "Number",
        TokenType::Whitespace => "Whitespace",
        TokenType::Name => "Name",
        TokenType::String => "String",
        TokenType::InterpolatedString => "InterpolatedString",
        TokenType::Newline => "Newline",
        TokenType::SingleQuote => "SingleQuote",
        TokenType::DoubleQuote => "DoubleQuote",
    }
}

/// Whether a kind of token ends the arguments of a `print` without parentheses.
pub open spec fn ends_print(t: TokenType) -> bool {
    t == TokenType::Bang || t == TokenType::Question || t == TokenType::Semicolon || t
        == TokenType::RCurly
}

fn is_print_end(t: TokenType) -> (r: bool)
    ensures
        r == ends_print(t),
{
    t == TokenType::Bang || t == TokenType::Question || t == TokenType::Semicolon || t
        == TokenType::RCurly
}

/// What a parser makes of the tokens from some position on: a value and the position
/// after it, or the message of an error.
pub enum Parsed<T> {
    Done { value: T, next: int },
    Failed { message: Seq<char> },
}

/// Whether what a parsing function returned is what `expected` says: on success the
/// view of its result and the position it left, on failure the message of a bare error.
pub open spec fn expression_parsed(
    r: Result<ExpressionTreeNode, DreamberdError>,
    pos: usize,
    expected: Parsed<ExprView>,
) -> bool {
    match expected {
        Parsed::Done { value, next } => r is Ok && expr_view(r->Ok_0) == value && pos == next,
        Parsed::Failed { message } => r is Err && r->Err_0 is NonFormattedError
            && r->Err_0.text() == message,
    }
}

/// The same for a sequence of expressions.
pub open spec fn sequence_parsed(
    r: Result<Vec<ExpressionTreeNode>, DreamberdError>,
    pos: usize,
    expected: Parsed<Seq<ExprView>>,
) -> bool {
    match expected {
        Parsed::Done { value, next } => r is Ok && expr_views(r->Ok_0@) == value && pos == next,
        Parsed::Failed { message } => r is Err && r->Err_0 is NonFormattedError
            && r->Err_0.text() == message,
    }
}

/// A primary expression at `pos`: a literal, a name, a call, a constructor call, a
/// list, an expression in parentheses, or `;` (not) before a primary expression.
pub open spec fn primary_at(t: Seq<TokenView>, pos: int) -> Parsed<ExprView>
    decreases t.len() - pos, 0int,
{
    if !(0 <= pos < t.len()) {
        Parsed::Failed { message: "Unexpected end of expression"@ }
    } else {
        let token = t[pos];
        let p = pos + 1;
        match token.token_type {
            TokenType::Name => {
                if token.value == "new"@ {
                    if p >= t.len() || t[p].token_type != TokenType::Name {
                        Parsed::Failed { message: "Expected class name after 'new'"@ }
                    } else if p + 1 < t.len() && t[p + 1].token_type == TokenType::LParen {
                        match sequence_at(
                            t,
                            p + 2,
                            TokenType::RParen,
                            "Expected closing parenthesis in constructor call"@,
                            Seq::empty(),
                        ) {
                            Parsed::Done { value, next } => Parsed::Done {
                                value: ExprView::Constructor { class_name: t[p], args: value },
                                next,
                            },
                            Parsed::Failed { message } => Parsed::Failed { message },
                        }
                    } else {
                        Parsed::Failed {
                            message: "Expected parentheses after constructor class name"@,
                        }
                    }
                } else if token.value == "print"@ && p < t.len() && t[p].token_type
                    != TokenType::LParen {
                    match print_arguments_at(t, p, Seq::empty()) {
                        Parsed::Done { value, next } => Parsed::Done {
                            value: ExprView::Function { name: token, args: value },
                            next,
                        },
                        Parsed::Failed { message } => Parsed::Failed { message },
                    }
                } else if p < t.len() && t[p].token_type == TokenType::LParen {
                    match sequence_at(
                        t,
                        p + 1,
                        TokenType::RParen,
                        "Expected closing parenthesis in function call"@,
                        Seq::empty(),
                    ) {
                        Parsed::Done { value, next } => Parsed::Done {
                            value: ExprView::Function { name: token, args: value },
                            next,
                        },
                        Parsed::Failed { message } => Parsed::Failed { message },
                    }
                } else {
                    Parsed::Done { value: ExprView::Value(token), next: p }
                }
            },
            TokenType::String | TokenType::Number | TokenType::InterpolatedString => Parsed::Done {
                value: ExprView::Value(token),
                next: p,
            },
            TokenType::LSquare => match sequence_at(
                t,
                p,
                TokenType::RSquare,
                "Expected closing bracket in list literal"@,
                Seq::empty(),
            ) {
                Parsed::Done { value, next } => Parsed::Done {
                    value: ExprView::List { values: value },
                    next,
                },
                Parsed::Failed { message } => Parsed::Failed { message },
            },
            TokenType::LParen => match expression_at(t, p, 0) {
                Parsed::Done { value, next } => if !(0 <= next < t.len()) || t[next].token_type
                    != TokenType::RParen {
                    Parsed::Failed { message: "Expected closing parenthesis"@ }
                } else {
                    Parsed::Done { value, next: next + 1 }
                },
                Parsed::Failed { message } => Parsed::Failed { message },
            },
            TokenType::Semicolon => match primary_at(t, p) {
                Parsed::Done { value, next } => Parsed::Done {
                    value: ExprView::UnaryOp { operator: token, expression: Box::new(value) },
                    next,
                },
                Parsed::Failed { message } => Parsed::Failed { message },
            },
            _ => Parsed::Failed {
                message: "Unexpected token in expression: "@ + kind_name(token.token_type),
            },
        }
    }
}

/// The arguments of a `print` without parentheses, from `pos` on: primary expressions,
/// each with the indexing in brackets that follows it, up to the end of the statement
/// or of the block. `args` are those read so far.
pub open spec fn print_arguments_at(t: Seq<TokenView>, pos: int, args: Seq<ExprView>) -> Parsed<
    Seq<ExprView>,
>
    decreases t.len() - pos, 1int,
{
    if 0 <= pos < t.len() && !ends_print(t[pos].token_type) {
        match primary_at(t, pos) {
            Parsed::Done { value, next } => if pos < next <= t.len() {
                match indexes_at(t, next, value) {
                    Parsed::Done { value: indexed, next: after } => if next <= after <= t.len() {
                        print_arguments_at(t, after, args.push(indexed))
                    } else {
                        Parsed::Failed { message: Seq::empty() }
                    },
                    Parsed::Failed { message } => Parsed::Failed { message },
                }
            } else {
                Parsed::Failed { message: Seq::empty() }
            },
            Parsed::Failed { message } => Parsed::Failed { message },
        }
    } else {
        Parsed::Done { value: args, next: pos }
    }
}

/// Extends the expression `left`, which ends before `pos`, by the indexing in
/// brackets that follows it.
pub open spec fn indexes_at(t: Seq<TokenView>, pos: int, left: ExprView) -> Parsed<ExprView>
    decreases t.len() - pos, 3int,
{
    if 0 <= pos < t.len() && t[pos].token_type == TokenType::LSquare {
        match expression_at(t, pos + 1, 0) {
            Parsed::Done { value, next } => if !(0 <= next < t.len()) || t[next].token_type
                != TokenType::RSquare {
                Parsed::Failed { message: "Expected closing bracket in index operation"@ }
            } else if next < pos {
                Parsed::Failed { message: Seq::empty() }
            } else {
                indexes_at(
                    t,
                    next + 1,
                    ExprView::Index { value: Box::new(left), index: Box::new(value) },
                )
            },
            Parsed::Failed { message } => Parsed::Failed { message },
        }
    } else {
        Parsed::Done { value: left, next: pos }
    }
}

/// The items of a call or a list from `pos` on, up to the token of kind `close`, which
/// is consumed too. Items may be set apart by commas. `items` are those read so far;
/// `missing` is the message when the tokens end before `close`.
pub open spec fn sequence_at(
    t: Seq<TokenView>,
    pos: int,
    close: TokenType,
    missing: Seq<char>,
    items: Seq<ExprView>,
) -> Parsed<Seq<ExprView>>
    decreases t.len() - pos, 2int,
{
    if 0 <= pos < t.len() && t[pos].token_type != close {
        let p = if items.len() > 0 && t[pos].token_type == TokenType::Comma {
            pos + 1
        } else {
            pos
        };
        match expression_at(t, p, 0) {
            Parsed::Done { value, next } => if pos < next <= t.len() {
                sequence_at(t, next, close, missing, items.push(value))
            } else {
                Parsed::Failed { message: Seq::empty() }
            },
            Parsed::Failed { message } => Parsed::Failed { message },
        }
    } else if pos >= t.len() {
        Parsed::Failed { message: missing }
    } else {
        Parsed::Done { value: items, next: pos + 1 }
    }
}

/// An expression at `pos`: a primary expression, then what `climb_at` adds to it.
pub open spec fn expression_at(t: Seq<TokenView>, pos: int, min_precedence: int) -> Parsed<
    ExprView,
>
    decreases t.len() - pos, 1int,
{
    match primary_at(t, pos) {
        Parsed::Done { value, next } => if pos < next <= t.len() {
            climb_at(t, next, min_precedence, value)
        } else {
            Parsed::Failed { message: Seq::empty() }
        },
        Parsed::Failed { message } => Parsed::Failed { message },
    }
}

/// Extends the expression `left`, which ends before `pos`, by indexing in brackets and
/// by binary operators that bind at least as tightly as `min_precedence`; the right
/// operand of an operator holds only operators that bind tighter than it.
pub open spec fn climb_at(t: Seq<TokenView>, pos: int, min_precedence: int, left: ExprView) -> Parsed<
    ExprView,
>
    decreases t.len() - pos, 3int,
{
    if 0 <= pos < t.len() {
        let token = t[pos];
        if token.token_type == TokenType::LSquare {
            match expression_at(t, pos + 1, 0) {
                Parsed::Done { value, next } => if !(0 <= next < t.len()) || t[next].token_type
                    != TokenType::RSquare {
                    Parsed::Failed { message: "Expected closing bracket in index operation"@ }
                } else if next < pos {
                    Parsed::Failed { message: Seq::empty() }
                } else {
                    climb_at(
                        t,
                        next + 1,
                        min_precedence,
                        ExprView::Index { value: Box::new(left), index: Box::new(value) },
                    )
                },
                Parsed::Failed { message } => Parsed::Failed { message },
            }
        } else {
            match binary_operator(token.token_type) {
                None => Parsed::Done { value: left, next: pos },
                Some(op) => if precedence(op) < min_precedence {
                    Parsed::Done { value: left, next: pos }
                } else {
                    match expression_at(t, pos + 1, precedence(op) + 1) {
                        Parsed::Done { value, next } => if pos < next <= t.len() {
                            climb_at(
                                t,
                                next,
                                min_precedence,
                                ExprView::BinaryOp {
                                    left: Box::new(left),
                                    right: Box::new(value),
                                    operator: op,
                                    operator_token: token,
                                },
                            )
                        } else {
                            Parsed::Failed { message: Seq::empty() }
                        },
                        Parsed::Failed { message } => Parsed::Failed { message },
                    }
                },
            }
        }
    } else {
        Parsed::Done { value: left, next: pos }
    }
}

/// The views of the tokens of a vector.
pub open spec fn views_of(tokens: Seq<Token>) -> Seq<TokenView> {
    tokens.map_values(|t: Token| t@)
}

proof fn lemma_push_view(items: Seq<ExpressionTreeNode>, item: ExpressionTreeNode)
    ensures
        expr_views(items.push(item)) == expr_views(items).push(expr_view(item)),
{
    assert(expr_views(items.push(item)) =~= expr_views(items).push(expr_view(item)));
}

/// Reads the arguments of a call or the items of a list, up to the token of kind
/// `close`, which it consumes. Items may be set apart by commas.
fn parse_sequence(
    tokens: &Vec<Token>,
    pos: &mut usize,
    close: TokenType,
    missing: &str,
    filename: &str,
    code: &str,
) -> (r: Result<Vec<ExpressionTreeNode>, DreamberdError>)
    requires
        *old(pos) <= tokens.len(),
    ensures
        *old(pos) <= *final(pos) <= tokens.len(),
        r is Ok ==> *old(pos) < *final(pos),
        sequence_parsed(
            r,
            *final(pos),
            sequence_at(views_of(tokens@), *old(pos) as int, close, missing@, Seq::empty()),
        ),
    decreases tokens.len() - *old(pos), 2int,
{
    let mut items: Vec<ExpressionTreeNode> = Vec::new();
    let ghost t = views_of(tokens@);
    assert(expr_views(items@) =~= Seq::<ExprView>::empty());
    while *pos < tokens.len() && tokens[*pos].token_type != close
        invariant
            *old(pos) <= *pos <= tokens.len(),
            t == views_of(tokens@),
            sequence_at(t, *old(pos) as int, close, missing@, Seq::empty()) == sequence_at(
                t,
                *pos as int,
                close,
                missing@,
                expr_views(items@),
            ),
        decreases tokens.len() - *pos,
    {
        if items.len() > 0 {
            if tokens[*pos].token_type == TokenType::Comma {
                *pos += 1;
            }
        }
        let item = match parse_expression_recursive(tokens, pos, 0, filename, code) {
            Ok(item) => item,
            Err(e) => {
                return Err(e);
            },
        };
        proof {
            lemma_push_view(items@, item);
        }
        items.push(item);
    }
    if *pos >= tokens.len() {
        return Err(plain_error(missing));
    }
    *pos += 1;
    Ok(items)
}

/// Parses an expression by precedence climbing: a primary expression, then indexing
/// in brackets and binary operators that bind at least as tightly as `min_precedence`.
fn parse_expression_recursive(
    tokens: &Vec<Token>,
    pos: &mut usize,
    min_precedence: i32,
    filename: &str,
    code: &str,
) -> (r: Result<ExpressionTreeNode, DreamberdError>)
    requires
        *old(pos) <= tokens.len(),
        min_precedence <= 7,
    ensures
        *old(pos) <= *final(pos) <= tokens.len(),
        r is Ok ==> *old(pos) < *final(pos),
        expression_parsed(
            r,
            *final(pos),
            expression_at(views_of(tokens@), *old(pos) as int, min_precedence as int),
        ),
    decreases tokens.len() - *old(pos), 1int,
{
    let ghost t = views_of(tokens@);
    let mut left = match parse_primary(tokens, pos, filename, code) {
        Ok(left) => left,
        Err(e) => {
            return Err(e);
        },
    };
    while *pos < tokens.len()
        invariant
            *old(pos) < *pos <= tokens.len(),
            min_precedence <= 7,
            t == views_of(tokens@),
            expression_at(t, *old(pos) as int, min_precedence as int) == climb_at(
                t,
                *pos as int,
                min_precedence as int,
                expr_view(left),
            ),
        ensures
            climb_at(t, *pos as int, min_precedence as int, expr_view(left)) == (Parsed::Done {
                value: expr_view(left),
                next: *pos as int,
            }),
        decreases tokens.len() - *pos,
    {
        let token = &tokens[*pos];
        if token.token_type == TokenType::LSquare {
            *pos += 1;
            let index_expr = match parse_expression_recursive(tokens, pos, 0, filename, code) {
                Ok(e) => e,
                Err(e) => {
                    return Err(e);
                },
            };
            if *pos >= tokens.len() || tokens[*pos].token_type != TokenType::RSquare {
                return Err(plain_error("Expected closing bracket in index operation"));
            }
            *pos += 1;
            left = ExpressionTreeNode::Index(IndexNode::new(left, index_expr));
            continue ;
        }
        let op = match operator_of(token.token_type) {
            Some(op) => op,
            None => {
                break ;
            },
        };
        let precedence = get_precedence(op);
        if precedence < min_precedence {
            break ;
        }
        *pos += 1;
        let right = match parse_expression_recursive(tokens, pos, precedence + 1, filename, code) {
            Ok(e) => e,
            Err(e) => {
                return Err(e);
            },
        };
        left = ExpressionTreeNode::BinaryOp(ExpressionNode::new(left, right, op, token.clone()));
    }
    Ok(left)
}

/// Reads the indexing in brackets that follows the expression `left`.
#[verifier::loop_isolation(false)]
fn parse_indexes(
    tokens: &Vec<Token>,
    pos: &mut usize,
    left: ExpressionTreeNode,
    filename: &str,
    code: &str,
) -> (r: Result<ExpressionTreeNode, DreamberdError>)
    requires
        *old(pos) <= tokens.len(),
    ensures
        *old(pos) <= *final(pos) <= tokens.len(),
        expression_parsed(
            r,
            *final(pos),
            indexes_at(views_of(tokens@), *old(pos) as int, expr_view(left)),
        ),
    decreases tokens.len() - *old(pos), 3int,
{
    let ghost t = views_of(tokens@);
    let ghost first = expr_view(left);
    let mut current = left;
    while *pos < tokens.len() && tokens[*pos].token_type == TokenType::LSquare
        invariant
            *old(pos) <= *pos <= tokens.len(),
            t == views_of(tokens@),
            indexes_at(t, *old(pos) as int, first) == indexes_at(
                t,
                *pos as int,
                expr_view(current),
            ),
        decreases tokens.len() - *pos,
    {
        *pos += 1;
        let index_expr = match parse_expression_recursive(tokens, pos, 0, filename, code) {
            Ok(e) => e,
            Err(e) => {
                return Err(e);
            },
        };
        if *pos >= tokens.len() || tokens[*pos].token_type != TokenType::RSquare {
            return Err(plain_error("Expected closing bracket in index operation"));
        }
        *pos += 1;
        current = ExpressionTreeNode::Index(IndexNode::new(current, index_expr));
    }
    Ok(current)
}

/// Parses a primary expression: a literal, a name, a call, a constructor call, a list,
/// an expression in parentheses, or `;` (not) before a primary expression.
#[verifier::loop_isolation(false)]
#[verifier::rlimit(40)]
fn parse_primary(tokens: &Vec<Token>, pos: &mut usize, filename: &str, code: &str) -> (r: Result<
    ExpressionTreeNode,
    DreamberdError,
>)
    requires
        *old(pos) <= tokens.len(),
    ensures
        *old(pos) <= *final(pos) <= tokens.len(),
        r is Ok ==> *old(pos) < *final(pos),
        expression_parsed(r, *final(pos), primary_at(views_of(tokens@), *old(pos) as int)),
    decreases tokens.len() - *old(pos), 0int,
{
    let ghost t = views_of(tokens@);
    if *pos >= tokens.len() {
        return Err(plain_error("Unexpected end of expression"));
    }
    let token = &tokens[*pos];
    *pos += 1;
    match token.token_type {
        TokenType::Name => {
            if same_text(token.value.as_str(), "new") {
                if *pos >= tokens.len() || tokens[*pos].token_type != TokenType::Name {
                    return Err(plain_error("Expected class name after 'new'"));
                }
                let class_name = tokens[*pos].clone();
                *pos += 1;
                if *pos < tokens.len() && tokens[*pos].token_type == TokenType::LParen {
                    *pos += 1;
                    let args = match parse_sequence(
                        tokens,
                        pos,
                        TokenType::RParen,
                        "Expected closing parenthesis in constructor call",
                        filename,
                        code,
                    ) {
                        Ok(args) => args,
                        Err(e) => {
                            return Err(e);
                        },
                    };
                    Ok(ExpressionTreeNode::Constructor(ConstructorNode::new(class_name, args)))
                } else {
                    Err(plain_error("Expected parentheses after constructor class name"))
                }
            } else if same_text(token.value.as_str(), "print") && *pos < tokens.len()
                && tokens[*pos].token_type != TokenType::LParen {
                let mut args: Vec<ExpressionTreeNode> = Vec::new();
                assert(expr_views(args@) =~= Seq::<ExprView>::empty());
                while *pos < tokens.len() && !is_print_end(tokens[*pos].token_type)
                    invariant
                        *old(pos) < *pos <= tokens.len(),
                        t == views_of(tokens@),
                        print_arguments_at(t, *old(pos) + 1, Seq::empty()) == print_arguments_at(
                            t,
                            *pos as int,
                            expr_views(args@),
                        ),
                    decreases tokens.len() - *pos,
                {
                    let arg = match parse_primary(tokens, pos, filename, code) {
                        Ok(arg) => arg,
                        Err(e) => {
                            return Err(e);
                        },
                    };
                    let arg = match parse_indexes(tokens, pos, arg, filename, code) {
                        Ok(arg) => arg,
                        Err(e) => {
                            return Err(e);
                        },
                    };
                    proof {
                        lemma_push_view(args@, arg);
                    }
                    args.push(arg);
                }
                Ok(ExpressionTreeNode::Function(FunctionNode::new(token.clone(), args)))
            } else if *pos < tokens.len() && tokens[*pos].token_type == TokenType::LParen {
                *pos += 1;
                let args = match parse_sequence(
                    tokens,
                    pos,
                    TokenType::RParen,
                    "Expected closing parenthesis in function call",
                    filename,
                    code,
                ) {
                    Ok(args) => args,
                    Err(e) => {
                        return Err(e);
                    },
                };
                Ok(ExpressionTreeNode::Function(FunctionNode::new(token.clone(), args)))
            } else {
                Ok(ExpressionTreeNode::Value(ValueNode::new(token.clone())))
            }
        },
        TokenType::String | TokenType::Number | TokenType::InterpolatedString => {
            Ok(ExpressionTreeNode::Value(ValueNode::new(token.clone())))
        },
        TokenType::LSquare => {
            let values = match parse_sequence(
                tokens,
                pos,
                TokenType::RSquare,
                "Expected closing bracket in list literal",
                filename,
                code,
            ) {
                Ok(values) => values,
                Err(e) => {
                    return Err(e);
                },
            };
            Ok(ExpressionTreeNode::List(ListNode::new(values)))
        },
        TokenType::LParen => {
            let expr = match parse_expression_recursive(tokens, pos, 0, filename, code) {
                Ok(e) => e,
                Err(e) => {
                    return Err(e);
                },
            };
            if *pos >= tokens.len() || tokens[*pos].token_type != TokenType::RParen {
                return Err(plain_error("Expected closing parenthesis"));
            }
            *pos += 1;
            Ok(expr)
        },
        TokenType::Semicolon => {
            let expr = match parse_primary(tokens, pos, filename, code) {
                Ok(e) => e,
                Err(e) => {
                    return Err(e);
                },
            };
            Ok(ExpressionTreeNode::UnaryOp(SingleOperatorNode::new(token.clone(), expr)))
        },
        _ => {
            let mut message = String::from_str("Unexpected token in expression: ");
            append_text(&mut message, token_type_name(token.token_type));
            Err(DreamberdError::NonFormattedError(message))
        },
    }
}

/// The tree of the expression that the tokens `t` write, or the message of the error.
pub open spec fn expression_of(t: Seq<TokenView>) -> Result<ExprView, Seq<char>> {
    if t.len() == 0 {
        Err("Empty expression"@)
    } else {
        match expression_at(t, 0, 0) {
            Parsed::Done { value, next } => if next < t.len() {
                Err("Unexpected tokens at end of expression: "@ + kind_name(t[next].token_type))
            } else {
                Ok(value)
            },
            Parsed::Failed { message } => Err(message),
        }
    }
}

/// Builds the tree of the expression that `tokens` write. All tokens must belong to
/// it: an empty sequence and tokens left over are errors.
pub fn build_expression_tree(filename: &str, tokens: Vec<Token>, code: &str) -> (r: Result<
    ExpressionTreeNode,
    DreamberdError,
>)
    ensures
        match expression_of(views_of(tokens@)) {
            Ok(tree) => r is Ok && expr_view(r->Ok_0) == tree,
            Err(message) => r is Err && r->Err_0 is NonFormattedError && r->Err_0.text()
                == message,
        },
{
    if tokens.len() == 0 {
        return Err(plain_error("Empty expression"));
    }
    let mut pos: usize = 0;
    let result = match parse_expression_recursive(&tokens, &mut pos, 0, filename, code) {
        Ok(e) => e,
        Err(e) => {
            return Err(e);
        },
    };
    if pos < tokens.len() {
        let mut message = String::from_str("Unexpected tokens at end of expression: ");
        append_text(&mut message, token_type_name(tokens[pos].token_type));
        return Err(DreamberdError::NonFormattedError(message));
    }
    Ok(result)
}

/// The first token of an expression; a list has none.
pub open spec fn first_token(expr: ExpressionTreeNode) -> Option<Token>
    decreases expr,
{
    match expr {
        ExpressionTreeNode::Value(v) => Some(v.token),
        ExpressionTreeNode::UnaryOp(op) => Some(op.operator),
        ExpressionTreeNode::BinaryOp(op) => first_token(*op.left),
        ExpressionTreeNode::Function(f) => Some(f.name),
        ExpressionTreeNode::Constructor(c) => Some(c.class_name),
        ExpressionTreeNode::Index(i) => first_token(*i.value),
        ExpressionTreeNode::List(_) => None,
    }
}

/// The first token of an expression; a list has none.
pub fn get_expr_first_token(expr: &ExpressionTreeNode) -> (r: Option<&Token>)
    ensures
        match r {
            Some(t) => first_token(*expr) == Some(*t),
            None => first_token(*expr) is None,
        },
    decreases expr,
{
    match expr {
        ExpressionTreeNode::Value(v) => Some(&v.token),
        ExpressionTreeNode::UnaryOp(op) => Some(&op.operator),
        ExpressionTreeNode::BinaryOp(op) => get_expr_first_token(&op.left),
        ExpressionTreeNode::Function(f) => Some(&f.name),
        ExpressionTreeNode::Constructor(c) => Some(&c.class_name),
        ExpressionTreeNode::Index(i) => get_expr_first_token(&i.value),
        ExpressionTreeNode::List(_) => None,
    }
}

/// Whether two tokens are alike: same kind, same text, same place.
pub fn tokens_equal(a: &Token, b: &Token) -> (r: bool)
    ensures
        r == (a@ == b@),
{
    a.token_type == b.token_type && a.value == b.value && a.line == b.line && a.col == b.col
}

/// Whether two sequences of expressions are alike, item by item.
pub fn expression_lists_equal(a: &Vec<ExpressionTreeNode>, b: &Vec<ExpressionTreeNode>) -> (r:
    bool)
    ensures
        r == (expr_views(a@) == expr_views(b@)),
    decreases a,
{
    if a.len() != b.len() {
        assert(expr_views(a@).len() != expr_views(b@).len());
        return false;
    }
    let mut i: usize = 0;
    while i < a.len()
        invariant
            i <= a.len(),
            a.len() == b.len(),
            forall|j: int| 0 <= j < i ==> expr_view(a@[j]) == expr_view(b@[j]),
        decreases a.len() - i,
    {
        if !expressions_equal(&a[i], &b[i]) {
            assert(expr_views(a@)[i as int] != expr_views(b@)[i as int]);
            return false;
        }
        i += 1;
    }
    assert(expr_views(a@) =~= expr_views(b@));
    true
}

/// Whether two expressions are alike in every part.
pub fn expressions_equal(a: &ExpressionTreeNode, b: &ExpressionTreeNode) -> (r: bool)
    ensures
        r == (expr_view(*a) == expr_view(*b)),
    decreases a,
{
    match a {
        ExpressionTreeNode::Value(x) => match b {
            ExpressionTreeNode::Value(y) => tokens_equal(&x.token, &y.token),
            _ => false,
        },
        ExpressionTreeNode::UnaryOp(x) => match b {
            ExpressionTreeNode::UnaryOp(y) => tokens_equal(&x.operator, &y.operator)
                && expressions_equal(&x.expression, &y.expression),
            _ => false,
        },
        ExpressionTreeNode::BinaryOp(x) => match b {
            ExpressionTreeNode::BinaryOp(y) => x.operator == y.operator && tokens_equal(
                &x.operator_token,
                &y.operator_token,
            ) && expressions_equal(&x.left, &y.left) && expressions_equal(&x.right, &y.right),
            _ => false,
        },
        ExpressionTreeNode::Function(x) => match b {
            ExpressionTreeNode::Function(y) => tokens_equal(&x.name, &y.name)
                && expression_lists_equal(&x.args, &y.args),
            _ => false,
        },
        ExpressionTreeNode::Constructor(x) => match b {
            ExpressionTreeNode::Constructor(y) => tokens_equal(&x.class_name, &y.class_name)
                && expression_lists_equal(&x.args, &y.args),
            _ => false,
        },
        ExpressionTreeNode::Index(x) => match b {
            ExpressionTreeNode::Index(y) => expressions_equal(&x.value, &y.value)
                && expressions_equal(&x.index, &y.index),
            _ => false,
        },
        ExpressionTreeNode::List(x) => match b {
            ExpressionTreeNode::List(y) => expression_lists_equal(&x.values, &y.values),
            _ => false,
        },
    }
}

} // verus!
