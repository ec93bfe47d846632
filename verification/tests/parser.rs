use dreamberd::base::{OperatorType, Token, TokenType};
use dreamberd::processor::expression_tree::{
    build_expression_tree, get_expr_first_token, ExpressionTreeNode,
};
use dreamberd::processor::syntax_tree::{CodeStatement, CodeStatementTrait};
use dreamberd::processor::{generate_syntax_tree, tokenize};

fn significant(code: &str) -> Vec<Token> {
    tokenize("test", code)
        .unwrap()
        .into_iter()
        .filter(|t| t.token_type != TokenType::Whitespace && t.token_type != TokenType::Newline)
        .collect()
}

fn expression(code: &str) -> ExpressionTreeNode {
    build_expression_tree("test", significant(code), code).expect("an expression")
}

fn expression_error(code: &str) -> String {
    build_expression_tree("test", significant(code), code).unwrap_err().message()
}

fn shape(node: &ExpressionTreeNode) -> String {
    match node {
        ExpressionTreeNode::Value(v) => v.token.value.clone(),
        ExpressionTreeNode::UnaryOp(op) => format!("(not {})", shape(&op.expression)),
        ExpressionTreeNode::BinaryOp(op) => {
            format!("({} {} {})", shape(&op.left), op.operator.as_str(), shape(&op.right))
        }
        ExpressionTreeNode::Function(f) => {
            let args: Vec<String> = f.args.iter().map(shape).collect();
            format!("{}({})", f.name.value, args.join(", "))
        }
        ExpressionTreeNode::Constructor(c) => {
            let args: Vec<String> = c.args.iter().map(shape).collect();
            format!("new {}({})", c.class_name.value, args.join(", "))
        }
        ExpressionTreeNode::Index(i) => format!("{}[{}]", shape(&i.value), shape(&i.index)),
        ExpressionTreeNode::List(l) => {
            let items: Vec<String> = l.values.iter().map(shape).collect();
            format!("[{}]", items.join(", "))
        }
    }
}

fn statements(code: &str) -> Vec<CodeStatement> {
    let tokens = tokenize("test", code).expect("tokens");
    generate_syntax_tree("test", tokens, code).expect("statements")
}

fn statement_error(code: &str) -> String {
    let tokens = tokenize("test", code).expect("tokens");
    generate_syntax_tree("test", tokens, code).unwrap_err().message()
}

#[test]
fn tighter_operators_bind_first() {
    assert_eq!(shape(&expression("1 + 2 * 3")), "(1 + (2 * 3))");
    assert_eq!(shape(&expression("1 * 2 + 3")), "((1 * 2) + 3)");
    assert_eq!(shape(&expression("1 - 2 - 3")), "((1 - 2) - 3)");
    assert_eq!(shape(&expression("a | b & c == d")), "(a | (b & (c == d)))");
    assert_eq!(shape(&expression("2 ^ 3 * 4")), "((2 ^ 3) * 4)");
    assert_eq!(shape(&expression("(1 + 2) * 3")), "((1 + 2) * 3)");
    assert_eq!(shape(&expression("x = y + 1")), "(x = (y + 1))");
}

#[test]
fn calls_lists_indexing_and_not() {
    assert_eq!(shape(&expression("f(1, g(2), [3, 4])")), "f(1, g(2), [3, 4])");
    assert_eq!(shape(&expression("x[-1][0]")), "x[-1][0]");
    assert_eq!(shape(&expression("x[i + 1] = 2")), "(x[(i + 1)] = 2)");
    assert_eq!(shape(&expression("new Point(1, 2)")), "new Point(1, 2)");
    assert_eq!(shape(&expression("(;a)")), "(not a)");
    assert_eq!(shape(&expression("print a b[0] \"c\"")), "print(a, b[0], c)");
    assert_eq!(shape(&expression("[]")), "[]");
}

#[test]
fn binary_node_keeps_operator_and_token() {
    match expression("a <= b") {
        ExpressionTreeNode::BinaryOp(op) => {
            assert_eq!(op.operator, OperatorType::Le);
            assert_eq!(op.operator_token.token_type, TokenType::LessEqual);
            assert_eq!(op.operator_token.col, 2);
        }
        other => panic!("a binary operation, not {:?}", other),
    }
}

#[test]
fn expression_errors() {
    assert_eq!(expression_error(""), "Empty expression");
    assert_eq!(expression_error("1 +"), "Unexpected end of expression");
    assert_eq!(expression_error("(1"), "Expected closing parenthesis");
    assert_eq!(expression_error("f(1"), "Expected closing parenthesis in function call");
    assert_eq!(expression_error("[1"), "Expected closing bracket in list literal");
    assert_eq!(expression_error("x[1"), "Expected closing bracket in index operation");
    assert_eq!(expression_error("new"), "Expected class name after 'new'");
    assert_eq!(expression_error("new A"), "Expected parentheses after constructor class name");
    assert_eq!(expression_error("new A(1"), "Expected closing parenthesis in constructor call");
    assert_eq!(expression_error("* 2"), "Unexpected token in expression: Multiply");
    assert_eq!(expression_error("1 2"), "Unexpected tokens at end of expression: Number");
}

#[test]
fn first_token_of_an_expression() {
    let tree = expression("a[1] + 2");
    assert_eq!(get_expr_first_token(&tree).map(|t| t.value.clone()), Some("a".to_string()));
    let list = expression("[1]");
    assert!(get_expr_first_token(&list).is_none());
    let call = expression("f(1)");
    assert_eq!(get_expr_first_token(&call).map(|t| t.value.clone()), Some("f".to_string()));
}

#[test]
fn declaration_with_modifiers_lifetime_and_debug_marks() {
    let parsed = statements("const var count<20s> = 1 + 2?? var var other = 3!");
    assert_eq!(parsed.len(), 2);
    match &parsed[0] {
        CodeStatement::VariableDeclaration(d) => {
            assert_eq!(d.name.value, "count");
            assert_eq!(d.modifiers, vec!["const".to_string(), "var".to_string()]);
            assert_eq!(d.lifetime, Some("20s".to_string()));
            assert_eq!(d.confidence, 100);
            assert_eq!(d.debug, 2);
            assert_eq!(shape(d.value.as_ref().unwrap()), "(1 + 2)");
        }
        other => panic!("a declaration, not {:?}", other),
    }
    match &parsed[1] {
        CodeStatement::VariableDeclaration(d) => {
            assert_eq!(d.lifetime, None);
            assert_eq!(d.debug, 0);
        }
        other => panic!("a declaration, not {:?}", other),
    }
}

#[test]
fn every_kind_of_statement() {
    let code = "function add(a, b) => { return a + b! }\nfn async later() => { }\nclass Player { const const hp = 1! }\nif (x) { print 1! } else { print 2! }\nwhen (x > 5) { print x! }\nafter \"click\" { print 3! }\ndelete x!\nexport x to \"file.gom\"!\nimport tools!\nreverse!\nprint x!\nreturn!";
    let parsed = statements(code);
    let kinds: Vec<&str> = parsed.iter().map(|s| s.statement_type()).collect();
    assert_eq!(
        kinds,
        vec![
            "FunctionDefinition",
            "FunctionDefinition",
            "ClassDeclaration",
            "Conditional",
            "WhenStatement",
            "AfterStatement",
            "DeleteStatement",
            "ExportStatement",
            "ImportStatement",
            "ReverseStatement",
            "ExpressionStatement",
            "ReturnStatement",
        ]
    );
    match &parsed[0] {
        CodeStatement::FunctionDefinition(f) => {
            assert_eq!(f.name, "add");
            assert_eq!(f.args, vec!["a".to_string(), "b".to_string()]);
            assert_eq!(f.keywords, vec!["function".to_string()]);
            assert!(!f.is_async);
            assert_eq!(f.body.len(), 1);
        }
        other => panic!("a function, not {:?}", other),
    }
    match &parsed[1] {
        CodeStatement::FunctionDefinition(f) => {
            assert!(f.is_async);
            assert_eq!(f.keywords, vec!["fn".to_string()]);
            assert!(f.body.is_empty());
        }
        other => panic!("a function, not {:?}", other),
    }
    match &parsed[3] {
        CodeStatement::Conditional(c) => {
            assert_eq!(c.body.len(), 1);
            assert_eq!(c.else_body.as_ref().map(|b| b.len()), Some(1));
            assert_eq!(c.keywords, vec!["if".to_string()]);
        }
        other => panic!("a conditional, not {:?}", other),
    }
    match &parsed[5] {
        CodeStatement::AfterStatement(a) => assert_eq!(a.event, "click"),
        other => panic!("an after statement, not {:?}", other),
    }
    match &parsed[7] {
        CodeStatement::ExportStatement(e) => {
            assert_eq!(e.name, "x");
            assert_eq!(e.target_file, "file.gom");
        }
        other => panic!("an export, not {:?}", other),
    }
}

#[test]
fn statement_errors() {
    assert_eq!(statement_error("const = 1!"), "Expected variable name after modifiers");
    assert_eq!(statement_error("const 5 = 1!"), "Expected variable name after modifiers");
    assert_eq!(statement_error("const x<5 = 1!"), "Expected '>' to close lifetime specifier");
    assert_eq!(statement_error("const x 1!"), "Expected '=' in variable declaration");
    assert_eq!(statement_error("function (a) => { }"), "Expected function name");
    assert_eq!(statement_error("function f a) => { }"), "Expected '(' after function name");
    assert_eq!(statement_error("function f(a => { }"), "Expected parameter name in function definition");
    assert_eq!(statement_error("function f(a"), "Expected ')' after function parameters");
    assert_eq!(statement_error("function f(a) { }"), "Expected '=>' after function parameters");
    assert_eq!(statement_error("function f(a) => x"), "Expected '{' to start function body");
    assert_eq!(statement_error("function f(a) => { print 1!"), "Unclosed brace in statement block");
    assert_eq!(statement_error("class { }"), "Expected class name");
    assert_eq!(statement_error("class A x"), "Expected '{' to start class body");
    assert_eq!(statement_error("if (x)"), "Expected '{' after if condition");
    assert_eq!(statement_error("if (x) { } else print 1!"), "Expected '{' after else");
    assert_eq!(statement_error("when (x)"), "Expected '{' after when condition");
    assert_eq!(statement_error("after x { }"), "Expected event string after 'after'");
    assert_eq!(statement_error("after \"x\" print"), "Expected '{' after after event");
    assert_eq!(statement_error("export \"x\" to \"f\"!"), "Expected name after export");
    assert_eq!(statement_error("export x \"f\"!"), "Expected 'to' after export name");
    assert_eq!(statement_error("export x to f!"), "Expected target filename after 'to'");
    assert_eq!(statement_error("import \"x\"!"), "Expected name after import");
    assert_eq!(statement_error("!"), "Empty expression");
}
