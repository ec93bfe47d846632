use dreamberd::alias::{canonicalize_tokens, list_aliases};
use dreamberd::base::{Token, TokenType};
use dreamberd::binding::NamespaceEntry;
use dreamberd::events::InputEvent;
use dreamberd::builtin::{values_equal, DreamberdValue};
use dreamberd::interpreter::{Effect, Interpreter, Module};
use dreamberd::number::{Arithmetic, ArithmeticOperator, IndexParts};
use dreamberd::processor::expression_tree::{ExpressionTreeNode, ValueNode};
use dreamberd::processor::syntax_tree::{CodeStatement, IndexAssignment, VariableAssignment};
use dreamberd::processor::{generate_syntax_tree, tokenize};
use dreamberd::scope::lookup;

struct Floats;

impl Arithmetic for Floats {
    fn compute(&self, operator: ArithmeticOperator, left: u64, right: u64) -> u64 {
        let a = f64::from_bits(left);
        let b = f64::from_bits(right);
        let r = match operator {
            ArithmeticOperator::Add => a + b,
            ArithmeticOperator::Subtract => a - b,
            ArithmeticOperator::Multiply => a * b,
            ArithmeticOperator::Divide => a / b,
            ArithmeticOperator::Power => a.powf(b),
        };
        r.to_bits()
    }

    fn square_root(&self, x: u64) -> u64 {
        f64::from_bits(x).sqrt().to_bits()
    }

    fn parse(&self, text: &str) -> Option<u64> {
        text.parse::<f64>().ok().map(|v| v.to_bits())
    }

    fn whole_near(&self, x: u64) -> Option<i64> {
        let v = f64::from_bits(x);
        let nearest = v.round();
        if v.is_finite() && (v - nearest).abs() < 0.00000001 && nearest.abs() < 9.0e18 {
            Some(nearest as i64)
        } else {
            None
        }
    }

    fn display(&self, x: u64) -> String {
        format!("{}", f64::from_bits(x))
    }

    fn literal(&self, x: u64) -> String {
        f64::from_bits(x).to_string()
    }

    fn from_count(&self, n: usize) -> u64 {
        (n as f64).to_bits()
    }

    fn index_parts(&self, x: u64) -> IndexParts {
        let v = f64::from_bits(x);
        IndexParts { is_whole: v.fract() == 0.0, truncated: v as i64, floor: v.floor() as i64 }
    }
}

fn parse(name: &str, code: &str) -> Vec<CodeStatement> {
    let tokens = tokenize(name, code).expect("tokenize");
    generate_syntax_tree(name, tokens, code).expect("syntax tree")
}

fn printed(interpreter: &Interpreter) -> Vec<String> {
    let mut lines = Vec::new();
    for effect in interpreter.effects.iter() {
        if let Effect::Print(line) = effect {
            lines.push(line.clone());
        }
    }
    lines
}

fn run(code: &str) -> Vec<String> {
    let statements = parse("test", code);
    let modules: Vec<Module> = Vec::new();
    let mut interpreter = Interpreter::new("test".to_string(), code.to_string(), &modules);
    interpreter.interpret_code_statements(&statements, &Floats).expect("execution");
    printed(&interpreter)
}

#[test]
fn test_alias_creation_and_listing() {
    let code = "alias(\"function\", \"zz\")! list_aliases()!";
    let mut tokens = tokenize("alias_list", code).expect("tokenize");
    let modules: Vec<Module> = Vec::new();
    let mut interpreter = Interpreter::new("alias_list".to_string(), code.to_string(), &modules);
    canonicalize_tokens(&interpreter.aliases, &mut tokens);
    let statements = generate_syntax_tree("alias_list", tokens, code).expect("syntax tree");
    interpreter.interpret_code_statements(&statements, &Floats).expect("execute");
    let list_code = "list_aliases()!";
    let mut list_tokens = tokenize("alias_list2", list_code).expect("tokenize2");
    canonicalize_tokens(&interpreter.aliases, &mut list_tokens);
    let list_statements =
        generate_syntax_tree("alias_list2", list_tokens, list_code).expect("syntax tree2");
    interpreter.interpret_code_statements(&list_statements, &Floats).expect("exec list");
    let map = list_aliases(&interpreter.aliases);
    assert!(
        map.iter().any(|(alias, keyword)| alias == "zz" && keyword == "function"),
        "alias zz -> function should exist"
    );
}

#[test]
fn test_trigger_after_event_executes_body() {
    let code = "after \"keydown:A\" { const x = 5! } trigger(\"keydown:A\")!";
    let modules: Vec<Module> = Vec::new();
    let mut interpreter = Interpreter::new("trigger_test".to_string(), code.to_string(), &modules);
    let mut tokens = tokenize("trigger_test", code).expect("tokenize");
    canonicalize_tokens(&interpreter.aliases, &mut tokens);
    let statements = generate_syntax_tree("trigger_test", tokens, code).expect("syntax tree");
    interpreter.interpret_code_statements(&statements, &Floats).expect("execution");
    let mut found = false;
    for ns in interpreter.namespaces.iter() {
        if let Some(entry) = ns.get("x") {
            if let NamespaceEntry::Variable(var) = entry {
                if var.value().is_some() {
                    found = true;
                }
            }
        }
    }
    assert!(found, "variable x should be created by after statement body after trigger");
}

#[test]
fn prints_a_declared_constant() {
    assert_eq!(run("const const x = 5!\nprint x!"), vec!["5".to_string()]);
}

#[test]
fn assigns_to_an_index_and_prints_the_item() {
    assert_eq!(
        run("const var x = [1,2,3]! x[-1] = 9! print x[-1]!"),
        vec!["9".to_string()]
    );
}

#[test]
fn event_sets_off_waiting_after_statement() {
    let first = "after \"keydown:A\" { const x = 1! }";
    let second = "trigger(\"keydown:A\")!";
    let third = "print x!";
    let a = parse("a", first);
    let b = parse("b", second);
    let c = parse("c", third);
    let modules: Vec<Module> = Vec::new();
    let mut interpreter = Interpreter::new("t".to_string(), String::new(), &modules);
    interpreter.execute_after_statement(match &a[0] {
        CodeStatement::AfterStatement(stmt) => stmt,
        _ => panic!("an after statement"),
    });
    assert_eq!(interpreter.after_statements.len(), 1);
    assert!(lookup(&interpreter.namespaces, "x").is_none());
    interpreter.interpret_code_statements(&b, &Floats).expect("trigger");
    assert_eq!(interpreter.after_statements.len(), 0);
    interpreter.interpret_code_statements(&c, &Floats).expect("print");
    assert_eq!(printed(&interpreter), vec!["1".to_string()]);
}

#[test]
fn when_body_runs_once_for_each_qualifying_assignment() {
    let code = "var var x = 3!\nvar var hits = 0!\nwhen (x > 5) { hits = hits + 1! }\nprint hits!\nx = 10!\nprint hits!\ny = 1!\nprint hits!\nx = 11!\nprint hits!\nx = 2!\nprint hits!";
    assert_eq!(
        run(code),
        vec!["0".to_string(), "1".to_string(), "1".to_string(), "2".to_string(), "2".to_string()]
    );
}

#[test]
fn when_body_runs_at_registration_if_the_condition_holds() {
    assert_eq!(run("var var x = 9!\nwhen (x > 5) { print \"now\"! }"), vec!["now".to_string()]);
}

#[test]
fn reverse_restores_the_value_before_one_reassignment() {
    let code = "var var x = 1!\nx = 2!\nprint x!\nreverse!\nprint x!\nreverse!\nprint x!";
    assert_eq!(run(code), vec!["2".to_string(), "1".to_string(), "1".to_string()]);
}

#[test]
fn previous_gives_the_value_before_the_latest_change() {
    assert_eq!(
        run("var var x = 1!\nx = 2!\nprint previous(x)!\nprint current(x)!\nprint next(x)!"),
        vec!["1".to_string(), "2".to_string(), "undefined".to_string()]
    );
}

#[test]
fn variable_counted_in_lines_is_gone_after_its_duration() {
    let code = "const const x<2> = 5!\nprint x!\nprint x!";
    let statements = parse("test", code);
    let modules: Vec<Module> = Vec::new();
    let mut interpreter = Interpreter::new("test".to_string(), code.to_string(), &modules);
    let result = interpreter.interpret_code_statements(&statements, &Floats);
    assert!(result.is_err());
    assert_eq!(result.unwrap_err().message(), "Undefined variable: x");
    assert_eq!(printed(&interpreter), vec!["5".to_string()]);
    assert_eq!(interpreter.current_line, 3);
}

#[test]
fn variable_counted_in_seconds_is_gone_once_the_time_has_passed() {
    let modules: Vec<Module> = Vec::new();
    let mut interpreter = Interpreter::new("test".to_string(), String::new(), &modules);
    let declare = parse("a", "const const t<5s> = 1!\nprint t!");
    let read = parse("b", "print t!");
    interpreter.interpret_code_statements(&declare, &Floats).expect("declared");
    interpreter.clock.advance(4);
    interpreter.interpret_code_statements(&read, &Floats).expect("still there");
    interpreter.clock.advance(1);
    assert!(interpreter.interpret_code_statements(&read, &Floats).is_err());
    assert_eq!(printed(&interpreter), vec!["1".to_string(), "1".to_string()]);
}

#[test]
fn division_by_zero_is_undefined() {
    assert_eq!(run("const const d = 1 / 0!\nprint d!"), vec!["undefined".to_string()]);
}

#[test]
fn arithmetic_and_comparison() {
    assert_eq!(
        run("const const a = 2 + 3 * 4!\nprint a!\nconst const b = 2 ^ 3!\nprint b!\nconst const c = 7 - 10!\nprint c!\nconst const d = 1 / 4!\nprint d!\nconst const e = 3 < 4!\nprint e!\nconst const f = \"a\" < 4!\nprint f!\nconst const g = \"a\" + \"b\"!\nprint g!\nconst const h = 1 + \"b\"!\nprint h!"),
        vec![
            "14".to_string(),
            "8".to_string(),
            "-3".to_string(),
            "0.25".to_string(),
            "true".to_string(),
            "maybe".to_string(),
            "ab".to_string(),
            "undefined".to_string()
        ]
    );
}

#[test]
fn equal_sign_compares_when_its_left_side_is_no_name() {
    assert_eq!(
        run("const const a = (1 = 1)!\nprint a!\nvar var x = 1!\nconst const b = (x == 2)!\nprint b!\nconst const c = (x = 2)!\nprint c!\nprint x!\nconst const d = (x ;= 2)!\nprint d!"),
        vec![
            "true".to_string(),
            "false".to_string(),
            "2".to_string(),
            "2".to_string(),
            "false".to_string()
        ]
    );
}

#[test]
fn maybe_is_not_true_for_if() {
    assert_eq!(
        run("if (maybe) { print \"yes\"! } else { print \"no\"! }\nif (true) { print \"yes\"! }\nif (false) { print \"never\"! }"),
        vec!["no".to_string(), "yes".to_string()]
    );
}

#[test]
fn not_swaps_true_and_false_and_keeps_maybe() {
    assert_eq!(
        run("const const a = (;true)!\nprint a!\nconst const b = (;false)!\nprint b!\nconst const c = (;maybe)!\nprint c!"),
        vec!["false".to_string(), "true".to_string(), "maybe".to_string()]
    );
}

#[test]
fn interpolation_is_evaluated_when_the_string_is() {
    assert_eq!(
        run("const const n = \"x\"!\nprint \"a${n}b\"!\nprint \"v=${nope}\"!\nprint \"e=${ }\"!"),
        vec![
            "axb".to_string(),
            "v=${ERROR: Undefined variable: nope}".to_string(),
            "e=${EMPTY}".to_string()
        ]
    );
}

#[test]
fn a_part_that_writes_no_expression_says_so() {
    let lines = run("print \"p=${)}\"!");
    assert_eq!(lines.len(), 1);
    assert!(lines[0].starts_with("p=${PARSE_ERROR: "));
    assert!(lines[0].ends_with("}"));
}

#[test]
fn function_call_binds_arguments_and_returns() {
    assert_eq!(
        run("function add(a, b) => { return a + b! }\nprint add(2, 3)!\nfunction nothing() => { const const q = 1! }\nprint nothing()!"),
        vec!["5".to_string(), "undefined".to_string()]
    );
}

#[test]
fn calling_what_is_no_function_is_an_error() {
    let code = "const const x = 1!\nx(2)!";
    let statements = parse("test", code);
    let modules: Vec<Module> = Vec::new();
    let mut interpreter = Interpreter::new("test".to_string(), code.to_string(), &modules);
    let error = interpreter.interpret_code_statements(&statements, &Floats).unwrap_err();
    assert_eq!(error.message(), "Not a function");
}

#[test]
fn nesting_deeper_than_the_limit_is_an_error() {
    let code = "function f() => { return f()! }\nf()!";
    let statements = parse("test", code);
    let modules: Vec<Module> = Vec::new();
    let mut interpreter = Interpreter::new("test".to_string(), code.to_string(), &modules);
    interpreter.depth_limit = 40;
    let error = interpreter.interpret_code_statements(&statements, &Floats).unwrap_err();
    assert_eq!(error.message(), "Statements and expressions nest deeper than the limit allows");
}

#[test]
fn class_declaration_makes_one_object() {
    let code = "class Player { const const hp = 10! }";
    let statements = parse("test", code);
    let modules: Vec<Module> = Vec::new();
    let mut interpreter = Interpreter::new("test".to_string(), code.to_string(), &modules);
    interpreter.interpret_code_statements(&statements, &Floats).expect("execution");
    assert_eq!(interpreter.namespaces.len(), 1);
    match lookup(&interpreter.namespaces, "Player") {
        Some(DreamberdValue::Object(object)) => {
            assert_eq!(object.class_name, "Player");
            assert_eq!(object.namespace.len(), 1);
            assert_eq!(object.namespace[0].0, "hp");
        }
        other => panic!("an object, not {:?}", other),
    }
    assert!(lookup(&interpreter.namespaces, "hp").is_none());
}

#[test]
fn export_asks_to_write_source_text() {
    let code = "const const s = \"hi\"!\nexport s to \"out.gom\"!";
    let statements = parse("test", code);
    let modules: Vec<Module> = Vec::new();
    let mut interpreter = Interpreter::new("test".to_string(), code.to_string(), &modules);
    interpreter.interpret_code_statements(&statements, &Floats).expect("execution");
    let written: Vec<(String, String)> = interpreter
        .effects
        .iter()
        .filter_map(|effect| match effect {
            Effect::WriteFile { path, content } => Some((path.clone(), content.clone())),
            _ => None,
        })
        .collect();
    assert_eq!(written, vec![("out.gom".to_string(), "const s = \"hi\"!".to_string())]);
}

#[test]
fn exporting_an_unknown_variable_is_an_error() {
    let code = "export nothing to \"out.gom\"!";
    let statements = parse("test", code);
    let modules: Vec<Module> = Vec::new();
    let mut interpreter = Interpreter::new("test".to_string(), code.to_string(), &modules);
    let error = interpreter.interpret_code_statements(&statements, &Floats).unwrap_err();
    assert_eq!(error.message(), "Cannot export undefined variable 'nothing'");
}

#[test]
fn exported_source_gives_an_equal_value_when_it_is_run() {
    let code = "const const r = [\"a\", true, 2, [false, 1.5], maybe]!\nexport r to \"r.gom\"!";
    let statements = parse("test", code);
    let modules: Vec<Module> = Vec::new();
    let mut interpreter = Interpreter::new("test".to_string(), code.to_string(), &modules);
    interpreter.interpret_code_statements(&statements, &Floats).expect("execution");
    let content = interpreter
        .effects
        .iter()
        .find_map(|effect| match effect {
            Effect::WriteFile { content, .. } => Some(content.clone()),
            _ => None,
        })
        .expect("a file to write");
    assert_eq!(content, "const r = [\"a\", true, 2, [false, 1.5], maybe]!");
    let again = parse("r.gom", &content);
    let mut other = Interpreter::new("r.gom".to_string(), content.clone(), &modules);
    other.interpret_code_statements(&again, &Floats).expect("import");
    let original = lookup(&interpreter.namespaces, "r").expect("r");
    let restored = lookup(&other.namespaces, "r").expect("r again");
    assert!(values_equal(&original, &restored));
}

fn written_and_read_again(code: &str, name: &str) -> (String, bool) {
    let statements = parse("test", code);
    let modules: Vec<Module> = Vec::new();
    let mut interpreter = Interpreter::new("test".to_string(), code.to_string(), &modules);
    interpreter.interpret_code_statements(&statements, &Floats).expect("execution");
    let content = interpreter
        .effects
        .iter()
        .find_map(|effect| match effect {
            Effect::WriteFile { content, .. } => Some(content.clone()),
            _ => None,
        })
        .expect("a file to write");
    let again = parse("again.gom", &content);
    let mut other = Interpreter::new("again.gom".to_string(), content.clone(), &modules);
    other.interpret_code_statements(&again, &Floats).expect("import");
    let first = lookup(&interpreter.namespaces, name).expect("the variable");
    let restored = lookup(&other.namespaces, name).expect("the variable again");
    (content, values_equal(&first, &restored))
}

#[test]
fn text_with_quotes_and_backslashes_comes_back_from_export() {
    let (content, same) =
        written_and_read_again("const const q = \"\\\"\"!\nexport q to \"q.gom\"!", "q");
    assert_eq!(content, "const q = \"\\\"\"!");
    assert!(same);
    let (_, same) = written_and_read_again(
        "const const q = \"say \\\"hi\\\", it\\'s a \\\\ here\\\\\"!\nexport q to \"q.gom\"!",
        "q",
    );
    assert!(same);
    let (_, same) = written_and_read_again(
        "const const l = [\"a\\\"b\", [\"\\'\", \"\"], \"\\\\\"]!\nexport l to \"l.gom\"!",
        "l",
    );
    assert!(same);
}

#[test]
fn import_runs_the_statements_of_a_module_in_place() {
    let module_code = "const const z = 7!";
    let modules = vec![
        Module { name: "tools".to_string(), statements: Ok(parse("tools.gom", module_code)) },
        Module { name: "broken".to_string(), statements: Err("no such file".to_string()) },
    ];
    let code = "import tools!\nprint z!";
    let statements = parse("test", code);
    let mut interpreter = Interpreter::new("test".to_string(), code.to_string(), &modules);
    interpreter.interpret_code_statements(&statements, &Floats).expect("execution");
    assert_eq!(printed(&interpreter), vec!["7".to_string()]);
    let broken = parse("test", "import broken!");
    let error = interpreter.interpret_code_statements(&broken, &Floats).unwrap_err();
    assert_eq!(error.message(), "Failed to import file 'broken.gom': no such file");
    let missing = parse("test", "import nowhere!");
    assert!(interpreter.interpret_code_statements(&missing, &Floats).is_err());
}

#[test]
fn turns_and_a_closing_run_a_program_as_a_block_does() {
    let code = "const const a = 1!\nafter \"keydown:Z\" { print \"late\"! }\nprint a!\nprint \"end\"!";
    let whole = run(code);
    assert_eq!(whole, vec!["1".to_string(), "end".to_string(), "late".to_string()]);
    let statements = parse("test", code);
    let modules: Vec<Module> = Vec::new();
    let mut interpreter = Interpreter::new("test".to_string(), code.to_string(), &modules);
    for statement in statements.iter() {
        let returned = interpreter.run_turn(statement, &Floats).expect("turn");
        assert!(returned.is_none());
    }
    assert_eq!(interpreter.current_line, 1 + statements.len() as u64);
    interpreter.close(&Floats).expect("closing");
    assert_eq!(printed(&interpreter), whole);
}

#[test]
fn a_program_imports_what_it_exported_once_the_file_is_at_hand() {
    let code = "const const q = \"a\\\"b\"!\nexport q to \"made.gom\"!\nimport made!\nprint q!";
    let statements = parse("test", code);
    let none: Vec<Module> = Vec::new();
    let mut interpreter = Interpreter::new("test".to_string(), code.to_string(), &none);
    interpreter.run_turn(&statements[0], &Floats).expect("declaration");
    interpreter.run_turn(&statements[1], &Floats).expect("export");
    let content = interpreter
        .take_effects()
        .into_iter()
        .find_map(|effect| match effect {
            Effect::WriteFile { content, .. } => Some(content),
            _ => None,
        })
        .expect("a file to write");
    let modules: &'static Vec<Module> = Box::leak(Box::new(vec![Module {
        name: "made".to_string(),
        statements: Ok(parse("made.gom", &content)),
    }]));
    interpreter.modules = modules;
    interpreter.run_turn(&statements[2], &Floats).expect("import");
    interpreter.run_turn(&statements[3], &Floats).expect("print");
    interpreter.close(&Floats).expect("closing");
    assert_eq!(printed(&interpreter), vec!["a\"b".to_string()]);
}

#[test]
fn delete_removes_a_variable_and_forgives_a_missing_one() {
    let code = "const const x = 1!\ndelete x!\ndelete x!\ndelete \"if\"!\nprint x!";
    let statements = parse("test", code);
    let modules: Vec<Module> = Vec::new();
    let mut interpreter = Interpreter::new("test".to_string(), code.to_string(), &modules);
    let error = interpreter.interpret_code_statements(&statements, &Floats).unwrap_err();
    assert_eq!(error.message(), "Undefined variable: x");
    assert_eq!(interpreter.current_line, 5);
}

#[test]
fn three_consts_ask_to_keep_the_binding() {
    let code = "const const const g = 3!\nconst const h = 4!";
    let statements = parse("test", code);
    let modules: Vec<Module> = Vec::new();
    let mut interpreter = Interpreter::new("test".to_string(), code.to_string(), &modules);
    interpreter.interpret_code_statements(&statements, &Floats).expect("execution");
    let kept: Vec<String> = interpreter
        .effects
        .iter()
        .filter_map(|effect| match effect {
            Effect::StoreGlobal { name, confidence, .. } => Some(format!("{} {}", name, confidence)),
            _ => None,
        })
        .collect();
    assert_eq!(kept, vec!["g 100".to_string()]);
}

#[test]
fn fractional_index_puts_an_item_between_two() {
    assert_eq!(
        run("const var l = [1, 3]!\nl[-0.5] = 2!\nprint l!\nprint l[-0.5]!\nprint l[0]!\nprint l[5]!\nconst const s = \"abc\"!\nprint s[-1]!\nprint s[1]!\nprint s[2]!"),
        vec![
            "[1, 2, 3]".to_string(),
            "2".to_string(),
            "3".to_string(),
            "undefined".to_string(),
            "a".to_string(),
            "c".to_string(),
            "undefined".to_string()
        ]
    );
}

#[test]
fn builtins_compute() {
    assert_eq!(
        run("print sqrt(16)!\nprint len(\"abc\")!\nprint len([1, 2])!\nprint len(5)!\nprint 1 \"two\" true!\nprint unalias(\"zz\")!\nprint alias(\"if\", \"when\")!\nprint alias(\"if\", \"wenn\")!\nprint alias(\"when\", \"wenn\")!"),
        vec![
            "4".to_string(),
            "3".to_string(),
            "2".to_string(),
            "undefined".to_string(),
            "1 two true".to_string(),
            "false".to_string(),
            "false".to_string(),
            "true".to_string(),
            "false".to_string()
        ]
    );
}

#[test]
fn loaded_global_cannot_be_changed() {
    let modules: Vec<Module> = Vec::new();
    let mut interpreter = Interpreter::new("test".to_string(), String::new(), &modules);
    interpreter.load_immutable_global(
        "g".to_string(),
        DreamberdValue::String(dreamberd::builtin::DreamberdString::new("kept".to_string())),
        Some(50),
    );
    let statements = parse("test", "g = \"changed\"!\nprint g!");
    interpreter.interpret_code_statements(&statements, &Floats).expect("execution");
    assert_eq!(printed(&interpreter), vec!["kept".to_string()]);
}

#[test]
fn effects_are_taken_in_order() {
    let code = "print \"a\"!\nprint \"b\"!";
    let statements = parse("test", code);
    let modules: Vec<Module> = Vec::new();
    let mut interpreter = Interpreter::new("test".to_string(), code.to_string(), &modules);
    interpreter.interpret_code_statements(&statements, &Floats).expect("execution");
    let taken = interpreter.take_effects();
    assert_eq!(taken, vec![Effect::Print("a".to_string()), Effect::Print("b".to_string())]);
    assert!(interpreter.effects.is_empty());
}

#[test]
fn an_event_runs_what_waits_for_it_and_each_body_ends_with_a_flush() {
    let code = "after \"keydown:A\" { print \"a\"! }\nafter \"click\" { print \"c\"! }\nafter \"keydown:A\" { print \"again\"! }";
    let statements = parse("test", code);
    let modules: Vec<Module> = Vec::new();
    let mut interpreter = Interpreter::new("test".to_string(), code.to_string(), &modules);
    for statement in statements.iter() {
        match statement {
            CodeStatement::AfterStatement(stmt) => interpreter.execute_after_statement(stmt),
            _ => panic!("an after statement"),
        }
    }
    interpreter.process_input_event(&InputEvent::KeyUp("A".to_string()), &Floats).expect("no match");
    assert_eq!(interpreter.after_statements.len(), 3);
    assert!(printed(&interpreter).is_empty());
    interpreter.process_input_event(&InputEvent::KeyDown("A".to_string()), &Floats).expect("match");
    assert_eq!(
        printed(&interpreter),
        vec!["a".to_string(), "c".to_string(), "again".to_string()]
    );
    assert_eq!(interpreter.after_statements.len(), 0);
}

#[test]
fn after_statements_that_still_wait_run_when_the_statements_end() {
    assert_eq!(
        run("after \"click\" { print \"late\"! }\nprint \"first\"!"),
        vec!["first".to_string(), "late".to_string()]
    );
}

#[test]
fn imports_inside_blocks_are_found() {
    let code = "import a!\nif (x) { import b! } else { import c! }\nfunction f() => { when (y) { import d! } }\nclass K { after \"click\" { import e! } }\nprint 1!";
    let statements = parse("test", code);
    assert_eq!(
        dreamberd::interpreter::imported_names(&statements),
        vec!["a", "b", "c", "d", "e"]
    );
}

#[test]
fn interpreter_starts_with_the_runtime_names_only() {
    let modules: Vec<Module> = Vec::new();
    let interpreter = Interpreter::new("f".to_string(), "c".to_string(), &modules);
    assert_eq!(interpreter.namespaces.len(), 1);
    assert_eq!(interpreter.namespaces[0].len(), 10);
    assert_eq!(interpreter.current_line, 1);
    assert_eq!(interpreter.filename, "f");
    assert_eq!(interpreter.code, "c");
    assert!(interpreter.when_statements.is_empty());
    assert!(interpreter.after_statements.is_empty());
    assert!(interpreter.effects.is_empty());
    assert!(interpreter.aliases.entries.is_empty());
    assert_eq!(lookup(&interpreter.namespaces, "true"), Some(dreamberd::builtin::bool_value(true)));
}

#[test]
fn index_assignment_by_statement() {
    let value = |kind: TokenType, text: &str| {
        ExpressionTreeNode::Value(ValueNode::new(Token::new(kind, text.to_string(), 1, 0)))
    };
    let program = vec![
        CodeStatement::IndexAssignment(IndexAssignment {
            target: value(TokenType::Name, "l"),
            index: value(TokenType::Number, "0"),
            value: value(TokenType::String, "new"),
            debug: 0,
        }),
        CodeStatement::VariableAssignment(VariableAssignment {
            target: value(TokenType::Name, "v"),
            value: value(TokenType::Number, "2"),
            debug: 0,
        }),
    ];
    let out_of_bounds = vec![CodeStatement::IndexAssignment(IndexAssignment {
        target: value(TokenType::Name, "l"),
        index: value(TokenType::Number, "5"),
        value: value(TokenType::String, "new"),
        debug: 0,
    })];
    let constant = vec![CodeStatement::VariableAssignment(VariableAssignment {
        target: value(TokenType::Name, "c"),
        value: value(TokenType::Number, "2"),
        debug: 0,
    })];
    let setup = parse("test", "const const l = [\"a\", \"b\"]!\nvar var v = 1!\nconst const c = 1!");
    let show = parse("test", "print l!\nprint v!");
    let modules: Vec<Module> = Vec::new();
    let mut interpreter = Interpreter::new("test".to_string(), String::new(), &modules);
    interpreter.interpret_code_statements(&setup, &Floats).expect("setup");
    interpreter.interpret_code_statements(&program, &Floats).expect("assignments");
    interpreter.interpret_code_statements(&show, &Floats).expect("show");
    assert_eq!(printed(&interpreter), vec!["[a, new]".to_string(), "2".to_string()]);
    let error = interpreter.interpret_code_statements(&out_of_bounds, &Floats).unwrap_err();
    assert_eq!(error.message(), "Index 5 out of bounds for list of length 2");
    let error = interpreter.interpret_code_statements(&constant, &Floats).unwrap_err();
    assert_eq!(error.message(), "Cannot reassign constant variable 'c'");
}

#[test]
fn maybe_sets_off_a_when_but_not_an_if() {
    assert_eq!(
        run("var var x = \"text\"!\nwhen (x > 5) { print \"when\"! }\nif (x > 5) { print \"if\"! }\nx = 1!\nx = \"more\"!"),
        vec!["when".to_string(), "when".to_string()]
    );
}
