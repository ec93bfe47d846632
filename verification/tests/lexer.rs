use dreamberd::base::{Token, TokenType};
use dreamberd::processor::tokenize;

fn kinds(code: &str) -> Vec<TokenType> {
    tokenize("test", code)
        .unwrap()
        .iter()
        .filter(|t| t.token_type != TokenType::Whitespace)
        .map(|t| t.token_type)
        .collect()
}

fn texts(code: &str) -> Vec<String> {
    tokenize("test", code)
        .unwrap()
        .iter()
        .filter(|t| t.token_type != TokenType::Whitespace)
        .map(|t| t.value.clone())
        .collect()
}

#[test]
fn test_basic_tokenization() {
    let code = "const const x = 5!";
    let tokens = tokenize("test", code).unwrap();
    assert!(tokens.len() > 0);
}

#[test]
fn test_string_tokenization() {
    let code = "const const name = \"Luke\"!";
    let tokens = tokenize("test", code).unwrap();
    let string_tokens: Vec<_> = tokens
        .iter()
        .filter(|t| t.token_type == TokenType::String)
        .collect();
    assert_eq!(string_tokens.len(), 1);
    assert_eq!(string_tokens[0].value, "Luke");
}

#[test]
fn a_declaration_gives_these_tokens() {
    let tokens = tokenize("test", "const x = 5!").unwrap();
    let expected = vec![
        Token::new(TokenType::Name, "const".to_string(), 1, 0),
        Token::new(TokenType::Whitespace, " ".to_string(), 1, 5),
        Token::new(TokenType::Name, "x".to_string(), 1, 6),
        Token::new(TokenType::Whitespace, " ".to_string(), 1, 7),
        Token::new(TokenType::Equal, "=".to_string(), 1, 8),
        Token::new(TokenType::Whitespace, " ".to_string(), 1, 9),
        Token::new(TokenType::Number, "5".to_string(), 1, 10),
        Token::new(TokenType::Bang, "!".to_string(), 1, 11),
        Token::new(TokenType::Whitespace, " ".to_string(), 1, 12),
        Token::new(TokenType::Whitespace, " ".to_string(), 1, 13),
        Token::new(TokenType::Whitespace, " ".to_string(), 1, 14),
    ];
    assert_eq!(tokens, expected);
}

#[test]
fn operators_of_several_characters() {
    assert_eq!(
        kinds("a == b === c ==== d ;= e ;== f <= g >= h => i ++ j -- k"),
        vec![
            TokenType::Name,
            TokenType::EqualEqual,
            TokenType::Name,
            TokenType::EqualEqualEqual,
            TokenType::Name,
            TokenType::EqualEqualEqualEqual,
            TokenType::Name,
            TokenType::NotEqual,
            TokenType::Name,
            TokenType::NotEqual,
            TokenType::Name,
            TokenType::LessEqual,
            TokenType::Name,
            TokenType::GreaterEqual,
            TokenType::Name,
            TokenType::FuncPoint,
            TokenType::Name,
            TokenType::Increment,
            TokenType::Name,
            TokenType::Decrement,
            TokenType::Name,
        ]
    );
    assert_eq!(texts("a ===== b ;== c"), vec!["a", "=====", "b", ";==", "c"]);
}

#[test]
fn numbers_with_sign_and_dot() {
    assert_eq!(texts("-1 2.5 -.5 3.4.5 x-1 7"), vec!["-1", "2.5", "-.5", "3.4", ".", "5", "x", "-1", "7"]);
    assert_eq!(
        kinds("a - b"),
        vec![TokenType::Name, TokenType::Subtract, TokenType::Name]
    );
}

#[test]
fn names_take_letters_digits_underscores_and_dots() {
    assert_eq!(texts("abc_1.field _x"), vec!["abc_1.field", "_x"]);
}

#[test]
fn line_feed_opens_the_next_line_and_comments_are_skipped() {
    let tokens = tokenize("test", "a // note\nb").unwrap();
    let seen: Vec<(TokenType, String, usize, usize)> = tokens
        .iter()
        .filter(|t| t.token_type != TokenType::Whitespace)
        .map(|t| (t.token_type, t.value.clone(), t.line, t.col))
        .collect();
    assert_eq!(
        seen,
        vec![
            (TokenType::Name, "a".to_string(), 1, 0),
            (TokenType::Newline, "\n".to_string(), 2, 9),
            (TokenType::Name, "b".to_string(), 2, 1),
        ]
    );
}

#[test]
fn quotes_of_any_depth_delimit_a_string() {
    assert_eq!(texts("'a'"), vec!["a"]);
    assert_eq!(texts("\"\"a\"\""), vec!["", "a", ""]);
    assert_eq!(texts("\"'a'\""), vec!["a"]);
    assert_eq!(texts("'\"a\"'"), vec!["a"]);
    assert_eq!(texts("\"it's\""), vec!["it's"]);
    assert_eq!(texts("\"\" x"), vec!["", "x"]);
    assert_eq!(kinds("\"a ${b} c\""), vec![TokenType::InterpolatedString]);
    assert_eq!(kinds("\"a $ {b} c\""), vec![TokenType::String]);
}

#[test]
fn string_that_never_ends_is_an_error_with_its_line() {
    let error = tokenize("prog.gom", "x\n\"abc").unwrap_err();
    assert_eq!(
        error.message(),
        "prog.gom, line 2\n\n  \"abc   \n\nInvalid string. Starting quotes do not match closing quotes."
    );
}

#[test]
fn unknown_characters_give_no_token() {
    assert_eq!(kinds("a # b @ c"), vec![TokenType::Name, TokenType::Name, TokenType::Name]);
    assert_eq!(kinds(""), Vec::<TokenType>::new());
}

#[test]
fn backslash_protects_quotes_and_backslashes_inside_a_string() {
    let tokens = tokenize("test", "\"a\\\"b\"").expect("tokens");
    assert_eq!(tokens[0].token_type, TokenType::String);
    assert_eq!(tokens[0].value, "a\"b");
    let tokens = tokenize("test", "\"it\\'s \\\\ n\\o\"").expect("tokens");
    assert_eq!(tokens[0].value, "it's \\ n\\o");
    let tokens = tokenize("test", "\"\\\"\"").expect("tokens");
    assert_eq!(tokens[0].value, "\"");
    assert!(tokenize("test", "\"a\\\"").is_err());
}

#[test]
fn white_space_is_what_the_standard_library_takes_for_it() {
    for code in 0..=0x10FFFFu32 {
        if let Some(c) = char::from_u32(code) {
            assert_eq!(dreamberd::text::is_whitespace(c), c.is_whitespace(), "U+{:04X}", code);
        }
    }
}
