use dreamberd::base::{
    raise_error_at_line, raise_error_at_token, DreamberdError, OperatorType, Token, TokenType,
};
use dreamberd::text::{decimal_text, nth_line};

#[test]
fn token_kinds_are_read_from_their_spelling_and_written_back() {
    let spellings = [
        "}", "{", "]", "[", "(", ")", ".", "+", "++", "--", "=", "==", "===", "====", "/", "*",
        "-", ",", ":", ";", "!", "?", "^", "=>", "<", ">", "<=", ">=", ";=", "|", "&", "\n", "'",
        "\"",
    ];
    for spelling in spellings {
        let kind = TokenType::from_str(spelling).expect("a token kind");
        assert_eq!(kind.as_str(), spelling);
    }
    assert_eq!(TokenType::from_str("}"), Some(TokenType::RCurly));
    assert_eq!(TokenType::from_str(";="), Some(TokenType::NotEqual));
    assert_eq!(TokenType::from_str("abc"), None);
    assert_eq!(TokenType::Number.as_str(), "NUMBER");
    assert_eq!(TokenType::Name.as_str(), "NAME");
    assert_eq!(TokenType::String.as_str(), "STRING");
    assert_eq!(TokenType::Whitespace.as_str(), " ");
}

#[test]
fn operators_are_read_from_their_spelling_and_written_back() {
    let spellings = [
        "+", "-", "*", "/", "^", ">", ">=", "<", "<=", "|", "&", ",", "=", "==", "===", "====",
        ";=", ";==", ";===",
    ];
    for spelling in spellings {
        let operator = OperatorType::from_str(spelling).expect("an operator");
        assert_eq!(operator.as_str(), spelling);
    }
    assert_eq!(OperatorType::from_str(";=="), Some(OperatorType::Nee));
    assert_eq!(OperatorType::from_str("=>"), None);
}

#[test]
fn error_at_a_token_shows_the_line_and_carets() {
    let token = Token::new(TokenType::Name, "foo".to_string(), 2, 7);
    let error = raise_error_at_token("prog.gom", "first\nlet foo = 1", "Unknown name", &token);
    assert!(matches!(error, DreamberdError::InterpretationError(_)));
    assert_eq!(
        error.message(),
        "prog.gom, line 2\n\n  let foo = 1\n      ^^^\nUnknown name"
    );
}

#[test]
fn error_without_source_or_outside_it_is_the_bare_message() {
    let token = Token::new(TokenType::Name, "foo".to_string(), 9, 7);
    assert_eq!(raise_error_at_token("f", "", "m", &token).message(), "\nm\n");
    assert_eq!(raise_error_at_token("f", "one line", "m", &token).message(), "\nm\n");
    assert_eq!(raise_error_at_line("f", "one line", 0, "m").message(), "\nm\n");
    assert_eq!(raise_error_at_line("f", "a\nb", 3, "m").message(), "\nm\n");
}

#[test]
fn error_at_a_line_shows_the_line() {
    assert_eq!(
        raise_error_at_line("f.gom", "a\nb\nc", 3, "Bad").message(),
        "f.gom, line 3\n\n  c\n\nBad"
    );
    assert_eq!(
        raise_error_at_line("f.gom", "a\n", 2, "Bad").message(),
        "f.gom, line 2\n\n  \n\nBad"
    );
}

#[test]
fn decimal_numerals() {
    assert_eq!(decimal_text(0), "0");
    assert_eq!(decimal_text(7), "7");
    assert_eq!(decimal_text(10), "10");
    assert_eq!(decimal_text(18446744073709551615), "18446744073709551615");
}

#[test]
fn lines_are_counted_from_zero() {
    let chars: Vec<char> = "a\n\nb".chars().collect();
    assert_eq!(nth_line(&chars, 0), Some("a".to_string()));
    assert_eq!(nth_line(&chars, 1), Some(String::new()));
    assert_eq!(nth_line(&chars, 2), Some("b".to_string()));
    assert_eq!(nth_line(&chars, 3), None);
}
