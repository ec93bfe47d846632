use dreamberd::alias::{
    alias, canonical_keyword, canonicalize_tokens, list_aliases, unalias, AliasTable,
};
use dreamberd::base::{Token, TokenType};
use dreamberd::processor::syntax_tree::CodeStatement;
use dreamberd::processor::{generate_syntax_tree, tokenize};

#[test]
fn an_alias_is_mapped_back_before_parsing() {
    let mut table = AliasTable::new();
    assert!(alias(&mut table, "function", "zz"));
    let code = "zz add(a, b) => { return a + b! }";
    let mut tokens = tokenize("test", code).unwrap();
    canonicalize_tokens(&table, &mut tokens);
    assert_eq!(tokens[0], Token::new(TokenType::Name, "function".to_string(), 1, 0));
    let statements = generate_syntax_tree("test", tokens, code).unwrap();
    assert!(matches!(statements[0], CodeStatement::FunctionDefinition(_)));
}

#[test]
fn only_names_are_mapped_back() {
    let mut table = AliasTable::new();
    assert!(alias(&mut table, "if", "wenn"));
    let mut tokens = vec![
        Token::new(TokenType::String, "wenn".to_string(), 1, 0),
        Token::new(TokenType::Name, "wenn".to_string(), 1, 5),
        Token::new(TokenType::Name, "other".to_string(), 1, 10),
    ];
    canonicalize_tokens(&table, &mut tokens);
    assert_eq!(
        tokens,
        vec![
            Token::new(TokenType::String, "wenn".to_string(), 1, 0),
            Token::new(TokenType::Name, "if".to_string(), 1, 5),
            Token::new(TokenType::Name, "other".to_string(), 1, 10),
        ]
    );
}

#[test]
fn a_keyword_cannot_become_an_alias() {
    let mut table = AliasTable::new();
    assert!(!alias(&mut table, "function", "if"));
    assert!(!alias(&mut table, "function", "const"));
    assert!(table.entries.is_empty());
}

#[test]
fn an_alias_in_use_cannot_be_taken_again() {
    let mut table = AliasTable::new();
    assert!(alias(&mut table, "function", "zz"));
    assert!(!alias(&mut table, "if", "zz"));
    assert!(!alias(&mut table, "function", "zz"));
    assert_eq!(list_aliases(&table), vec![("zz".to_string(), "function".to_string())]);
}

#[test]
fn only_keywords_get_aliases_and_only_short_words_of_letters_are_aliases() {
    let mut table = AliasTable::new();
    assert!(!alias(&mut table, "print", "p"));
    assert!(!alias(&mut table, "if", ""));
    assert!(!alias(&mut table, "if", "a1"));
    assert!(!alias(&mut table, "if", "a_b"));
    assert!(!alias(&mut table, "if", "wénn"));
    assert!(!alias(&mut table, "if", "abcdefghijklmnopqrstuvwxyzABCDEFG"));
    assert!(alias(&mut table, "if", "abcdefghijklmnopqrstuvwxyzABCDEF"));
    assert!(alias(&mut table, "if", "Z"));
    assert_eq!(table.entries.len(), 2);
}

#[test]
fn unalias_removes_an_alias_once() {
    let mut table = AliasTable::new();
    assert!(alias(&mut table, "when", "wann"));
    assert!(alias(&mut table, "if", "wenn"));
    assert!(unalias(&mut table, "wann"));
    assert!(!unalias(&mut table, "wann"));
    assert!(!unalias(&mut table, "if"));
    assert_eq!(list_aliases(&table), vec![("wenn".to_string(), "if".to_string())]);
    assert!(alias(&mut table, "when", "wann"));
}

#[test]
fn the_keywords_that_may_get_aliases() {
    for keyword in [
        "function", "func", "fun", "fn", "if", "when", "after", "class", "return", "delete",
        "export", "import", "reverse", "var", "const",
    ] {
        assert!(canonical_keyword(keyword));
    }
    assert!(!canonical_keyword("print"));
    assert!(!canonical_keyword("else"));
    assert!(!canonical_keyword(""));
}
