use std::collections::VecDeque;
use yule_log::tokenizer::{tokenize, Token, TokenList};

#[test]
fn tokenizer_test_tokenize() {
    let input = "message1: int field0; float[5] field1;";
    let expected_tokens: VecDeque<Token> = [
        Token::Identifier("message1"),
        Token::Colon,
        Token::Identifier("int"),
        Token::Identifier("field0"),
        Token::Semicolon,
        Token::Identifier("float"),
        Token::LBrace,
        Token::Number(5),
        Token::RBrace,
        Token::Identifier("field1"),
        Token::Semicolon,
    ]
    .into();
    let tokens = tokenize(input);
    assert_eq!(expected_tokens, tokens);
}

#[test]
fn tokenizer_test_tokenize_unknown() {
    let input = "message1: ? int field0;";
    let expected_tokens: VecDeque<Token> = [
        Token::Identifier("message1"),
        Token::Colon,
        Token::Unknown('?'),
        Token::Identifier("int"),
        Token::Identifier("field0"),
        Token::Semicolon,
    ]
    .into();
    let tokens = tokenize(input);
    assert_eq!(expected_tokens, tokens);
}

#[test]
fn test_tokenize() {
    let input = "message1: int field0; float[5] field1;";
    let expected_tokens = vec![
        Token::Identifier("message1"),
        Token::Colon,
        Token::Identifier("int"),
        Token::Identifier("field0"),
        Token::Semicolon,
        Token::Identifier("float"),
        Token::LBrace,
        Token::Number(5),
        Token::RBrace,
        Token::Identifier("field1"),
        Token::Semicolon,
    ];
    let tokens: Vec<Token> = tokenize(input).into_iter().collect();
    assert_eq!(expected_tokens, tokens);
}

#[test]
fn test_tokenize_unknown() {
    let input = "message1: ? int field0;";
    let expected_tokens = vec![
        Token::Identifier("message1"),
        Token::Colon,
        Token::Unknown('?'),
        Token::Identifier("int"),
        Token::Identifier("field0"),
        Token::Semicolon,
    ];
    let tokens: Vec<Token> = tokenize(input).into_iter().collect();
    assert_eq!(expected_tokens, tokens);
}

#[test]
fn token_list_consumes_from_the_front() {
    let mut list = TokenList::from_str("a:b;").unwrap();
    assert_eq!(list.remaining(), 4);
    assert_eq!(list.peek(), Some(&Token::Identifier("a")));
    assert_eq!(list.consume_two().unwrap(), (Token::Identifier("a"), Token::Colon));
    assert_eq!(list.consume_one().unwrap(), Token::Identifier("b"));
    assert_eq!(list.consume_one().unwrap(), Token::Semicolon);
    assert!(list.is_empty());
    assert!(matches!(list.consume_one(), Err(yule_log::errors::ULogError::UnexpectedEndOfFile)));
}

#[test]
fn token_list_refuses_numbers_beyond_usize() {
    assert!(TokenList::from_str("x[184467440737095516160]").is_err());
}
