//! Token-level tests of the scanner.
use hmmge::lexer::Lexer;
use hmmge::token::{Token, TokenType};

fn lex(source: &str) -> Vec<Token> {
    Lexer::new(source).lex().expect("should lex")
}

fn kinds(source: &str) -> Vec<TokenType> {
    lex(source).iter().map(|t| t.token_type).collect()
}

#[test]
fn declaration_tokens() {
    let tokens = lex("let x = 5;");
    let expected = [
        (TokenType::Let, "let"),
        (TokenType::Identif, "x"),
        (TokenType::Assign, "="),
        (TokenType::Number, "5"),
        (TokenType::Semicolon, ";"),
    ];
    assert_eq!(tokens.len(), expected.len());
    for (token, (kind, text)) in tokens.iter().zip(expected.iter()) {
        assert_eq!(token.token_type, *kind);
        assert_eq!(token.value, *text);
    }
}

#[test]
fn keywords_are_classified() {
    assert_eq!(
        kinds("let if else func return print other"),
        vec![
            TokenType::Let,
            TokenType::If,
            TokenType::Else,
            TokenType::Func,
            TokenType::Return,
            TokenType::Print,
            TokenType::Identif,
        ]
    );
}

#[test]
fn string_literal_keeps_inner_text() {
    let tokens = lex("\"ab cd\"");
    assert_eq!(tokens.len(), 1);
    assert_eq!(tokens[0].token_type, TokenType::String);
    assert_eq!(tokens[0].value, "ab cd");
}

#[test]
fn empty_string_literal() {
    let tokens = lex("\"\"");
    assert_eq!(tokens.len(), 1);
    assert_eq!(tokens[0].token_type, TokenType::String);
    assert_eq!(tokens[0].value, "");
}

#[test]
fn all_symbols_map_to_tokens() {
    assert_eq!(
        kinds("( ) { } = ; , + - * / > <"),
        vec![
            TokenType::LParen,
            TokenType::RParen,
            TokenType::LBrace,
            TokenType::RBrace,
            TokenType::Assign,
            TokenType::Semicolon,
            TokenType::Comma,
            TokenType::Plus,
            TokenType::Minus,
            TokenType::Asterisk,
            TokenType::Slash,
            TokenType::Gt,
            TokenType::Lt,
        ]
    );
}

#[test]
fn unknown_characters_are_skipped() {
    assert_eq!(kinds("x @ # y"), vec![TokenType::Identif, TokenType::Identif]);
}

#[test]
fn adjacent_number_and_identifier_split() {
    assert_eq!(kinds("12ab"), vec![TokenType::Number, TokenType::Identif]);
    let tokens = lex("12ab");
    assert_eq!(tokens[0].value, "12");
    assert_eq!(tokens[1].value, "ab");
}

#[test]
fn empty_source_has_no_tokens() {
    assert!(lex("").is_empty());
}
