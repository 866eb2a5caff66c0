//! The token model: the immutable output unit of scanning, a token kind
//! together with the source text it was scanned from.
use vstd::prelude::*;

verus! {

/// The closed set of token kinds the lexer can produce.
///
/// `EOF` is never emitted by the lexer itself; the parser uses it to stand
/// for "out of range" when it looks past the final token.  `Invalid` is used
/// by parse errors as a placeholder kind where no single expected kind
/// exists.
#[derive(Debug, Clone, Copy, PartialEq, Eq, Structural)]
#[allow(clippy::upper_case_acronyms)]
pub enum TokenType {
    // literals
    String,
    Number,
    // keywords
    Let,
    If,
    Else,
    Func,
    Return,
    Print,
    // identifiers
    Identif,
    // punctuation
    RParen,
    LParen,
    RBrace,
    LBrace,
    Semicolon,
    Assign,
    Comma,
    // operators
    Minus,
    Plus,
    Asterisk,
    Slash,
    Gt,
    Lt,
    // sentinels
    EOF,
    Invalid,
}

/// A token: its kind and its source text.
#[derive(Debug)]
pub struct Token {
    pub token_type: TokenType,
    pub value: String,
}

/// The mathematical model of a token: the kind together with the text as a
/// sequence of characters.
pub struct TokenView {
    pub token_type: TokenType,
    pub value: Seq<char>,
}

impl View for Token {
    type V = TokenView;

    open spec fn view(&self) -> TokenView {
        TokenView { token_type: self.token_type, value: self.value@ }
    }
}

/// The views of a token sequence, element by element.
pub open spec fn tokens_view(ts: Seq<Token>) -> Seq<TokenView> {
    Seq::new(ts.len(), |i: int| ts[i]@)
}

impl Token {
    pub fn new(token_type: TokenType, value: String) -> (t: Token)
        ensures
            t.token_type == token_type,
            t.value == value,
    {
        Token { token_type, value }
    }

    /// An explicit copy, equal to the value copied.
    pub fn duplicate(&self) -> (t: Token)
        ensures
            t == *self,
    {
        Token { token_type: self.token_type, value: self.value.clone() }
    }
}

} // verus!
