//! The lexer: converts raw source text into an ordered token sequence in a
//! single left-to-right pass.
//!
//! The scanning rules, in priority order at each position: `"` opens a
//! string literal read verbatim to the next `"` (an unterminated literal is
//! a lex error); a digit opens a purely numeric run; a letter opens a
//! maximal alphanumeric run classified against the keyword set; each
//! punctuation or operator character maps to one single-character token; any
//! other character is silently skipped.  The executable scanner is proved
//! equal to the spec-level scanner [`spec_lex`].
use crate::numtext::is_digit;
use crate::token::{tokens_view, Token, TokenType, TokenView};
use vstd::prelude::*;

verus! {

/// A scanning failure: the only malformed lexical form is a string literal
/// with no closing quote.
#[derive(Debug, Clone, Copy, PartialEq, Eq, Structural)]
pub enum LexError {
    UnterminatedString,
}

pub open spec fn is_letter(c: char) -> bool {
    ('a' <= c && c <= 'z') || ('A' <= c && c <= 'Z')
}

pub open spec fn is_alnum(c: char) -> bool {
    is_letter(c) || is_digit(c)
}

/// The single-character token kind for `c`, if any.
pub open spec fn symbol_type(c: char) -> Option<TokenType> {
    if c == ')' {
        Some(TokenType::RParen)
    } else if c == '(' {
        Some(TokenType::LParen)
    } else if c == '{' {
        Some(TokenType::LBrace)
    } else if c == '}' {
        Some(TokenType::RBrace)
    } else if c == '=' {
        Some(TokenType::Assign)
    } else if c == ';' {
        Some(TokenType::Semicolon)
    } else if c == ',' {
        Some(TokenType::Comma)
    } else if c == '+' {
        Some(TokenType::Plus)
    } else if c == '-' {
        Some(TokenType::Minus)
    } else if c == '*' {
        Some(TokenType::Asterisk)
    } else if c == '/' {
        Some(TokenType::Slash)
    } else if c == '>' {
        Some(TokenType::Gt)
    } else if c == '<' {
        Some(TokenType::Lt)
    } else {
        None
    }
}

/// The kind an identifier run is classified as: a keyword kind for the six
/// fixed keywords, `Identif` otherwise.
pub open spec fn keyword_type(text: Seq<char>) -> TokenType {
    if text == seq!['l', 'e', 't'] {
        TokenType::Let
    } else if text == seq!['i', 'f'] {
        TokenType::If
    } else if text == seq!['e', 'l', 's', 'e'] {
        TokenType::Else
    } else if text == seq!['f', 'u', 'n', 'c'] {
        TokenType::Func
    } else if text == seq!['r', 'e', 't', 'u', 'r', 'n'] {
        TokenType::Return
    } else if text == seq!['p', 'r', 'i', 'n', 't'] {
        TokenType::Print
    } else {
        TokenType::Identif
    }
}

/// The position of the first `"` at or after `i`, or the length if none.
pub open spec fn find_quote(src: Seq<char>, i: nat) -> nat
    decreases src.len() - i,
    when i <= src.len()
{
    if i < src.len() {
        if src[i as int] == '"' {
            i
        } else {
            find_quote(src, i + 1)
        }
    } else {
        i
    }
}

/// The end of the digit run starting at `i`.
pub open spec fn run_end_digits(src: Seq<char>, i: nat) -> nat
    decreases src.len() - i,
    when i <= src.len()
{
    if i < src.len() && is_digit(src[i as int]) {
        run_end_digits(src, i + 1)
    } else {
        i
    }
}

/// The end of the alphanumeric run starting at `i`.
pub open spec fn run_end_alnum(src: Seq<char>, i: nat) -> nat
    decreases src.len() - i,
    when i <= src.len()
{
    if i < src.len() && is_alnum(src[i as int]) {
        run_end_alnum(src, i + 1)
    } else {
        i
    }
}

pub proof fn lemma_find_quote(src: Seq<char>, i: nat)
    requires
        i <= src.len(),
    ensures
        i <= find_quote(src, i) <= src.len(),
        forall|k: int| i <= k < find_quote(src, i) ==> #[trigger] src[k] != '"',
        find_quote(src, i) < src.len() ==> src[find_quote(src, i) as int] == '"',
    decreases src.len() - i,
{
    if i < src.len() && src[i as int] != '"' {
        lemma_find_quote(src, i + 1);
    }
}

/// `find_quote` is pinned down by its characteristic facts.
pub proof fn lemma_find_quote_exact(src: Seq<char>, i: nat, j: nat)
    requires
        i <= j <= src.len(),
        forall|k: int| i <= k < j ==> #[trigger] src[k] != '"',
        j < src.len() ==> src[j as int] == '"',
    ensures
        find_quote(src, i) == j,
    decreases j - i,
{
    if i < j {
        assert(src[i as int] != '"');
        lemma_find_quote_exact(src, i + 1, j);
    }
}

pub proof fn lemma_run_end_digits(src: Seq<char>, i: nat)
    requires
        i <= src.len(),
    ensures
        i <= run_end_digits(src, i) <= src.len(),
        forall|k: int| i <= k < run_end_digits(src, i) ==> is_digit(#[trigger] src[k]),
        run_end_digits(src, i) < src.len() ==> !is_digit(src[run_end_digits(src, i) as int]),
        i < src.len() && is_digit(src[i as int]) ==> run_end_digits(src, i) > i,
    decreases src.len() - i,
{
    if i < src.len() && is_digit(src[i as int]) {
        lemma_run_end_digits(src, i + 1);
    }
}

pub proof fn lemma_run_end_digits_exact(src: Seq<char>, i: nat, j: nat)
    requires
        i <= j <= src.len(),
        forall|k: int| i <= k < j ==> is_digit(#[trigger] src[k]),
        j < src.len() ==> !is_digit(src[j as int]),
    ensures
        run_end_digits(src, i) == j,
    decreases j - i,
{
    if i < j {
        assert(is_digit(src[i as int]));
        lemma_run_end_digits_exact(src, i + 1, j);
    }
}

pub proof fn lemma_run_end_alnum(src: Seq<char>, i: nat)
    requires
        i <= src.len(),
    ensures
        i <= run_end_alnum(src, i) <= src.len(),
        i < src.len() && is_alnum(src[i as int]) ==> run_end_alnum(src, i) > i,
    decreases src.len() - i,
{
    if i < src.len() && is_alnum(src[i as int]) {
        lemma_run_end_alnum(src, i + 1);
    }
}

pub proof fn lemma_run_end_alnum_exact(src: Seq<char>, i: nat, j: nat)
    requires
        i <= j <= src.len(),
        forall|k: int| i <= k < j ==> is_alnum(#[trigger] src[k]),
        j < src.len() ==> !is_alnum(src[j as int]),
    ensures
        run_end_alnum(src, i) == j,
    decreases j - i,
{
    if i < j {
        assert(is_alnum(src[i as int]));
        lemma_run_end_alnum_exact(src, i + 1, j);
    }
}

/// Prepends one token to a scan result.
pub open spec fn lex_cons(t: TokenView, rest: Result<Seq<TokenView>, LexError>) -> Result<
    Seq<TokenView>,
    LexError,
> {
    match rest {
        Ok(ts) => Ok(seq![t] + ts),
        Err(e) => Err(e),
    }
}

/// The spec-level scanner from position `pos` to the end of the source.
pub open spec fn spec_lex_from(src: Seq<char>, pos: nat) -> Result<Seq<TokenView>, LexError>
    decreases src.len() - pos,
    when pos <= src.len()
    via spec_lex_from_decreases
{
    if pos >= src.len() {
        Ok(Seq::empty())
    } else {
        let c = src[pos as int];
        if c == '"' {
            let close = find_quote(src, pos + 1);
            if close >= src.len() {
                Err(LexError::UnterminatedString)
            } else {
                let tok = TokenView {
                    token_type: TokenType::String,
                    value: src.subrange(pos as int + 1, close as int),
                };
                lex_cons(tok, spec_lex_from(src, close + 1))
            }
        } else if is_digit(c) {
            let end = run_end_digits(src, pos);
            let tok = TokenView {
                token_type: TokenType::Number,
                value: src.subrange(pos as int, end as int),
            };
            lex_cons(tok, spec_lex_from(src, end))
        } else if is_letter(c) {
            let end = run_end_alnum(src, pos);
            let text = src.subrange(pos as int, end as int);
            lex_cons(
                TokenView { token_type: keyword_type(text), value: text },
                spec_lex_from(src, end),
            )
        } else {
            match symbol_type(c) {
                Some(tt) => lex_cons(
                    TokenView { token_type: tt, value: seq![c] },
                    spec_lex_from(src, pos + 1),
                ),
                None => spec_lex_from(src, pos + 1),
            }
        }
    }
}

#[via_fn]
proof fn spec_lex_from_decreases(src: Seq<char>, pos: nat) {
    if pos < src.len() {
        lemma_find_quote(src, pos + 1);
        lemma_run_end_digits(src, pos);
        lemma_run_end_alnum(src, pos);
    }
}

/// What scanning a whole source text yields.
pub open spec fn spec_lex(src: Seq<char>) -> Result<Seq<TokenView>, LexError> {
    spec_lex_from(src, 0)
}

/// Executable test for a decimal digit character.
pub fn is_digit_char(c: char) -> (r: bool)
    ensures
        r == is_digit(c),
{
    c >= '0' && c <= '9'
}

/// Executable test for an ASCII alphanumeric character.
pub fn is_alnum_char(c: char) -> (r: bool)
    ensures
        r == is_alnum(c),
{
    (c >= 'a' && c <= 'z') || (c >= 'A' && c <= 'Z') || (c >= '0' && c <= '9')
}

/// Character equality of two string slices.
pub fn str_eq(a: &str, b: &str) -> (r: bool)
    ensures
        r == (a@ == b@),
{
    let alen = a.unicode_len();
    let blen = b.unicode_len();
    if alen != blen {
        return false;
    }
    let mut i: usize = 0;
    while i < alen
        invariant
            0 <= i <= alen,
            alen == a@.len() && alen == b@.len(),
            forall|k: int| 0 <= k < i ==> a@[k] == b@[k],
        decreases alen - i,
    {
        if a.get_char(i) != b.get_char(i) {
            return false;
        }
        i += 1;
    }
    proof {
        assert(a@ =~= b@);
    }
    true
}

/// One scan step: when the spec scanner at `pos` emits `t` and continues at
/// `next`, pushing `t` onto the emitted tokens keeps the emitted-plus-rest
/// decomposition of the whole scan.
proof fn lemma_lex_step(
    src: Seq<char>,
    pos: nat,
    done: Seq<TokenView>,
    done2: Seq<TokenView>,
    t: TokenView,
    next: nat,
)
    requires
        pos <= src.len(),
        next <= src.len(),
        spec_lex_from(src, pos) == lex_cons(t, spec_lex_from(src, next)),
        done2 == done.push(t),
    ensures
        spec_lex_from(src, pos) matches Ok(rest) ==> (spec_lex_from(src, next) matches Ok(rest2)
            && done + rest == done2 + rest2),
        spec_lex_from(src, pos) matches Err(e) ==> spec_lex_from(src, next) == Err::<
            Seq<TokenView>,
            LexError,
        >(e),
{
    match spec_lex_from(src, next) {
        Ok(rest2) => {
            assert(done + (seq![t] + rest2) =~= done.push(t) + rest2);
        },
        Err(_) => {},
    }
}

/// The lexer: the source text and the current scan position (an index into
/// the character sequence).
#[derive(Debug)]
pub struct Lexer<'a> {
    pub source: &'a str,
    pub position: usize,
}

impl<'a> Lexer<'a> {
    pub fn new(input: &'a str) -> (l: Lexer<'a>)
        ensures
            l.source@ == input@,
            l.position == 0,
    {
        Self { source: input, position: 0 }
    }
}

impl<'a> Lexer<'a> {
    /// Classifies a finished identifier run against the keyword set.
    fn parse_keyword(text: &str) -> (t: TokenType)
        ensures
            t == keyword_type(text@),
    {
        proof {
            reveal_strlit("let");
            reveal_strlit("if");
            reveal_strlit("else");
            reveal_strlit("func");
            reveal_strlit("return");
            reveal_strlit("print");
            assert("let"@ =~= seq!['l', 'e', 't']);
            assert("if"@ =~= seq!['i', 'f']);
            assert("else"@ =~= seq!['e', 'l', 's', 'e']);
            assert("func"@ =~= seq!['f', 'u', 'n', 'c']);
            assert("return"@ =~= seq!['r', 'e', 't', 'u', 'r', 'n']);
            assert("print"@ =~= seq!['p', 'r', 'i', 'n', 't']);
        }
        if str_eq(text, "let") {
            TokenType::Let
        } else if str_eq(text, "if") {
            TokenType::If
        } else if str_eq(text, "else") {
            TokenType::Else
        } else if str_eq(text, "func") {
            TokenType::Func
        } else if str_eq(text, "return") {
            TokenType::Return
        } else if str_eq(text, "print") {
            TokenType::Print
        } else {
            TokenType::Identif
        }
    }

    /// The single-character token kind for `c`, if any.
    fn symbol_token_type(c: char) -> (t: Option<TokenType>)
        ensures
            t == symbol_type(c),
    {
        match c {
            ')' => Some(TokenType::RParen),
            '(' => Some(TokenType::LParen),
            '{' => Some(TokenType::LBrace),
            '}' => Some(TokenType::RBrace),
            '=' => Some(TokenType::Assign),
            ';' => Some(TokenType::Semicolon),
            ',' => Some(TokenType::Comma),
            '+' => Some(TokenType::Plus),
            '-' => Some(TokenType::Minus),
            '*' => Some(TokenType::Asterisk),
            '/' => Some(TokenType::Slash),
            '>' => Some(TokenType::Gt),
            '<' => Some(TokenType::Lt),
            _ => None,
        }
    }

    /// Scans a string literal; on success the scan position stands just
    /// after the closing quote.
    fn parse_string(&mut self) -> (r: Result<Token, LexError>)
        requires
            old(self).position < old(self).source@.len(),
            old(self).source@[old(self).position as int] == '"',
        ensures
            final(self).source == old(self).source,
            ({
                let src = old(self).source@;
                let pos = old(self).position as nat;
                let close = find_quote(src, pos + 1);
                match r {
                    Ok(t) => {
                        &&& close < src.len()
                        &&& t@ == (TokenView {
                            token_type: TokenType::String,
                            value: src.subrange(pos as int + 1, close as int),
                        })
                        &&& final(self).position == close + 1
                    },
                    Err(e) => close >= src.len() && e == LexError::UnterminatedString,
                }
            }),
    {
        let ghost src = self.source@;
        let ghost pos = self.position as nat;
        let len = self.source.unicode_len();
        let mut j: usize = self.position + 1;
        while j < len && self.source.get_char(j) != '"'
            invariant
                pos + 1 <= j <= len,
                len == src.len(),
                self == old(self),
                src == self.source@,
                forall|k: int| pos + 1 <= k < j ==> #[trigger] src[k] != '"',
            decreases len - j,
        {
            j += 1;
        }
        proof {
            lemma_find_quote_exact(src, pos + 1, j as nat);
        }
        if j >= len {
            return Err(LexError::UnterminatedString);
        }
        let text = self.source.substring_char(self.position + 1, j).to_owned();
        self.position = j + 1;
        Ok(Token::new(TokenType::String, text))
    }

    /// Scans a numeric run; the scan position ends at the run's end.
    fn parse_number(&mut self) -> (t: Token)
        requires
            old(self).position < old(self).source@.len(),
            is_digit(old(self).source@[old(self).position as int]),
        ensures
            final(self).source == old(self).source,
            ({
                let src = old(self).source@;
                let pos = old(self).position as nat;
                let end = run_end_digits(src, pos);
                &&& t@ == (TokenView {
                    token_type: TokenType::Number,
                    value: src.subrange(pos as int, end as int),
                })
                &&& final(self).position == end
            }),
    {
        let ghost src = self.source@;
        let ghost pos = self.position as nat;
        let len = self.source.unicode_len();
        let mut j: usize = self.position;
        while j < len && is_digit_char(self.source.get_char(j))
            invariant
                pos <= j <= len,
                len == src.len(),
                self == old(self),
                src == self.source@,
                forall|k: int| pos <= k < j ==> is_digit(#[trigger] src[k]),
            decreases len - j,
        {
            j += 1;
        }
        proof {
            lemma_run_end_digits_exact(src, pos, j as nat);
        }
        let text = self.source.substring_char(self.position, j).to_owned();
        self.position = j;
        Token::new(TokenType::Number, text)
    }

    /// Scans an alphanumeric run and classifies it; the scan position ends
    /// at the run's end.
    fn parse_identif(&mut self) -> (t: Token)
        requires
            old(self).position < old(self).source@.len(),
            is_alnum(old(self).source@[old(self).position as int]),
        ensures
            final(self).source == old(self).source,
            ({
                let src = old(self).source@;
                let pos = old(self).position as nat;
                let end = run_end_alnum(src, pos);
                let text = src.subrange(pos as int, end as int);
                &&& t@ == (TokenView { token_type: keyword_type(text), value: text })
                &&& final(self).position == end
            }),
    {
        let ghost src = self.source@;
        let ghost pos = self.position as nat;
        let len = self.source.unicode_len();
        let mut j: usize = self.position;
        while j < len && is_alnum_char(self.source.get_char(j))
            invariant
                pos <= j <= len,
                len == src.len(),
                self == old(self),
                src == self.source@,
                forall|k: int| pos <= k < j ==> is_alnum(#[trigger] src[k]),
            decreases len - j,
        {
            j += 1;
        }
        proof {
            lemma_run_end_alnum_exact(src, pos, j as nat);
        }
        let text = self.source.substring_char(self.position, j).to_owned();
        self.position = j;
        let token_type = Self::parse_keyword(text.as_str());
        Token::new(token_type, text)
    }

    /// Scans the whole source into tokens, or reports the lex error the
    /// spec-level scanner reports.
    pub fn lex(&mut self) -> (r: Result<Vec<Token>, LexError>)
        requires
            old(self).position == 0,
        ensures
            final(self).source == old(self).source,
            match r {
                Ok(toks) => spec_lex(old(self).source@) == Ok::<_, LexError>(tokens_view(toks@)),
                Err(e) => spec_lex(old(self).source@) == Err::<Seq<TokenView>, _>(e),
            },
    {
        let ghost src = self.source@;
        let len = self.source.unicode_len();
        let mut tokens: Vec<Token> = Vec::new();
        while self.position < len
            invariant
                self.position <= len,
                len == src.len(),
                self.source == old(self).source,
                src == self.source@,
                spec_lex(src) == (match spec_lex_from(src, self.position as nat) {
                    Ok(rest) => Ok::<_, LexError>(tokens_view(tokens@) + rest),
                    Err(e) => Err::<Seq<TokenView>, _>(e),
                }),
            decreases len - self.position,
        {
            let ghost pos = self.position as nat;
            let ghost done = tokens_view(tokens@);
            let c = self.source.get_char(self.position);
            if c == '"' {
                proof {
                    lemma_find_quote(src, pos + 1);
                }
                let ghost close = find_quote(src, pos + 1);
                let ghost tokspec = TokenView {
                    token_type: TokenType::String,
                    value: src.subrange(pos as int + 1, close as int),
                };
                match self.parse_string() {
                    Ok(token) => {
                        tokens.push(token);
                        proof {
                            assert(tokens_view(tokens@) =~= done.push(tokspec));
                            lemma_lex_step(src, pos, done, tokens_view(tokens@), tokspec, close + 1);
                        }
                    },
                    Err(e) => {
                        proof {
                            assert(spec_lex_from(src, pos) == Err::<Seq<TokenView>, _>(e));
                        }
                        return Err(e);
                    },
                }
            } else if c >= '0' && c <= '9' {
                proof {
                    lemma_run_end_digits(src, pos);
                }
                let ghost end = run_end_digits(src, pos);
                let ghost tokspec = TokenView {
                    token_type: TokenType::Number,
                    value: src.subrange(pos as int, end as int),
                };
                let token = self.parse_number();
                tokens.push(token);
                proof {
                    assert(tokens_view(tokens@) =~= done.push(tokspec));
                    lemma_lex_step(src, pos, done, tokens_view(tokens@), tokspec, end);
                }
            } else if (c >= 'a' && c <= 'z') || (c >= 'A' && c <= 'Z') {
                proof {
                    lemma_run_end_alnum(src, pos);
                }
                let ghost end = run_end_alnum(src, pos);
                let ghost tokspec = TokenView {
                    token_type: keyword_type(src.subrange(pos as int, end as int)),
                    value: src.subrange(pos as int, end as int),
                };
                let token = self.parse_identif();
                tokens.push(token);
                proof {
                    assert(tokens_view(tokens@) =~= done.push(tokspec));
                    lemma_lex_step(src, pos, done, tokens_view(tokens@), tokspec, end);
                }
            } else {
                match Self::symbol_token_type(c) {
                    Some(token_type) => {
                        let text = self.source.substring_char(
                            self.position,
                            self.position + 1,
                        ).to_owned();
                        proof {
                            assert(src.subrange(pos as int, pos as int + 1) =~= seq![c]);
                        }
                        let token = Token::new(token_type, text);
                        tokens.push(token);
                        self.position += 1;
                        proof {
                            let tokspec = TokenView { token_type, value: seq![c] };
                            assert(tokens_view(tokens@) =~= done.push(tokspec));
                            lemma_lex_step(src, pos, done, tokens_view(tokens@), tokspec, pos + 1);
                        }
                    },
                    None => {
                        self.position += 1;
                        proof {
                            assert(spec_lex_from(src, pos) == spec_lex_from(src, pos + 1));
                        }
                    },
                }
            }
        }
        proof {
            assert(spec_lex_from(src, self.position as nat) == Ok::<_, LexError>(
                Seq::<TokenView>::empty(),
            ));
            assert(tokens_view(tokens@) + Seq::<TokenView>::empty() =~= tokens_view(tokens@));
        }
        Ok(tokens)
    }
}

} // verus!
