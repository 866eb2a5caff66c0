//! The parser: consumes the token sequence and produces a [`Program`] by
//! recursive descent with four expression precedence tiers (comparison,
//! additive, multiplicative, factor).
//!
//! Parsing is strict: every expected-token mismatch aborts with an error
//! carrying the expected kind and the kind actually found; no partial AST is
//! produced.  Each executable parsing routine is proved equal to a
//! spec-level twin (`spec_parse_*`) over the token views, so the whole
//! grammar, including which error is reported for which input, is pinned
//! down mathematically.
use crate::ast;
use crate::ast::{ExprView, StmtView};
use crate::token::{tokens_view, Token, TokenType, TokenView};
use vstd::prelude::*;

verus! {

/// A grammar failure: an expected-token mismatch, or a `return` statement
/// outside a function body.
#[derive(Debug, Clone, Copy, PartialEq, Eq, Structural)]
pub enum ParseError {
    Mismatch { expected: TokenType, found: TokenType },
    ReturnOutsideFunction,
}

/// An unspecified failure of the surrounding tooling; carried on the public
/// surface for callers that need an opaque error value.
#[derive(Debug, Clone, Copy, PartialEq, Eq, Structural)]
pub struct HmmgeError;

impl ParseError {
    /// A mismatch error: `expected` was required, `gotten` stood there.
    pub fn new(expected: TokenType, gotten: TokenType) -> (e: ParseError)
        ensures
            e == (ParseError::Mismatch { expected, found: gotten }),
    {
        ParseError::Mismatch { expected, found: gotten }
    }
}

/// The token at `pos`, or an `EOF` sentinel past the end.
pub open spec fn tok_at(toks: Seq<TokenView>, pos: nat) -> TokenView {
    if pos < toks.len() {
        toks[pos as int]
    } else {
        TokenView { token_type: TokenType::EOF, value: Seq::empty() }
    }
}

/// Consuming one token of the required kind: the token and the next
/// position, or the mismatch error.
pub open spec fn spec_advance(toks: Seq<TokenView>, pos: nat, tt: TokenType) -> Result<
    (TokenView, nat),
    ParseError,
> {
    if pos >= toks.len() {
        Err(ParseError::Mismatch { expected: tt, found: TokenType::EOF })
    } else if toks[pos as int].token_type == tt {
        Ok((toks[pos as int], (pos + 1) as nat))
    } else {
        Err(ParseError::Mismatch { expected: tt, found: toks[pos as int].token_type })
    }
}

/// Factor tier: a number or string literal, a parenthesized expression, a
/// prefix `+`/`-`, or an identifier (a call when a `(` follows, else a
/// variable).
pub open spec fn spec_parse_factor(toks: Seq<TokenView>, pos: nat) -> Result<
    (ExprView, nat),
    ParseError,
>
    decreases toks.len() - pos, 0int,
    when pos <= toks.len()
{
    let tok = tok_at(toks, pos);
    match tok.token_type {
        TokenType::Number | TokenType::String => Ok((ExprView::Literal(tok.value), pos + 1)),
        TokenType::Identif => {
            if tok_at(toks, pos + 1).token_type == TokenType::LParen {
                match spec_parse_function_arguments(toks, pos + 2) {
                    Ok((args, p)) => Ok((ExprView::FunctionCall(tok.value, args), p)),
                    Err(e) => Err(e),
                }
            } else {
                Ok((ExprView::Variable(tok.value), pos + 1))
            }
        },
        TokenType::LParen => {
            match spec_parse_expression(toks, pos + 1) {
                Ok((node, p)) => {
                    match spec_advance(toks, p, TokenType::RParen) {
                        Ok((_, p2)) => Ok((node, p2)),
                        Err(e) => Err(e),
                    }
                },
                Err(e) => Err(e),
            }
        },
        TokenType::Plus | TokenType::Minus => {
            match spec_parse_factor(toks, pos + 1) {
                Ok((node, p)) => Ok((ExprView::Unary(tok, Box::new(node)), p)),
                Err(e) => Err(e),
            }
        },
        _ => Err(ParseError::Mismatch { expected: TokenType::Invalid, found: tok.token_type }),
    }
}

/// The left fold of the multiplicative tier after its first factor.
pub open spec fn spec_parse_term_rest(toks: Seq<TokenView>, pos: nat, acc: ExprView) -> Result<
    (ExprView, nat),
    ParseError,
>
    decreases toks.len() - pos, 1int,
    when pos <= toks.len()
{
    let tok = tok_at(toks, pos);
    if tok.token_type == TokenType::Asterisk || tok.token_type == TokenType::Slash {
        match spec_parse_factor(toks, pos + 1) {
            Ok((right, p)) => {
                if p > pos && p <= toks.len() {
                    spec_parse_term_rest(
                        toks,
                        p,
                        ExprView::Binary(Box::new(acc), tok, Box::new(right)),
                    )
                } else {
                    // a factor always consumes at least one token, so this
                    // branch is never reached
                    Err(ParseError::Mismatch {
                        expected: TokenType::Invalid,
                        found: TokenType::Invalid,
                    })
                }
            },
            Err(e) => Err(e),
        }
    } else {
        Ok((acc, pos))
    }
}

/// Multiplicative tier (`*`, `/`): left-associative over factors.
pub open spec fn spec_parse_term(toks: Seq<TokenView>, pos: nat) -> Result<
    (ExprView, nat),
    ParseError,
>
    decreases toks.len() - pos, 2int,
    when pos <= toks.len()
{
    match spec_parse_factor(toks, pos) {
        Ok((node, p)) => if p > pos && p <= toks.len() {
            spec_parse_term_rest(toks, p, node)
        } else {
            Err(ParseError::Mismatch { expected: TokenType::Invalid, found: TokenType::Invalid })
        },
        Err(e) => Err(e),
    }
}

/// The left fold of the additive tier after its first term.
pub open spec fn spec_parse_primary_rest(toks: Seq<TokenView>, pos: nat, acc: ExprView) -> Result<
    (ExprView, nat),
    ParseError,
>
    decreases toks.len() - pos, 3int,
    when pos <= toks.len()
{
    let tok = tok_at(toks, pos);
    if tok.token_type == TokenType::Plus || tok.token_type == TokenType::Minus {
        match spec_parse_term(toks, pos + 1) {
            Ok((right, p)) => {
                if p > pos && p <= toks.len() {
                    spec_parse_primary_rest(
                        toks,
                        p,
                        ExprView::Binary(Box::new(acc), tok, Box::new(right)),
                    )
                } else {
                    Err(ParseError::Mismatch {
                        expected: TokenType::Invalid,
                        found: TokenType::Invalid,
                    })
                }
            },
            Err(e) => Err(e),
        }
    } else {
        Ok((acc, pos))
    }
}

/// Additive tier (`+`, `-`): left-associative over terms.
pub open spec fn spec_parse_primary_expression(toks: Seq<TokenView>, pos: nat) -> Result<
    (ExprView, nat),
    ParseError,
>
    decreases toks.len() - pos, 4int,
    when pos <= toks.len()
{
    match spec_parse_term(toks, pos) {
        Ok((node, p)) => if p > pos && p <= toks.len() {
            spec_parse_primary_rest(toks, p, node)
        } else {
            Err(ParseError::Mismatch { expected: TokenType::Invalid, found: TokenType::Invalid })
        },
        Err(e) => Err(e),
    }
}

/// The left fold of the comparison tier after its first operand.
pub open spec fn spec_parse_expression_rest(toks: Seq<TokenView>, pos: nat, acc: ExprView) -> Result<
    (ExprView, nat),
    ParseError,
>
    decreases toks.len() - pos, 5int,
    when pos <= toks.len()
{
    let tok = tok_at(toks, pos);
    if tok.token_type == TokenType::Gt || tok.token_type == TokenType::Lt {
        match spec_parse_primary_expression(toks, pos + 1) {
            Ok((right, p)) => {
                if p > pos && p <= toks.len() {
                    spec_parse_expression_rest(
                        toks,
                        p,
                        ExprView::Binary(Box::new(acc), tok, Box::new(right)),
                    )
                } else {
                    Err(ParseError::Mismatch {
                        expected: TokenType::Invalid,
                        found: TokenType::Invalid,
                    })
                }
            },
            Err(e) => Err(e),
        }
    } else {
        Ok((acc, pos))
    }
}

/// Comparison tier (`>`, `<`), the lowest precedence: a whole expression.
pub open spec fn spec_parse_expression(toks: Seq<TokenView>, pos: nat) -> Result<
    (ExprView, nat),
    ParseError,
>
    decreases toks.len() - pos, 6int,
    when pos <= toks.len()
{
    match spec_parse_primary_expression(toks, pos) {
        Ok((node, p)) => if p > pos && p <= toks.len() {
            spec_parse_expression_rest(toks, p, node)
        } else {
            Err(ParseError::Mismatch { expected: TokenType::Invalid, found: TokenType::Invalid })
        },
        Err(e) => Err(e),
    }
}

/// The remaining `, expr` pairs of an argument list, up to the `)`.
pub open spec fn spec_parse_arguments_rest(
    toks: Seq<TokenView>,
    pos: nat,
    acc: Seq<ExprView>,
) -> Result<(Seq<ExprView>, nat), ParseError>
    decreases toks.len() - pos, 0int,
    when pos <= toks.len()
{
    if tok_at(toks, pos).token_type == TokenType::RParen {
        Ok((acc, pos + 1))
    } else {
        match spec_advance(toks, pos, TokenType::Comma) {
            Ok((_, p)) => {
                match spec_parse_expression(toks, p) {
                    Ok((e, p2)) => {
                        if p2 > pos && p2 <= toks.len() {
                            spec_parse_arguments_rest(toks, p2, acc.push(e))
                        } else {
                            Err(ParseError::Mismatch {
                                expected: TokenType::Invalid,
                                found: TokenType::Invalid,
                            })
                        }
                    },
                    Err(e) => Err(e),
                }
            },
            Err(e) => Err(e),
        }
    }
}

/// A comma-separated argument list, empty allowed, ending at `)`; the
/// opening `(` is already consumed.
pub open spec fn spec_parse_function_arguments(toks: Seq<TokenView>, pos: nat) -> Result<
    (Seq<ExprView>, nat),
    ParseError,
>
    decreases toks.len() - pos, 7int,
    when pos <= toks.len()
{
    if tok_at(toks, pos).token_type == TokenType::RParen {
        Ok((Seq::empty(), pos + 1))
    } else {
        match spec_parse_expression(toks, pos) {
            Ok((e, p)) => {
                if p > pos && p <= toks.len() {
                    spec_parse_arguments_rest(toks, p, seq![e])
                } else {
                    Err(ParseError::Mismatch {
                        expected: TokenType::Invalid,
                        found: TokenType::Invalid,
                    })
                }
            },
            Err(e) => Err(e),
        }
    }
}

/// The remaining `, name` pairs of a parameter list, up to the `)`.
pub open spec fn spec_parse_params_rest(
    toks: Seq<TokenView>,
    pos: nat,
    acc: Seq<Seq<char>>,
) -> Result<(Seq<Seq<char>>, nat), ParseError>
    decreases toks.len() - pos, 0int,
    when pos <= toks.len()
{
    if tok_at(toks, pos).token_type == TokenType::RParen {
        Ok((acc, pos + 1))
    } else {
        match spec_advance(toks, pos, TokenType::Comma) {
            Ok((_, p)) => {
                match spec_advance(toks, p, TokenType::Identif) {
                    Ok((name, p2)) => spec_parse_params_rest(toks, p2, acc.push(name.value)),
                    Err(e) => Err(e),
                }
            },
            Err(e) => Err(e),
        }
    }
}

/// A comma-separated parameter-name list, empty allowed, ending at `)`; the
/// opening `(` is already consumed.
pub open spec fn spec_parse_function_params(toks: Seq<TokenView>, pos: nat) -> Result<
    (Seq<Seq<char>>, nat),
    ParseError,
>
    decreases toks.len() - pos, 1int,
    when pos <= toks.len()
{
    if tok_at(toks, pos).token_type == TokenType::RParen {
        Ok((Seq::empty(), pos + 1))
    } else {
        match spec_advance(toks, pos, TokenType::Identif) {
            Ok((name, p)) => spec_parse_params_rest(toks, p, seq![name.value]),
            Err(e) => Err(e),
        }
    }
}

/// `let` IDENT `=` expr `;` — the name, its initializer, and the next
/// position.
pub open spec fn spec_parse_declaration(toks: Seq<TokenView>, pos: nat) -> Result<
    (Seq<char>, ExprView, nat),
    ParseError,
>
    decreases toks.len() - pos, 8int,
    when pos <= toks.len()
{
    match spec_advance(toks, pos, TokenType::Let) {
        Ok((_, p1)) => {
            match spec_advance(toks, p1, TokenType::Identif) {
                Ok((name, p2)) => {
                    match spec_advance(toks, p2, TokenType::Assign) {
                        Ok((_, p3)) => {
                            match spec_parse_expression(toks, p3) {
                                Ok((e, p4)) => {
                                    match spec_advance(toks, p4, TokenType::Semicolon) {
                                        Ok((_, p5)) => Ok((name.value, e, p5)),
                                        Err(er) => Err(er),
                                    }
                                },
                                Err(er) => Err(er),
                            }
                        },
                        Err(er) => Err(er),
                    }
                },
                Err(er) => Err(er),
            }
        },
        Err(er) => Err(er),
    }
}

/// One statement, dispatched on the leading token.  `inf` is the "inside a
/// function body" parser state; the result carries the statement, the next
/// position, and the state after the statement.
pub open spec fn spec_parse_statement(toks: Seq<TokenView>, pos: nat, inf: bool) -> Result<
    (StmtView, nat, bool),
    ParseError,
>
    decreases toks.len() - pos, 9int,
    when pos <= toks.len()
{
    let tok = tok_at(toks, pos);
    match tok.token_type {
        TokenType::Print => {
            match spec_advance(toks, pos, TokenType::Print) {
                Ok((_, p1)) => {
                    match spec_parse_expression(toks, p1) {
                        Ok((e, p2)) => {
                            match spec_advance(toks, p2, TokenType::Semicolon) {
                                Ok((_, p3)) => Ok((StmtView::Print(e), p3, inf)),
                                Err(er) => Err(er),
                            }
                        },
                        Err(er) => Err(er),
                    }
                },
                Err(er) => Err(er),
            }
        },
        TokenType::Let => {
            match spec_parse_declaration(toks, pos) {
                Ok((name, e, p)) => Ok((StmtView::Declaration { identif: name, value: e }, p, inf)),
                Err(er) => Err(er),
            }
        },
        TokenType::If => {
            match spec_advance(toks, pos, TokenType::If) {
                Ok((_, p1)) => {
                    match spec_advance(toks, p1, TokenType::LParen) {
                        Ok((_, p2)) => {
                            match spec_parse_expression(toks, p2) {
                                Ok((cond, p3)) => {
                                    match spec_advance(toks, p3, TokenType::RParen) {
                                        Ok((_, p4)) => {
                                            if p4 > pos && p4 <= toks.len() {
                                                spec_parse_if_tail(toks, pos, p4, inf, cond)
                                            } else {
                                                Err(ParseError::Mismatch {
                                                    expected: TokenType::Invalid,
                                                    found: TokenType::Invalid,
                                                })
                                            }
                                        },
                                        Err(er) => Err(er),
                                    }
                                },
                                Err(er) => Err(er),
                            }
                        },
                        Err(er) => Err(er),
                    }
                },
                Err(er) => Err(er),
            }
        },
        TokenType::Func => {
            match spec_advance(toks, pos, TokenType::Func) {
                Ok((_, p1)) => {
                    match spec_advance(toks, p1, TokenType::Identif) {
                        Ok((name, p2)) => {
                            match spec_advance(toks, p2, TokenType::LParen) {
                                Ok((_, p3)) => {
                                    match spec_parse_function_params(toks, p3) {
                                        Ok((params, p4)) => {
                                            if p4 > pos && p4 <= toks.len() {
                                                match spec_parse_block(toks, p4, true) {
                                                    Ok((body, p5, _)) => Ok((
                                                        StmtView::FunctionDeclaration(
                                                            name.value,
                                                            params,
                                                            body,
                                                        ),
                                                        p5,
                                                        false,
                                                    )),
                                                    Err(er) => Err(er),
                                                }
                                            } else {
                                                Err(ParseError::Mismatch {
                                                    expected: TokenType::Invalid,
                                                    found: TokenType::Invalid,
                                                })
                                            }
                                        },
                                        Err(er) => Err(er),
                                    }
                                },
                                Err(er) => Err(er),
                            }
                        },
                        Err(er) => Err(er),
                    }
                },
                Err(er) => Err(er),
            }
        },
        TokenType::Return => {
            if !inf {
                Err(ParseError::ReturnOutsideFunction)
            } else {
                match spec_advance(toks, pos, TokenType::Return) {
                    Ok((_, p1)) => {
                        if tok_at(toks, p1).token_type == TokenType::Semicolon {
                            match spec_advance(toks, p1, TokenType::Semicolon) {
                                Ok((_, p2)) => Ok((StmtView::Return(None), p2, inf)),
                                Err(er) => Err(er),
                            }
                        } else {
                            match spec_parse_expression(toks, p1) {
                                Ok((e, p2)) => {
                                    match spec_advance(toks, p2, TokenType::Semicolon) {
                                        Ok((_, p3)) => Ok((StmtView::Return(Some(e)), p3, inf)),
                                        Err(er) => Err(er),
                                    }
                                },
                                Err(er) => Err(er),
                            }
                        }
                    },
                    Err(er) => Err(er),
                }
            }
        },
        TokenType::Identif => {
            match spec_advance(toks, pos, TokenType::Identif) {
                Ok((name, p1)) => {
                    let next = tok_at(toks, p1);
                    if next.token_type == TokenType::LParen {
                        match spec_advance(toks, p1, TokenType::LParen) {
                            Ok((_, p2)) => {
                                match spec_parse_function_arguments(toks, p2) {
                                    Ok((args, p3)) => {
                                        match spec_advance(toks, p3, TokenType::Semicolon) {
                                            Ok((_, p4)) => Ok((
                                                StmtView::FunctionCall(name.value, args),
                                                p4,
                                                inf,
                                            )),
                                            Err(er) => Err(er),
                                        }
                                    },
                                    Err(er) => Err(er),
                                }
                            },
                            Err(er) => Err(er),
                        }
                    } else if next.token_type == TokenType::Assign {
                        match spec_advance(toks, p1, TokenType::Assign) {
                            Ok((_, p2)) => {
                                match spec_parse_expression(toks, p2) {
                                    Ok((e, p3)) => {
                                        match spec_advance(toks, p3, TokenType::Semicolon) {
                                            Ok((_, p4)) => Ok((
                                                StmtView::Assignment {
                                                    identif: name.value,
                                                    value: e,
                                                },
                                                p4,
                                                inf,
                                            )),
                                            Err(er) => Err(er),
                                        }
                                    },
                                    Err(er) => Err(er),
                                }
                            },
                            Err(er) => Err(er),
                        }
                    } else {
                        Err(ParseError::Mismatch {
                            expected: TokenType::Invalid,
                            found: next.token_type,
                        })
                    }
                },
                Err(er) => Err(er),
            }
        },
        _ => Err(ParseError::Mismatch { expected: TokenType::Invalid, found: tok.token_type }),
    }
}

/// After `if ( cond )`: the then-block and an optional `else` block.
pub open spec fn spec_parse_if_tail(
    toks: Seq<TokenView>,
    pos0: nat,
    pos: nat,
    inf: bool,
    cond: ExprView,
) -> Result<(StmtView, nat, bool), ParseError>
    decreases toks.len() - pos0, 8int,
    when pos0 < pos <= toks.len()
{
    match spec_parse_block(toks, pos, inf) {
        Ok((body, p, inf2)) => {
            if tok_at(toks, p).token_type == TokenType::Else {
                match spec_advance(toks, p, TokenType::Else) {
                    Ok((_, p2)) => {
                        if p2 > pos0 && p2 <= toks.len() {
                            match spec_parse_block(toks, p2, inf2) {
                                Ok((ebody, p3, inf3)) => Ok((
                                    StmtView::IfElseBlock(cond, body, ebody),
                                    p3,
                                    inf3,
                                )),
                                Err(er) => Err(er),
                            }
                        } else {
                            Err(ParseError::Mismatch {
                                expected: TokenType::Invalid,
                                found: TokenType::Invalid,
                            })
                        }
                    },
                    Err(er) => Err(er),
                }
            } else {
                Ok((StmtView::IfBlock(cond, body), p, inf2))
            }
        },
        Err(er) => Err(er),
    }
}

/// The statements of a block after its `{`, up to the matching `}`.
pub open spec fn spec_parse_block_rest(
    toks: Seq<TokenView>,
    pos: nat,
    inf: bool,
    acc: Seq<StmtView>,
) -> Result<(Seq<StmtView>, nat, bool), ParseError>
    decreases toks.len() - pos, 10int,
    when pos <= toks.len()
{
    if tok_at(toks, pos).token_type == TokenType::RBrace {
        Ok((acc, pos + 1, inf))
    } else {
        match spec_parse_statement(toks, pos, inf) {
            Ok((st, p, inf2)) => {
                if p > pos && p <= toks.len() {
                    spec_parse_block_rest(toks, p, inf2, acc.push(st))
                } else {
                    Err(ParseError::Mismatch {
                        expected: TokenType::Invalid,
                        found: TokenType::Invalid,
                    })
                }
            },
            Err(er) => Err(er),
        }
    }
}

/// `{` statement* `}`.
pub open spec fn spec_parse_block(toks: Seq<TokenView>, pos: nat, inf: bool) -> Result<
    (Seq<StmtView>, nat, bool),
    ParseError,
>
    decreases toks.len() - pos, 11int,
    when pos <= toks.len()
{
    match spec_advance(toks, pos, TokenType::LBrace) {
        Ok((_, p)) => spec_parse_block_rest(toks, p, inf, Seq::empty()),
        Err(er) => Err(er),
    }
}

/// The top-level statements, parsed until end-of-input.
pub open spec fn spec_parse_program_rest(
    toks: Seq<TokenView>,
    pos: nat,
    inf: bool,
    acc: Seq<StmtView>,
) -> Result<(Seq<StmtView>, nat, bool), ParseError>
    decreases toks.len() - pos, 10int,
    when pos <= toks.len()
{
    if tok_at(toks, pos).token_type == TokenType::EOF {
        Ok((acc, pos, inf))
    } else {
        match spec_parse_statement(toks, pos, inf) {
            Ok((st, p, inf2)) => {
                if p > pos && p <= toks.len() {
                    spec_parse_program_rest(toks, p, inf2, acc.push(st))
                } else {
                    Err(ParseError::Mismatch {
                        expected: TokenType::Invalid,
                        found: TokenType::Invalid,
                    })
                }
            },
            Err(er) => Err(er),
        }
    }
}

/// What parsing a whole token sequence yields: the program's statement
/// views, or the first error.
pub open spec fn spec_parse_program(toks: Seq<TokenView>) -> Result<Seq<StmtView>, ParseError> {
    match spec_parse_program_rest(toks, 0, false, Seq::empty()) {
        Ok((ss, _, _)) => Ok(ss),
        Err(er) => Err(er),
    }
}

/// The parser state: the token sequence, the next token's index, and
/// whether the position stands inside a function body (which licenses
/// `return`).
pub struct Parser {
    pub tokens: Vec<Token>,
    pub position: usize,
    pub in_function: bool,
}

impl Parser {
    /// The views of the tokens being parsed.
    pub open spec fn toks(&self) -> Seq<TokenView> {
        tokens_view(self.tokens@)
    }

    /// The position never passes the end of the token sequence (which, as
    /// the contents of a vector, fits a `usize`).
    pub open spec fn wf(&self) -> bool {
        self.position <= self.tokens@.len() && self.tokens@.len() <= usize::MAX
    }

    pub fn new(tokens: Vec<Token>) -> (p: Parser)
        ensures
            p.tokens == tokens,
            p.position == 0,
            p.in_function == false,
            p.wf(),
    {
        proof {
            assert(tokens.len() == tokens@.len());
        }
        Parser { tokens, position: 0, in_function: false }
    }

    /// The token at the current position, or an `EOF` token past the end.
    fn current_token(&self) -> (t: Token)
        ensures
            t@ == tok_at(self.toks(), self.position as nat),
    {
        if self.position >= self.tokens.len() {
            return Token::new(TokenType::EOF, String::new());
        }
        self.tokens[self.position].duplicate()
    }

    /// Consumes the current token if it has the required kind, and reports a
    /// mismatch otherwise.
    fn advance_with_type(&mut self, token_type: TokenType) -> (r: Result<Token, ParseError>)
        requires
            old(self).wf(),
        ensures
            final(self).tokens == old(self).tokens,
            final(self).in_function == old(self).in_function,
            final(self).wf(),
            match r {
                Ok(t) => spec_advance(old(self).toks(), old(self).position as nat, token_type)
                    == Ok::<_, ParseError>((t@, final(self).position as nat)) && final(self).position == old(self).position + 1,
                Err(e) => spec_advance(old(self).toks(), old(self).position as nat, token_type)
                    == Err::<(TokenView, nat), _>(e) && *final(self) == *old(self),
            },
    {
        if self.position >= self.tokens.len() {
            return Err(ParseError::new(token_type, TokenType::EOF));
        }
        let token = self.tokens[self.position].duplicate();
        if token.token_type == token_type {
            self.position += 1;
            Ok(token)
        } else {
            Err(ParseError::new(token_type, token.token_type))
        }
    }

    fn parse_factor(&mut self) -> (r: Result<ast::Expression, ParseError>)
        requires
            old(self).wf(),
        ensures
            final(self).tokens == old(self).tokens,
            final(self).in_function == old(self).in_function,
            final(self).wf(),
            match r {
                Ok(e) => spec_parse_factor(old(self).toks(), old(self).position as nat)
                    == Ok::<_, ParseError>((e@, final(self).position as nat)) && final(self).position > old(self).position,
                Err(pe) => spec_parse_factor(old(self).toks(), old(self).position as nat)
                    == Err::<(ExprView, nat), _>(pe),
            },
        decreases old(self).tokens@.len() - old(self).position, 0int,
    {
        let ghost toks = self.toks();
        let ghost pos0 = self.position as nat;
        let token = self.current_token();
        match token.token_type {
            TokenType::Number | TokenType::String => {
                proof {
                    assert(pos0 < toks.len());
                }
                self.position += 1;
                Ok(ast::Expression {
                    expression_type: ast::ExpressionType::Literal(token.value),
                })
            },
            TokenType::Identif => {
                proof {
                    assert(pos0 < toks.len());
                }
                self.position += 1;
                let next = self.current_token();
                if next.token_type == TokenType::LParen {
                    proof {
                        assert(pos0 + 1 < toks.len());
                    }
                    self.position += 1;
                    match self.parse_function_arguments() {
                        Ok(arguments) => Ok(ast::Expression {
                            expression_type: ast::ExpressionType::FunctionCall(
                                token.value,
                                Box::new(arguments),
                            ),
                        }),
                        Err(e) => Err(e),
                    }
                } else {
                    Ok(ast::Expression {
                        expression_type: ast::ExpressionType::Variable(token.value),
                    })
                }
            },
            TokenType::LParen => {
                match self.advance_with_type(TokenType::LParen) {
                    Ok(_) => {},
                    Err(e) => {
                        return Err(e);
                    },
                }
                let node = match self.parse_expression() {
                    Ok(n) => n,
                    Err(e) => {
                        return Err(e);
                    },
                };
                match self.advance_with_type(TokenType::RParen) {
                    Ok(_) => {},
                    Err(e) => {
                        return Err(e);
                    },
                }
                Ok(node)
            },
            TokenType::Plus | TokenType::Minus => {
                proof {
                    assert(pos0 < toks.len());
                }
                self.position += 1;
                match self.parse_factor() {
                    Ok(node) => Ok(ast::Expression {
                        expression_type: ast::ExpressionType::Unary(token, Box::new(node)),
                    }),
                    Err(e) => Err(e),
                }
            },
            _ => Err(ParseError::new(TokenType::Invalid, token.token_type)),
        }
    }

    fn parse_term(&mut self) -> (r: Result<ast::Expression, ParseError>)
        requires
            old(self).wf(),
        ensures
            final(self).tokens == old(self).tokens,
            final(self).in_function == old(self).in_function,
            final(self).wf(),
            match r {
                Ok(e) => spec_parse_term(old(self).toks(), old(self).position as nat)
                    == Ok::<_, ParseError>((e@, final(self).position as nat)) && final(self).position > old(self).position,
                Err(pe) => spec_parse_term(old(self).toks(), old(self).position as nat)
                    == Err::<(ExprView, nat), _>(pe),
            },
        decreases old(self).tokens@.len() - old(self).position, 2int,
    {
        let ghost toks = self.toks();
        let ghost pos0 = self.position as nat;
        let mut node = match self.parse_factor() {
            Ok(n) => n,
            Err(e) => {
                return Err(e);
            },
        };
        loop
            invariant
                self.wf(),
                self.tokens == old(self).tokens,
                self.in_function == old(self).in_function,
                toks == self.toks(),
                toks == old(self).toks(),
                pos0 == old(self).position as nat,
                pos0 < self.position,
                spec_parse_term(toks, pos0) == spec_parse_term_rest(
                    toks,
                    self.position as nat,
                    node@,
                ),
            ensures
                self.wf(),
                self.tokens == old(self).tokens,
                self.in_function == old(self).in_function,
                pos0 < self.position,
                spec_parse_term(toks, pos0) == Ok::<_, ParseError>((
                    node@,
                    self.position as nat,
                )),
            decreases self.tokens@.len() - self.position,
        {
            let tok = self.current_token();
            if !(tok.token_type == TokenType::Asterisk || tok.token_type == TokenType::Slash) {
                break;
            }
            self.position += 1;
            match self.parse_factor() {
                Ok(right) => {
                    node = ast::Expression {
                        expression_type: ast::ExpressionType::Binary(
                            Box::new(node),
                            tok,
                            Box::new(right),
                        ),
                    };
                },
                Err(e) => {
                    return Err(e);
                },
            }
        }
        Ok(node)
    }

    fn parse_primary_expression(&mut self) -> (r: Result<ast::Expression, ParseError>)
        requires
            old(self).wf(),
        ensures
            final(self).tokens == old(self).tokens,
            final(self).in_function == old(self).in_function,
            final(self).wf(),
            match r {
                Ok(e) => spec_parse_primary_expression(old(self).toks(), old(self).position as nat)
                    == Ok::<_, ParseError>((e@, final(self).position as nat)) && final(self).position > old(self).position,
                Err(pe) => spec_parse_primary_expression(
                    old(self).toks(),
                    old(self).position as nat,
                ) == Err::<(ExprView, nat), _>(pe),
            },
        decreases old(self).tokens@.len() - old(self).position, 4int,
    {
        let ghost toks = self.toks();
        let ghost pos0 = self.position as nat;
        let mut node = match self.parse_term() {
            Ok(n) => n,
            Err(e) => {
                return Err(e);
            },
        };
        loop
            invariant
                self.wf(),
                self.tokens == old(self).tokens,
                self.in_function == old(self).in_function,
                toks == self.toks(),
                toks == old(self).toks(),
                pos0 == old(self).position as nat,
                pos0 < self.position,
                spec_parse_primary_expression(toks, pos0) == spec_parse_primary_rest(
                    toks,
                    self.position as nat,
                    node@,
                ),
            ensures
                self.wf(),
                self.tokens == old(self).tokens,
                self.in_function == old(self).in_function,
                pos0 < self.position,
                spec_parse_primary_expression(toks, pos0) == Ok::<_, ParseError>((
                    node@,
                    self.position as nat,
                )),
            decreases self.tokens@.len() - self.position,
        {
            let tok = self.current_token();
            if !(tok.token_type == TokenType::Plus || tok.token_type == TokenType::Minus) {
                break;
            }
            self.position += 1;
            match self.parse_term() {
                Ok(right) => {
                    node = ast::Expression {
                        expression_type: ast::ExpressionType::Binary(
                            Box::new(node),
                            tok,
                            Box::new(right),
                        ),
                    };
                },
                Err(e) => {
                    return Err(e);
                },
            }
        }
        Ok(node)
    }

    fn parse_expression(&mut self) -> (r: Result<ast::Expression, ParseError>)
        requires
            old(self).wf(),
        ensures
            final(self).tokens == old(self).tokens,
            final(self).in_function == old(self).in_function,
            final(self).wf(),
            match r {
                Ok(e) => spec_parse_expression(old(self).toks(), old(self).position as nat)
                    == Ok::<_, ParseError>((e@, final(self).position as nat)) && final(self).position > old(self).position,
                Err(pe) => spec_parse_expression(old(self).toks(), old(self).position as nat)
                    == Err::<(ExprView, nat), _>(pe),
            },
        decreases old(self).tokens@.len() - old(self).position, 6int,
    {
        let ghost toks = self.toks();
        let ghost pos0 = self.position as nat;
        let mut node = match self.parse_primary_expression() {
            Ok(n) => n,
            Err(e) => {
                return Err(e);
            },
        };
        loop
            invariant
                self.wf(),
                self.tokens == old(self).tokens,
                self.in_function == old(self).in_function,
                toks == self.toks(),
                toks == old(self).toks(),
                pos0 == old(self).position as nat,
                pos0 < self.position,
                spec_parse_expression(toks, pos0) == spec_parse_expression_rest(
                    toks,
                    self.position as nat,
                    node@,
                ),
            ensures
                self.wf(),
                self.tokens == old(self).tokens,
                self.in_function == old(self).in_function,
                pos0 < self.position,
                spec_parse_expression(toks, pos0) == Ok::<_, ParseError>((
                    node@,
                    self.position as nat,
                )),
            decreases self.tokens@.len() - self.position,
        {
            let tok = self.current_token();
            if !(tok.token_type == TokenType::Gt || tok.token_type == TokenType::Lt) {
                break;
            }
            self.position += 1;
            match self.parse_primary_expression() {
                Ok(right) => {
                    node = ast::Expression {
                        expression_type: ast::ExpressionType::Binary(
                            Box::new(node),
                            tok,
                            Box::new(right),
                        ),
                    };
                },
                Err(e) => {
                    return Err(e);
                },
            }
        }
        Ok(node)
    }

    fn parse_function_arguments(&mut self) -> (r: Result<Vec<ast::Expression>, ParseError>)
        requires
            old(self).wf(),
        ensures
            final(self).tokens == old(self).tokens,
            final(self).in_function == old(self).in_function,
            final(self).wf(),
            match r {
                Ok(v) => spec_parse_function_arguments(old(self).toks(), old(self).position as nat)
                    == Ok::<_, ParseError>((ast::exprs_view(v@), final(self).position as nat))
                    && final(self).position > old(self).position,
                Err(pe) => spec_parse_function_arguments(
                    old(self).toks(),
                    old(self).position as nat,
                ) == Err::<(Seq<ExprView>, nat), _>(pe),
            },
        decreases old(self).tokens@.len() - old(self).position, 7int,
    {
        let ghost toks = self.toks();
        let ghost pos0 = self.position as nat;
        let mut arguments: Vec<ast::Expression> = Vec::new();
        let tok = self.current_token();
        if tok.token_type == TokenType::RParen {
            self.position += 1;
            proof {
                assert(ast::exprs_view(arguments@) =~= Seq::<ExprView>::empty());
            }
            return Ok(arguments);
        }
        match self.parse_expression() {
            Ok(e) => {
                proof {
                    ast::lemma_exprs_view_push(arguments@, e);
                    assert(ast::exprs_view(arguments@).push(e@) =~= seq![e@]);
                }
                arguments.push(e);
            },
            Err(e) => {
                return Err(e);
            },
        }
        loop
            invariant
                self.wf(),
                self.tokens == old(self).tokens,
                self.in_function == old(self).in_function,
                toks == self.toks(),
                toks == old(self).toks(),
                pos0 == old(self).position as nat,
                pos0 < self.position,
                spec_parse_function_arguments(toks, pos0) == spec_parse_arguments_rest(
                    toks,
                    self.position as nat,
                    ast::exprs_view(arguments@),
                ),
            ensures
                self.wf(),
                self.tokens == old(self).tokens,
                self.in_function == old(self).in_function,
                pos0 < self.position,
                tok_at(toks, self.position as nat).token_type == TokenType::RParen,
                spec_parse_function_arguments(toks, pos0) == spec_parse_arguments_rest(
                    toks,
                    self.position as nat,
                    ast::exprs_view(arguments@),
                ),
            decreases self.tokens@.len() - self.position,
        {
            let tok = self.current_token();
            if tok.token_type == TokenType::RParen {
                break;
            }
            match self.advance_with_type(TokenType::Comma) {
                Ok(_) => {},
                Err(e) => {
                    return Err(e);
                },
            }
            match self.parse_expression() {
                Ok(e) => {
                    proof {
                        ast::lemma_exprs_view_push(arguments@, e);
                    }
                    arguments.push(e);
                },
                Err(e) => {
                    return Err(e);
                },
            }
        }
        self.position += 1;
        Ok(arguments)
    }

    fn parse_function_params(&mut self) -> (r: Result<Vec<String>, ParseError>)
        requires
            old(self).wf(),
        ensures
            final(self).tokens == old(self).tokens,
            final(self).in_function == old(self).in_function,
            final(self).wf(),
            match r {
                Ok(v) => spec_parse_function_params(old(self).toks(), old(self).position as nat)
                    == Ok::<_, ParseError>((ast::names_view(v@), final(self).position as nat))
                    && final(self).position > old(self).position,
                Err(pe) => spec_parse_function_params(old(self).toks(), old(self).position as nat)
                    == Err::<(Seq<Seq<char>>, nat), _>(pe),
            },
        decreases old(self).tokens@.len() - old(self).position, 1int,
    {
        let ghost toks = self.toks();
        let ghost pos0 = self.position as nat;
        let mut params: Vec<String> = Vec::new();
        let tok = self.current_token();
        if tok.token_type == TokenType::RParen {
            self.position += 1;
            proof {
                assert(ast::names_view(params@) =~= Seq::<Seq<char>>::empty());
            }
            return Ok(params);
        }
        match self.advance_with_type(TokenType::Identif) {
            Ok(name) => {
                proof {
                    ast::lemma_names_view_push(params@, name.value);
                    assert(ast::names_view(params@).push(name.value@) =~= seq![name@.value]);
                }
                params.push(name.value);
            },
            Err(e) => {
                return Err(e);
            },
        }
        loop
            invariant
                self.wf(),
                self.tokens == old(self).tokens,
                self.in_function == old(self).in_function,
                toks == self.toks(),
                toks == old(self).toks(),
                pos0 == old(self).position as nat,
                pos0 < self.position,
                spec_parse_function_params(toks, pos0) == spec_parse_params_rest(
                    toks,
                    self.position as nat,
                    ast::names_view(params@),
                ),
            ensures
                self.wf(),
                self.tokens == old(self).tokens,
                self.in_function == old(self).in_function,
                pos0 < self.position,
                tok_at(toks, self.position as nat).token_type == TokenType::RParen,
                spec_parse_function_params(toks, pos0) == spec_parse_params_rest(
                    toks,
                    self.position as nat,
                    ast::names_view(params@),
                ),
            decreases self.tokens@.len() - self.position,
        {
            let tok = self.current_token();
            if tok.token_type == TokenType::RParen {
                break;
            }
            match self.advance_with_type(TokenType::Comma) {
                Ok(_) => {},
                Err(e) => {
                    return Err(e);
                },
            }
            match self.advance_with_type(TokenType::Identif) {
                Ok(name) => {
                    proof {
                        ast::lemma_names_view_push(params@, name.value);
                    }
                    params.push(name.value);
                },
                Err(e) => {
                    return Err(e);
                },
            }
        }
        self.position += 1;
        Ok(params)
    }

    fn parse_declaration(&mut self) -> (r: Result<ast::Declaration, ParseError>)
        requires
            old(self).wf(),
        ensures
            final(self).tokens == old(self).tokens,
            final(self).in_function == old(self).in_function,
            final(self).wf(),
            match r {
                Ok(d) => spec_parse_declaration(old(self).toks(), old(self).position as nat)
                    == Ok::<_, ParseError>((d.identif@, d.value@, final(self).position as nat))
                    && final(self).position > old(self).position,
                Err(pe) => spec_parse_declaration(old(self).toks(), old(self).position as nat)
                    == Err::<(Seq<char>, ExprView, nat), _>(pe),
            },
        decreases old(self).tokens@.len() - old(self).position, 8int,
    {
        match self.advance_with_type(TokenType::Let) {
            Ok(_) => {},
            Err(e) => {
                return Err(e);
            },
        }
        let identif_token = match self.advance_with_type(TokenType::Identif) {
            Ok(t) => t,
            Err(e) => {
                return Err(e);
            },
        };
        match self.advance_with_type(TokenType::Assign) {
            Ok(_) => {},
            Err(e) => {
                return Err(e);
            },
        }
        let expression = match self.parse_expression() {
            Ok(e) => e,
            Err(e) => {
                return Err(e);
            },
        };
        match self.advance_with_type(TokenType::Semicolon) {
            Ok(_) => {},
            Err(e) => {
                return Err(e);
            },
        }
        Ok(ast::Declaration { identif: identif_token.value, value: expression })
    }

    /// One statement, dispatched on its leading token.
    #[verifier::rlimit(100)]
    pub fn parse_statement(&mut self) -> (r: Result<ast::Statement, ParseError>)
        requires
            old(self).wf(),
        ensures
            final(self).tokens == old(self).tokens,
            final(self).wf(),
            match r {
                Ok(st) => spec_parse_statement(
                    old(self).toks(),
                    old(self).position as nat,
                    old(self).in_function,
                ) == Ok::<_, ParseError>((
                    st@,
                    final(self).position as nat,
                    final(self).in_function,
                )) && final(self).position > old(self).position,
                Err(pe) => spec_parse_statement(
                    old(self).toks(),
                    old(self).position as nat,
                    old(self).in_function,
                ) == Err::<(StmtView, nat, bool), _>(pe),
            },
        decreases old(self).tokens@.len() - old(self).position, 9int,
    {
        let ghost toks = self.toks();
        let ghost pos0 = self.position as nat;
        let ghost inf0 = self.in_function;
        let token = self.current_token();
        match token.token_type {
            TokenType::Print => {
                match self.advance_with_type(TokenType::Print) {
                    Ok(_) => {},
                    Err(e) => {
                        return Err(e);
                    },
                }
                let expr = match self.parse_expression() {
                    Ok(e) => e,
                    Err(e) => {
                        return Err(e);
                    },
                };
                match self.advance_with_type(TokenType::Semicolon) {
                    Ok(_) => {},
                    Err(e) => {
                        return Err(e);
                    },
                }
                Ok(ast::Statement {
                    statement_type: ast::StatementType::Print(Box::new(expr)),
                })
            },
            TokenType::Let => {
                let declaration = match self.parse_declaration() {
                    Ok(d) => d,
                    Err(e) => {
                        return Err(e);
                    },
                };
                Ok(ast::Statement {
                    statement_type: ast::StatementType::Declaration(declaration),
                })
            },
            TokenType::If => {
                match self.advance_with_type(TokenType::If) {
                    Ok(_) => {},
                    Err(e) => {
                        return Err(e);
                    },
                }
                match self.advance_with_type(TokenType::LParen) {
                    Ok(_) => {},
                    Err(e) => {
                        return Err(e);
                    },
                }
                let expression = match self.parse_expression() {
                    Ok(e) => e,
                    Err(e) => {
                        return Err(e);
                    },
                };
                match self.advance_with_type(TokenType::RParen) {
                    Ok(_) => {},
                    Err(e) => {
                        return Err(e);
                    },
                }
                let statements = match self.parse_block() {
                    Ok(b) => b,
                    Err(e) => {
                        return Err(e);
                    },
                };
                let next = self.current_token();
                if next.token_type == TokenType::Else {
                    match self.advance_with_type(TokenType::Else) {
                        Ok(_) => {},
                        Err(e) => {
                            return Err(e);
                        },
                    }
                    let else_statements = match self.parse_block() {
                        Ok(b) => b,
                        Err(e) => {
                            return Err(e);
                        },
                    };
                    Ok(ast::Statement {
                        statement_type: ast::StatementType::IfElseBlock(
                            Box::new(expression),
                            Box::new(statements),
                            Box::new(else_statements),
                        ),
                    })
                } else {
                    Ok(ast::Statement {
                        statement_type: ast::StatementType::IfBlock(
                            Box::new(expression),
                            Box::new(statements),
                        ),
                    })
                }
            },
            TokenType::Func => {
                match self.advance_with_type(TokenType::Func) {
                    Ok(_) => {},
                    Err(e) => {
                        return Err(e);
                    },
                }
                let identif = match self.advance_with_type(TokenType::Identif) {
                    Ok(t) => t,
                    Err(e) => {
                        return Err(e);
                    },
                };
                match self.advance_with_type(TokenType::LParen) {
                    Ok(_) => {},
                    Err(e) => {
                        return Err(e);
                    },
                }
                let params = match self.parse_function_params() {
                    Ok(p) => p,
                    Err(e) => {
                        return Err(e);
                    },
                };
                self.in_function = true;
                let block = match self.parse_block() {
                    Ok(b) => b,
                    Err(e) => {
                        self.in_function = false;
                        return Err(e);
                    },
                };
                self.in_function = false;
                Ok(ast::Statement {
                    statement_type: ast::StatementType::FunctionDeclaration(
                        identif.value,
                        std::rc::Rc::new(params),
                        std::rc::Rc::new(block),
                    ),
                })
            },
            TokenType::Return => {
                if !self.in_function {
                    return Err(ParseError::ReturnOutsideFunction);
                }
                match self.advance_with_type(TokenType::Return) {
                    Ok(_) => {},
                    Err(e) => {
                        return Err(e);
                    },
                }
                let next = self.current_token();
                if next.token_type == TokenType::Semicolon {
                    match self.advance_with_type(TokenType::Semicolon) {
                        Ok(_) => {},
                        Err(e) => {
                            return Err(e);
                        },
                    }
                    Ok(ast::Statement {
                        statement_type: ast::StatementType::Return(None),
                    })
                } else {
                    let expr = match self.parse_expression() {
                        Ok(e) => e,
                        Err(e) => {
                            return Err(e);
                        },
                    };
                    match self.advance_with_type(TokenType::Semicolon) {
                        Ok(_) => {},
                        Err(e) => {
                            return Err(e);
                        },
                    }
                    Ok(ast::Statement {
                        statement_type: ast::StatementType::Return(Some(Box::new(expr))),
                    })
                }
            },
            TokenType::Identif => {
                let identif = match self.advance_with_type(TokenType::Identif) {
                    Ok(t) => t,
                    Err(e) => {
                        return Err(e);
                    },
                };
                let next = self.current_token();
                if next.token_type == TokenType::LParen {
                    match self.advance_with_type(TokenType::LParen) {
                        Ok(_) => {},
                        Err(e) => {
                            return Err(e);
                        },
                    }
                    let arguments = match self.parse_function_arguments() {
                        Ok(a) => a,
                        Err(e) => {
                            return Err(e);
                        },
                    };
                    match self.advance_with_type(TokenType::Semicolon) {
                        Ok(_) => {},
                        Err(e) => {
                            return Err(e);
                        },
                    }
                    Ok(ast::Statement {
                        statement_type: ast::StatementType::FunctionCall(
                            identif.value,
                            Box::new(arguments),
                        ),
                    })
                } else if next.token_type == TokenType::Assign {
                    match self.advance_with_type(TokenType::Assign) {
                        Ok(_) => {},
                        Err(e) => {
                            return Err(e);
                        },
                    }
                    let expr = match self.parse_expression() {
                        Ok(e) => e,
                        Err(e) => {
                            return Err(e);
                        },
                    };
                    match self.advance_with_type(TokenType::Semicolon) {
                        Ok(_) => {},
                        Err(e) => {
                            return Err(e);
                        },
                    }
                    Ok(ast::Statement {
                        statement_type: ast::StatementType::Assignment(ast::Assignment {
                            identif: identif.value,
                            value: expr,
                        }),
                    })
                } else {
                    Err(ParseError::new(TokenType::Invalid, next.token_type))
                }
            },
            _ => Err(ParseError::new(TokenType::Invalid, token.token_type)),
        }
    }

    /// `{` statement* `}`.
    fn parse_block(&mut self) -> (r: Result<Vec<ast::Statement>, ParseError>)
        requires
            old(self).wf(),
        ensures
            final(self).tokens == old(self).tokens,
            final(self).wf(),
            match r {
                Ok(v) => spec_parse_block(
                    old(self).toks(),
                    old(self).position as nat,
                    old(self).in_function,
                ) == Ok::<_, ParseError>((
                    ast::stmts_view(v@),
                    final(self).position as nat,
                    final(self).in_function,
                )) && final(self).position > old(self).position,
                Err(pe) => spec_parse_block(
                    old(self).toks(),
                    old(self).position as nat,
                    old(self).in_function,
                ) == Err::<(Seq<StmtView>, nat, bool), _>(pe),
            },
        decreases old(self).tokens@.len() - old(self).position, 11int,
    {
        let ghost toks = self.toks();
        let ghost pos0 = self.position as nat;
        let ghost inf0 = self.in_function;
        let mut statements: Vec<ast::Statement> = Vec::new();
        match self.advance_with_type(TokenType::LBrace) {
            Ok(_) => {},
            Err(e) => {
                return Err(e);
            },
        }
        proof {
            assert(ast::stmts_view(statements@) =~= Seq::<StmtView>::empty());
        }
        loop
            invariant
                self.wf(),
                self.tokens == old(self).tokens,
                toks == self.toks(),
                toks == old(self).toks(),
                pos0 == old(self).position as nat,
                inf0 == old(self).in_function,
                pos0 < self.position,
                spec_parse_block(toks, pos0, inf0) == spec_parse_block_rest(
                    toks,
                    self.position as nat,
                    self.in_function,
                    ast::stmts_view(statements@),
                ),
            ensures
                self.wf(),
                self.tokens == old(self).tokens,
                pos0 < self.position,
                tok_at(toks, self.position as nat).token_type == TokenType::RBrace,
                spec_parse_block(toks, pos0, inf0) == spec_parse_block_rest(
                    toks,
                    self.position as nat,
                    self.in_function,
                    ast::stmts_view(statements@),
                ),
            decreases self.tokens@.len() - self.position,
        {
            let tok = self.current_token();
            if tok.token_type == TokenType::RBrace {
                break;
            }
            match self.parse_statement() {
                Ok(statement) => {
                    proof {
                        ast::lemma_stmts_view_push(statements@, statement);
                    }
                    statements.push(statement);
                },
                Err(e) => {
                    return Err(e);
                },
            }
        }
        self.position += 1;
        Ok(statements)
    }

    /// The top-level statements, parsed until end-of-input.
    pub fn parse_program(&mut self) -> (r: Result<ast::Program, ParseError>)
        requires
            old(self).wf(),
        ensures
            final(self).tokens == old(self).tokens,
            final(self).wf(),
            match r {
                Ok(prog) => spec_parse_program_rest(
                    old(self).toks(),
                    old(self).position as nat,
                    old(self).in_function,
                    Seq::empty(),
                ) == Ok::<_, ParseError>((
                    prog@,
                    final(self).position as nat,
                    final(self).in_function,
                )),
                Err(pe) => spec_parse_program_rest(
                    old(self).toks(),
                    old(self).position as nat,
                    old(self).in_function,
                    Seq::empty(),
                ) == Err::<(Seq<StmtView>, nat, bool), _>(pe),
            },
        decreases old(self).tokens@.len() - old(self).position, 12int,
    {
        let ghost toks = self.toks();
        let ghost pos0 = self.position as nat;
        let ghost inf0 = self.in_function;
        let mut statements: Vec<ast::Statement> = Vec::new();
        proof {
            assert(ast::stmts_view(statements@) =~= Seq::<StmtView>::empty());
        }
        loop
            invariant
                self.wf(),
                self.tokens == old(self).tokens,
                toks == self.toks(),
                toks == old(self).toks(),
                pos0 == old(self).position as nat,
                inf0 == old(self).in_function,
                pos0 <= self.position,
                spec_parse_program_rest(toks, pos0, inf0, Seq::empty())
                    == spec_parse_program_rest(
                    toks,
                    self.position as nat,
                    self.in_function,
                    ast::stmts_view(statements@),
                ),
            ensures
                self.wf(),
                self.tokens == old(self).tokens,
                pos0 <= self.position,
                spec_parse_program_rest(toks, pos0, inf0, Seq::empty()) == Ok::<_, ParseError>((
                    ast::stmts_view(statements@),
                    self.position as nat,
                    self.in_function,
                )),
            decreases self.tokens@.len() - self.position,
        {
            let tok = self.current_token();
            if tok.token_type == TokenType::EOF {
                break;
            }
            match self.parse_statement() {
                Ok(statement) => {
                    proof {
                        ast::lemma_stmts_view_push(statements@, statement);
                    }
                    statements.push(statement);
                },
                Err(e) => {
                    return Err(e);
                },
            }
        }
        Ok(ast::Program { statements })
    }

    /// Parses the whole token sequence into a program, or reports the first
    /// grammar error; no partial program is produced.
    pub fn parse(&mut self) -> (r: Result<ast::Program, ParseError>)
        requires
            old(self).wf(),
            old(self).position == 0,
            old(self).in_function == false,
        ensures
            final(self).tokens == old(self).tokens,
            final(self).wf(),
            match r {
                Ok(prog) => spec_parse_program(old(self).toks()) == Ok::<_, ParseError>(prog@),
                Err(pe) => spec_parse_program(old(self).toks()) == Err::<Seq<StmtView>, _>(pe),
            },
    {
        self.parse_program()
    }
}

} // verus!
