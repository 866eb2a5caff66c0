//! Laws of the interpreter that span several components, each stated and
//! proved over the spec-level scanner, grammar and semantics that the
//! executable pipeline is proved equal to.
use crate::ast::{ExprView, StmtView};
use crate::evaluator::{
    eval_args, eval_body, eval_call, eval_expr, eval_stmt, eval_stmts, EnvView,
};
use crate::lexer::{
    is_alnum, is_letter, keyword_type, lemma_run_end_alnum_exact, lemma_run_end_digits_exact,
    spec_lex, spec_lex_from, symbol_type,
};
use crate::numtext::{
    all_digits, dec_digits, dec_str, is_digit, lemma_dec_digits_val, lemma_parse_of_render,
    spec_parse_i64,
};
use crate::parser::{
    spec_advance, spec_parse_declaration, spec_parse_expression, spec_parse_factor,
    spec_parse_primary_expression, spec_parse_primary_rest, spec_parse_program,
    spec_parse_program_rest, spec_parse_statement, spec_parse_term, spec_parse_term_rest,
    spec_parse_expression_rest, tok_at, ParseError,
};
use crate::token::{TokenType, TokenView};
use crate::value::{kind_of, render_val, spec_binop, EvalErrView, ValView};
use vstd::prelude::*;

verus! {

/// Evaluating `print` on any integer literal appends exactly the decimal
/// text of the integer to the output and changes nothing else: rendering an
/// integer and resolving the rendered literal are inverse.
pub proof fn lemma_print_int_literal(env: EnvView, n: i64, fuel: nat)
    ensures
        eval_stmt(env, StmtView::Print(ExprView::Literal(dec_str(n as int))), fuel) == (
            EnvView { frames: env.frames, funcs: env.funcs, output: env.output.push(dec_str(n as int)) },
            Ok::<(), EvalErrView>(()),
        ),
{
    lemma_parse_of_render(n);
    assert(spec_parse_i64(dec_str(n as int)) == Some(n));
    assert(render_val(ValView::Int(n)) == dec_str(n as int));
}

/// A literal with no integer reading resolves to the string itself and
/// changes nothing.
pub proof fn lemma_string_literal(env: EnvView, text: Seq<char>, fuel: nat)
    requires
        spec_parse_i64(text) is None,
    ensures
        eval_expr(env, ExprView::Literal(text), fuel) == (
            env,
            Ok::<ValView, EvalErrView>(ValView::Str(text)),
        ),
{
}

/// A function body with no top-level `Return` statement never changes the
/// pending result: when it runs to completion, the call yields the pending
/// value it started with.
pub proof fn lemma_body_without_return(env: EnvView, ss: Seq<StmtView>, pending: ValView, fuel: nat)
    requires
        forall|i: int| 0 <= i < ss.len() ==> !((#[trigger] ss[i]) is Return),
    ensures
        ({
            let t = eval_body(env, ss, pending, fuel);
            t.1 is Ok ==> t.1 == Ok::<ValView, EvalErrView>(pending)
        }),
    decreases ss.len(),
{
    if ss.len() > 0 {
        assert(!(ss[0] is Return));
        let rest = ss.subrange(1, ss.len() as int);
        assert(forall|i: int| 0 <= i < rest.len() ==> rest[i] == ss[i + 1]);
        let (env1, r0) = eval_stmt(env, ss[0], fuel);
        match r0 {
            Ok(_) => {
                lemma_body_without_return(env1, rest, pending, fuel);
            },
            Err(_) => {},
        }
    }
}

/// Calling a function whose body has no top-level `Return` statement yields
/// `Integer(0)` whenever the call completes.
pub proof fn lemma_call_default_return(
    env: EnvView,
    f: crate::evaluator::FuncView,
    args: Seq<ExprView>,
    fuel: nat,
)
    requires
        forall|i: int| 0 <= i < f.body.len() ==> !((#[trigger] f.body[i]) is Return),
    ensures
        ({
            let t = eval_call(env, f, args, fuel);
            t.1 matches Ok(v) ==> v == ValView::Int(0)
        }),
{
    if fuel != 0 {
        let (env1, ra) = eval_args(env, args, f.params, Map::empty(), fuel);
        match ra {
            Ok(frame) => {
                let env2 = EnvView {
                    frames: env1.frames.push(frame),
                    funcs: env1.funcs,
                    output: env1.output,
                };
                lemma_body_without_return(env2, f.body, ValView::Int(0), (fuel - 1) as nat);
            },
            Err(_) => {},
        }
    }
}

/// The operator table is closed: any operand pair outside it — anything but
/// integer with integer, or string with string under `+` — fails with a
/// type mismatch naming the operator and both operand kinds, for every
/// operator of the language.
pub proof fn lemma_cross_type_mismatch(op: TokenType, l: ValView, r: ValView)
    requires
        op == TokenType::Plus || op == TokenType::Minus || op == TokenType::Asterisk || op
            == TokenType::Slash || op == TokenType::Gt || op == TokenType::Lt,
        !(l is Int && r is Int),
        !(op == TokenType::Plus && l is Str && r is Str),
    ensures
        spec_binop(op, l, r) == Err::<ValView, EvalErrView>(
            EvalErrView::TypeMismatch { operator: op, left: kind_of(l), right: kind_of(r) },
        ),
{
}

/// Parse-error locality of a missing semicolon: when the input begins
/// `let` IDENT `=` followed by a well-formed expression, and the token
/// after the expression is not `;`, the whole parse fails with a mismatch
/// expecting `Semicolon` and reporting the token found, and no program is
/// produced.
pub proof fn lemma_missing_semicolon_after_declaration(toks: Seq<TokenView>)
    requires
        tok_at(toks, 0).token_type == TokenType::Let,
        tok_at(toks, 1).token_type == TokenType::Identif,
        tok_at(toks, 2).token_type == TokenType::Assign,
        spec_parse_expression(toks, 3) is Ok,
        ({
            let (e, p) = spec_parse_expression(toks, 3)->Ok_0;
            tok_at(toks, p).token_type != TokenType::Semicolon
        }),
    ensures
        ({
            let (e, p) = spec_parse_expression(toks, 3)->Ok_0;
            spec_parse_program(toks) == Err::<Seq<StmtView>, ParseError>(
                ParseError::Mismatch {
                    expected: TokenType::Semicolon,
                    found: tok_at(toks, p).token_type,
                },
            )
        }),
{
    let (e, p) = spec_parse_expression(toks, 3)->Ok_0;
    assert(0 < toks.len() && 1 < toks.len() && 2 < toks.len());
    assert(spec_advance(toks, 0, TokenType::Let) is Ok);
    assert(spec_advance(toks, 1, TokenType::Identif) is Ok);
    assert(spec_advance(toks, 2, TokenType::Assign) is Ok);
    let err = ParseError::Mismatch {
        expected: TokenType::Semicolon,
        found: tok_at(toks, p).token_type,
    };
    assert(spec_advance(toks, p, TokenType::Semicolon) == Err::<(TokenView, nat), ParseError>(err));
    assert(spec_parse_declaration(toks, 0) == Err::<(Seq<char>, ExprView, nat), ParseError>(err));
    assert(spec_parse_statement(toks, 0, false) == Err::<(StmtView, nat, bool), ParseError>(err));
    assert(spec_parse_program_rest(toks, 0, false, Seq::empty()) == Err::<
        (Seq<StmtView>, nat, bool),
        ParseError,
    >(err));
}

/// Scanning `print` then a space, digits, and `;` yields exactly the three
/// tokens: the `print` keyword, the number, the semicolon.
#[verifier::rlimit(60)]
proof fn lemma_print_digits_lex(ds: Seq<char>)
    requires
        ds.len() >= 1,
        all_digits(ds),
    ensures
        spec_lex(seq!['p', 'r', 'i', 'n', 't', ' '] + ds + seq![';']) == Ok::<
            Seq<TokenView>,
            crate::lexer::LexError,
        >(
            seq![
                TokenView { token_type: TokenType::Print, value: seq!['p', 'r', 'i', 'n', 't'] },
                TokenView { token_type: TokenType::Number, value: ds },
                TokenView { token_type: TokenType::Semicolon, value: seq![';'] },
            ],
        ),
{
    let k = ds.len() as int;
    let src = seq!['p', 'r', 'i', 'n', 't', ' '] + ds + seq![';'];
    let tok1 = TokenView { token_type: TokenType::Print, value: seq!['p', 'r', 'i', 'n', 't'] };
    let tok2 = TokenView { token_type: TokenType::Number, value: ds };
    let tok3 = TokenView { token_type: TokenType::Semicolon, value: seq![';'] };
    assert(src.len() == 7 + k);
    assert(src[0] == 'p' && src[1] == 'r' && src[2] == 'i' && src[3] == 'n' && src[4] == 't'
        && src[5] == ' ');
    assert(forall|j: int| 0 <= j < k ==> src[6 + j] == ds[j]);
    assert(src[6 + k] == ';');
    assert(forall|j: int| 0 <= j < 5 ==> is_alnum(#[trigger] src[j]));
    assert(!is_alnum(src[5]));
    lemma_run_end_alnum_exact(src, 0, 5);
    assert(src.subrange(0, 5) =~= seq!['p', 'r', 'i', 'n', 't']);
    assert(keyword_type(seq!['p', 'r', 'i', 'n', 't']) == TokenType::Print);
    assert(forall|j: int| 6 <= j < 6 + k ==> is_digit(#[trigger] src[j]));
    assert(!is_digit(src[6 + k]));
    lemma_run_end_digits_exact(src, 6, (6 + k) as nat);
    assert(src.subrange(6, 6 + k) =~= ds);
    assert(spec_lex_from(src, (7 + k) as nat) == Ok::<Seq<TokenView>, crate::lexer::LexError>(
        Seq::empty(),
    ));
    assert(spec_lex_from(src, (6 + k) as nat) == Ok::<Seq<TokenView>, crate::lexer::LexError>(
        seq![tok3],
    )) by {
        assert(seq![tok3] + Seq::<TokenView>::empty() =~= seq![tok3]);
    }
    assert(spec_lex_from(src, 6) == Ok::<Seq<TokenView>, crate::lexer::LexError>(
        seq![tok2, tok3],
    )) by {
        assert(is_digit(src[6]));
        assert(seq![tok2] + seq![tok3] =~= seq![tok2, tok3]);
    }
    assert(spec_lex_from(src, 5) == spec_lex_from(src, 6)) by {
        assert(symbol_type(' ') is None);
    }
    assert(spec_lex(src) == Ok::<Seq<TokenView>, crate::lexer::LexError>(
        seq![tok1, tok2, tok3],
    )) by {
        assert(is_letter(src[0]));
        assert(seq![tok1] + seq![tok2, tok3] =~= seq![tok1, tok2, tok3]);
    }
}

/// The three tokens `print`, a number, `;` parse to the single statement
/// printing the number's text as a literal.
#[verifier::rlimit(60)]
proof fn lemma_print_digits_parse(ds: Seq<char>)
    ensures
        spec_parse_program(
            seq![
                TokenView { token_type: TokenType::Print, value: seq!['p', 'r', 'i', 'n', 't'] },
                TokenView { token_type: TokenType::Number, value: ds },
                TokenView { token_type: TokenType::Semicolon, value: seq![';'] },
            ],
        ) == Ok::<Seq<StmtView>, ParseError>(seq![StmtView::Print(ExprView::Literal(ds))]),
{
    let tok1 = TokenView { token_type: TokenType::Print, value: seq!['p', 'r', 'i', 'n', 't'] };
    let tok2 = TokenView { token_type: TokenType::Number, value: ds };
    let tok3 = TokenView { token_type: TokenType::Semicolon, value: seq![';'] };
    let toks = seq![tok1, tok2, tok3];
    let lit = ExprView::Literal(ds);
    assert(tok_at(toks, 0) == tok1 && tok_at(toks, 1) == tok2 && tok_at(toks, 2) == tok3);
    assert(spec_parse_factor(toks, 1) == Ok::<(ExprView, nat), ParseError>((lit, 2)));
    assert(spec_parse_term(toks, 1) == Ok::<(ExprView, nat), ParseError>((lit, 2))) by {
        assert(spec_parse_term_rest(toks, 2, lit) == Ok::<(ExprView, nat), ParseError>((lit, 2)));
    }
    assert(spec_parse_primary_expression(toks, 1) == Ok::<(ExprView, nat), ParseError>((lit, 2)))
        by {
        assert(spec_parse_primary_rest(toks, 2, lit) == Ok::<(ExprView, nat), ParseError>((
            lit,
            2,
        )));
    }
    assert(spec_parse_expression(toks, 1) == Ok::<(ExprView, nat), ParseError>((lit, 2))) by {
        assert(spec_parse_expression_rest(toks, 2, lit) == Ok::<(ExprView, nat), ParseError>((
            lit,
            2,
        )));
    }
    let stmt = StmtView::Print(lit);
    assert(spec_parse_statement(toks, 0, false) == Ok::<(StmtView, nat, bool), ParseError>((
        stmt,
        3,
        false,
    )));
    let prog = seq![stmt];
    assert(spec_parse_program_rest(toks, 0, false, Seq::empty()) == Ok::<
        (Seq<StmtView>, nat, bool),
        ParseError,
    >((prog, 3, false))) by {
        assert(tok_at(toks, 3).token_type == TokenType::EOF);
        assert(Seq::<StmtView>::empty().push(stmt) =~= prog);
        assert(spec_parse_program_rest(toks, 3, false, prog) == Ok::<
            (Seq<StmtView>, nat, bool),
            ParseError,
        >((prog, 3, false)));
    }
}

/// Round trip on printed integer literals, through the whole pipeline: for
/// every non-negative 64-bit integer `n`, the source text `print`, a space,
/// the decimal digits of `n`, and `;` scans to exactly three tokens, parses
/// to the single statement printing the literal, and evaluates to exactly
/// one new output line, the decimal text of `n`, with no other change of
/// state.
#[verifier::rlimit(100)]
pub proof fn lemma_print_round_trip(n: i64, env: EnvView, fuel: nat)
    requires
        n >= 0,
    ensures
        ({
            let ds = dec_digits(n as nat);
            let toks = seq![
                TokenView { token_type: TokenType::Print, value: seq!['p', 'r', 'i', 'n', 't'] },
                TokenView { token_type: TokenType::Number, value: ds },
                TokenView { token_type: TokenType::Semicolon, value: seq![';'] },
            ];
            let prog = seq![StmtView::Print(ExprView::Literal(ds))];
            &&& spec_lex(seq!['p', 'r', 'i', 'n', 't', ' '] + ds + seq![';']) == Ok::<
                Seq<TokenView>,
                crate::lexer::LexError,
            >(toks)
            &&& spec_parse_program(toks) == Ok::<Seq<StmtView>, ParseError>(prog)
            &&& eval_stmts(env, prog, fuel) == (
                EnvView { frames: env.frames, funcs: env.funcs, output: env.output.push(ds) },
                Ok::<(), EvalErrView>(()),
            )
        }),
{
    lemma_dec_digits_val(n as nat);
    let ds = dec_digits(n as nat);
    lemma_print_digits_lex(ds);
    lemma_print_digits_parse(ds);
    let prog = seq![StmtView::Print(ExprView::Literal(ds))];
    let stmt = StmtView::Print(ExprView::Literal(ds));
    assert(dec_str(n as int) == ds);
    lemma_print_int_literal(env, n, fuel);
    assert(prog[0] == stmt);
    let env1 = EnvView { frames: env.frames, funcs: env.funcs, output: env.output.push(ds) };
    assert(eval_stmt(env, prog[0], fuel) == (env1, Ok::<(), EvalErrView>(())));
    assert(prog.subrange(1, 1).len() == 0);
    assert(eval_stmts(env1, prog.subrange(1, 1), fuel) == (env1, Ok::<(), EvalErrView>(())));
    assert(eval_stmts(env, prog, fuel) == (env1, Ok::<(), EvalErrView>(())));
}

} // verus!
