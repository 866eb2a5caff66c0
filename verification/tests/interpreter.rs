//! End-to-end tests: source text through the lexer, parser and evaluator.
use hmmge::evaluator::Evaluator;
use hmmge::lexer::{LexError, Lexer};
use hmmge::parser::{ParseError, Parser};
use hmmge::token::TokenType;
use hmmge::value::EvalError;

fn run(source: &str) -> Result<Vec<String>, String> {
    let mut lexer = Lexer::new(source);
    let tokens = match lexer.lex() {
        Ok(t) => t,
        Err(e) => return Err(format!("lex error: {:?}", e)),
    };
    let mut parser = Parser::new(tokens);
    let program = match parser.parse() {
        Ok(p) => p,
        Err(e) => return Err(format!("parse error: {:?}", e)),
    };
    let mut evaluator = Evaluator::new(program);
    match evaluator.evaluate() {
        Ok(()) => Ok(evaluator.env.output),
        Err(e) => Err(format!("eval error: {:?}", e)),
    }
}

fn run_ok(source: &str) -> Vec<String> {
    run(source).expect("program should run")
}

fn run_eval_err(source: &str) -> (EvalError, Vec<String>) {
    let mut lexer = Lexer::new(source);
    let tokens = lexer.lex().expect("should lex");
    let mut parser = Parser::new(tokens);
    let program = parser.parse().expect("should parse");
    let mut evaluator = Evaluator::new(program);
    let err = evaluator.evaluate().expect_err("should fail at runtime");
    (err, evaluator.env.output)
}

fn parse_err(source: &str) -> ParseError {
    let mut lexer = Lexer::new(source);
    let tokens = lexer.lex().expect("should lex");
    let mut parser = Parser::new(tokens);
    parser.parse().expect_err("should fail to parse")
}

#[test]
fn print_integer_literal() {
    assert_eq!(run_ok("print 42;"), vec!["42"]);
    assert_eq!(run_ok("print 0;"), vec!["0"]);
    assert_eq!(run_ok("print 9223372036854775807;"), vec!["9223372036854775807"]);
}

#[test]
fn print_string_literal() {
    assert_eq!(run_ok("print \"hello world\";"), vec!["hello world"]);
}

#[test]
fn oversized_literal_stays_text() {
    // no 64-bit reading, so the literal resolves to the text itself
    assert_eq!(run_ok("print 99999999999999999999;"), vec!["99999999999999999999"]);
}

#[test]
fn declaration_then_assignment() {
    assert_eq!(run_ok("let x = 5; x = x + 1; print x;"), vec!["6"]);
}

#[test]
fn operator_precedence() {
    assert_eq!(run_ok("print 2 + 3 * 4;"), vec!["14"]);
    assert_eq!(run_ok("print (2 + 3) * 4;"), vec!["20"]);
}

#[test]
fn string_concatenation() {
    assert_eq!(run_ok("let a = \"foo\"; let b = \"bar\"; print a + b;"), vec!["foobar"]);
}

#[test]
fn comparison_and_branching() {
    assert_eq!(
        run_ok("if (3 > 2) { print \"yes\"; } else { print \"no\"; }"),
        vec!["yes"]
    );
    assert_eq!(
        run_ok("if (2 > 3) { print \"yes\"; } else { print \"no\"; }"),
        vec!["no"]
    );
}

#[test]
fn print_boolean() {
    assert_eq!(run_ok("print 3 > 2;"), vec!["true"]);
    assert_eq!(run_ok("print 3 < 2;"), vec!["false"]);
}

#[test]
fn negative_result_renders_with_sign() {
    assert_eq!(run_ok("print 0 - 7;"), vec!["-7"]);
}

#[test]
fn integer_division_truncates() {
    assert_eq!(run_ok("print 7 / 2;"), vec!["3"]);
}

#[test]
fn function_default_return_is_zero() {
    assert_eq!(
        run_ok("func f() { let y = 1; } x = f(); print x;"),
        vec!["0"]
    );
}

#[test]
fn function_with_parameters() {
    assert_eq!(
        run_ok("func add2(a, b) { return a + b; } x = add2(3, 4); print x;"),
        vec!["7"]
    );
}

#[test]
fn recursive_factorial() {
    let source = "\
        func factorial(n) {\
            let r = 1;\
            if (n > 1) { r = n * factorial(n - 1); }\
            return r;\
        }\
        x = factorial(5);\
        print x;";
    assert_eq!(run_ok(source), vec!["120"]);
}

#[test]
fn last_top_level_return_wins() {
    assert_eq!(
        run_ok("func f() { return 1; return 2; } x = f(); print x;"),
        vec!["2"]
    );
}

#[test]
fn nested_return_does_not_escape() {
    // a Return inside a conditional block only runs as a no-op statement;
    // the function's result comes from top-level Returns alone
    assert_eq!(
        run_ok("func f() { if (1 > 0) { return 5; } return 2; } x = f(); print x;"),
        vec!["2"]
    );
}

#[test]
fn extra_arguments_are_ignored() {
    assert_eq!(
        run_ok("func one(a) { return a; } x = one(1, 2); print x;"),
        vec!["1"]
    );
}

#[test]
fn missing_argument_leaves_parameter_unbound() {
    let (err, _) = run_eval_err("func two(a, b) { return b; } x = two(1); print x;");
    assert!(matches!(err, EvalError::UndefinedVariable(name) if name == "b"));
}

#[test]
fn call_frames_are_flat() {
    // a function body cannot see the caller's variables
    let (err, _) = run_eval_err("let g = 5; func f() { return g; } x = f();");
    assert!(matches!(err, EvalError::UndefinedVariable(name) if name == "g"));
}

#[test]
fn type_mismatch_produces_no_output() {
    let (err, output) = run_eval_err("print \"a\" - \"b\";");
    assert!(matches!(err, EvalError::TypeMismatch { operator: TokenType::Minus, .. }));
    assert!(output.is_empty());
}

#[test]
fn output_before_error_is_kept() {
    let (err, output) = run_eval_err("print 1; print y;");
    assert!(matches!(err, EvalError::UndefinedVariable(name) if name == "y"));
    assert_eq!(output, vec!["1"]);
}

#[test]
fn undefined_function_call_fails() {
    let (err, _) = run_eval_err("x = g();");
    assert!(matches!(err, EvalError::UndefinedFunction(name) if name == "g"));
}

#[test]
fn division_by_zero_fails() {
    let (err, _) = run_eval_err("print 1 / 0;");
    assert!(matches!(err, EvalError::ArithmeticError));
}

#[test]
fn addition_overflow_fails() {
    let (err, _) = run_eval_err("print 9223372036854775807 + 1;");
    assert!(matches!(err, EvalError::ArithmeticError));
}

#[test]
fn prefix_minus_is_not_evaluated() {
    let (err, _) = run_eval_err("print -5;");
    assert!(matches!(err, EvalError::UnsupportedExpression));
}

#[test]
fn unbounded_recursion_hits_depth_guard() {
    let (err, _) = run_eval_err("func f() { return f(); } x = f();");
    assert!(matches!(err, EvalError::RecursionLimit));
}

#[test]
fn missing_semicolon_is_reported_locally() {
    let err = parse_err("let x = 5 print x;");
    assert!(matches!(
        err,
        ParseError::Mismatch { expected: TokenType::Semicolon, found: TokenType::Print }
    ));
}

#[test]
fn return_outside_function_is_a_parse_error() {
    let err = parse_err("return 1;");
    assert!(matches!(err, ParseError::ReturnOutsideFunction));
}

#[test]
fn statement_dispatch_rejects_stray_token() {
    let err = parse_err("* 1;");
    assert!(matches!(err, ParseError::Mismatch { found: TokenType::Asterisk, .. }));
}

#[test]
fn unterminated_string_is_a_lex_error() {
    let mut lexer = Lexer::new("print \"abc");
    assert!(matches!(lexer.lex(), Err(LexError::UnterminatedString)));
}

#[test]
fn redeclaring_a_function_overwrites_it() {
    assert_eq!(
        run_ok("func f() { return 1; } func f() { return 2; } x = f(); print x;"),
        vec!["2"]
    );
}

#[test]
fn keyword_prefix_is_an_identifier() {
    assert_eq!(run_ok("let letx = 3; print letx;"), vec!["3"]);
}

#[test]
fn function_must_be_declared_before_call() {
    // declarations register as a side effect of execution, so a call that
    // runs before the declaration statement finds no function
    let (err, _) = run_eval_err("x = f(); func f() { return 1; }");
    assert!(matches!(err, EvalError::UndefinedFunction(name) if name == "f"));
}

#[test]
fn conditional_body_shares_the_current_frame() {
    // a bare conditional body pushes no scope frame
    assert_eq!(run_ok("if (1 > 0) { let y = 2; } print y;"), vec!["2"]);
}

#[test]
fn call_statement_discards_result_but_keeps_effects() {
    assert_eq!(run_ok("func f() { print \"hi\"; return 9; } f();"), vec!["hi"]);
}
