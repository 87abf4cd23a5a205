//! End-to-end behaviour: source text through the tokenizer, parser and
//! evaluator.

use beavieeer::ast::{Expression, Infix, Literal, Prefix, Statement};
use beavieeer::builtins::new_builtins;
use beavieeer::env::Env;
use beavieeer::evaluator::Evaluator;
use beavieeer::lexer::{tokenize, Lexer};
use beavieeer::object::Object;
use beavieeer::parser::Parser;
use beavieeer::token::Token;

fn parse(src: &str) -> (Vec<Statement>, Vec<String>) {
    let mut p = Parser::new(Lexer::new(src));
    let prog = p.parse_program();
    (prog, p.get_errors())
}

fn run(src: &str) -> Option<Object> {
    let (prog, errors) = parse(src);
    assert!(errors.is_empty(), "syntax errors: {:?}", errors);
    let env = Env::from(new_builtins());
    let mut ev = Evaluator::new(env);
    ev.eval(&prog)
}

/// The tokenizer yields the exact token sequence, and tokenizing twice
/// yields identical sequences.
#[test]
fn tokenizer_exact_sequence_and_determinism() {
    let toks = tokenize("let five = 5;");
    assert_eq!(
        toks,
        vec![
            Token::Let,
            Token::Ident("five".to_string()),
            Token::Assign,
            Token::Int(5),
            Token::Semicolon,
            Token::Eof,
        ]
    );
    let src = "let add = fun(x, y) { x + y; }; // comment\nadd(1, 2) == 3";
    assert_eq!(tokenize(src), tokenize(src));
}

#[test]
fn tokenizer_two_char_operators_and_strings() {
    assert_eq!(
        tokenize("a <= b != \"hi\""),
        vec![
            Token::Ident("a".to_string()),
            Token::LessThanEqual,
            Token::Ident("b".to_string()),
            Token::NotEqual,
            Token::String("hi".to_string()),
            Token::Eof,
        ]
    );
}

/// Precedence: `1 + 2 * 3` is `1 + (2 * 3)`; `(1 + 2) * 3` keeps the
/// group; `-a * b` binds `-` tighter than `*`.
#[test]
fn precedence_correctness() {
    let (prog, errors) = parse("1 + 2 * 3");
    assert!(errors.is_empty());
    assert_eq!(
        prog,
        vec![Statement::ExprStmt(Expression::InfixExpr(
            Infix::Plus,
            Box::new(Expression::LitExpr(Literal::IntLiteral(1))),
            Box::new(Expression::InfixExpr(
                Infix::Multiply,
                Box::new(Expression::LitExpr(Literal::IntLiteral(2))),
                Box::new(Expression::LitExpr(Literal::IntLiteral(3))),
            )),
        ))]
    );

    let (prog, errors) = parse("(1 + 2) * 3");
    assert!(errors.is_empty());
    assert_eq!(
        prog,
        vec![Statement::ExprStmt(Expression::InfixExpr(
            Infix::Multiply,
            Box::new(Expression::InfixExpr(
                Infix::Plus,
                Box::new(Expression::LitExpr(Literal::IntLiteral(1))),
                Box::new(Expression::LitExpr(Literal::IntLiteral(2))),
            )),
            Box::new(Expression::LitExpr(Literal::IntLiteral(3))),
        ))]
    );

    let (prog, errors) = parse("-a * b");
    assert!(errors.is_empty());
    assert_eq!(
        prog,
        vec![Statement::ExprStmt(Expression::InfixExpr(
            Infix::Multiply,
            Box::new(Expression::PrefixExpr(
                Prefix::PrefixMinus,
                Box::new(Expression::IdentExpr(beavieeer::ast::Ident("a".to_string()))),
            )),
            Box::new(Expression::IdentExpr(beavieeer::ast::Ident("b".to_string()))),
        ))]
    );
}

/// Two independent malformed statements yield exactly two errors, and the
/// well-formed statements around them still appear.
#[test]
fn error_accumulation() {
    let (prog, errors) = parse("let = 1; let a = 2; let 5; let b = 3;");
    assert_eq!(errors.len(), 2);
    assert_eq!(
        prog,
        vec![
            Statement::LetStmt(
                beavieeer::ast::Ident("a".to_string()),
                Expression::LitExpr(Literal::IntLiteral(2)),
            ),
            Statement::LetStmt(
                beavieeer::ast::Ident("b".to_string()),
                Expression::LitExpr(Literal::IntLiteral(3)),
            ),
        ]
    );
}

/// Truthiness: zero is truthy; false and null are not.
#[test]
fn truthiness() {
    assert_eq!(run("if (0) { 1 } else { 2 }"), Some(Object::Int(1)));
    assert_eq!(run("if (false) {1} else {2}"), Some(Object::Int(2)));
    assert_eq!(run("if (true) {1} else {2}"), Some(Object::Int(1)));
    assert_eq!(run("!0"), Some(Object::Bool(false)));
    assert_eq!(run("if (\"\") {1} else {2}"), Some(Object::Int(1)));
}

/// A closure captures the environment active at its definition, so each
/// call of the maker gets a fresh binding.
#[test]
fn closure_capture() {
    let src = "let counter = fun() { let x = 0; fun() { x } };\n\
               let get = counter();\n\
               get();";
    assert_eq!(run(src), Some(Object::Int(0)));
    let src2 = "let counter = fun() { let x = 0; fun() { x } };\n\
                let get = counter();\n\
                let first_call = get();\n\
                let second_call = get();\n\
                first_call == second_call";
    assert_eq!(run(src2), Some(Object::Bool(true)));
    let adder = "let makeAdder = fun(x) { fun(y) { x + y } };\n\
                 let addTwo = makeAdder(2);\n\
                 addTwo(40)";
    assert_eq!(run(adder), Some(Object::Int(42)));
}

/// Errors short-circuit: a type mismatch is an error object, and an error
/// inside an array literal aborts the whole literal.
#[test]
fn error_short_circuit() {
    match run("1 + \"a\"") {
        Some(Object::Error(_)) => {},
        o => panic!("expected an error object, got {:?}", o),
    }
    match run("[1, 1/0, 3]") {
        Some(Object::Error(m)) => assert_eq!(m, "division by zero"),
        o => panic!("expected an error object, got {:?}", o),
    }
    match run("let x = 1/0; 5") {
        Some(Object::Error(m)) => assert_eq!(m, "division by zero"),
        o => panic!("expected an error object, got {:?}", o),
    }
}

/// `map` and `filter` re-enter the evaluator with the user's closure.
#[test]
fn map_filter_reentrance() {
    assert_eq!(
        run("map([1,2,3], fun(x) { x * 2 })"),
        Some(Object::Array(vec![Object::Int(2), Object::Int(4), Object::Int(6)]))
    );
    assert_eq!(
        run("filter([1,2,3,4], fun(x) { x > 2 })"),
        Some(Object::Array(vec![Object::Int(3), Object::Int(4)]))
    );
}

#[test]
fn arithmetic_and_comparisons() {
    assert_eq!(run("5 + 2 * 10"), Some(Object::Int(25)));
    assert_eq!(run("7 / 2"), Some(Object::Int(3)));
    assert_eq!(run("-7 / 2"), Some(Object::Int(-3)));
    assert_eq!(run("1 < 2"), Some(Object::Bool(true)));
    assert_eq!(run("1 >= 2"), Some(Object::Bool(false)));
    assert_eq!(run("\"foo\" + \"bar\""), Some(Object::String("foobar".to_string())));
    assert_eq!(run("true == false"), Some(Object::Bool(false)));
}

#[test]
fn return_unwinds_function_body() {
    assert_eq!(
        run("let f = fun(x) { if (x) { return 1; } 2 }; f(true)"),
        Some(Object::Int(1))
    );
    assert_eq!(
        run("let f = fun(x) { if (x) { return 1; } 2 }; f(false)"),
        Some(Object::Int(2))
    );
}

#[test]
fn arrays_and_hashes() {
    assert_eq!(run("[1, 2 * 2, 3 + 3][2]"), Some(Object::Int(6)));
    assert_eq!(run("[1, 2][7]"), Some(Object::Null));
    assert_eq!(run("{\"a\": 1, 2: \"two\"}[\"a\"]"), Some(Object::Int(1)));
    assert_eq!(run("{\"a\": 1, 2: \"two\"}[2]"), Some(Object::String("two".to_string())));
    assert_eq!(run("{\"a\": 1}[\"b\"]"), Some(Object::Null));
    assert_eq!(run("len(\"hello\")"), Some(Object::Int(5)));
    assert_eq!(run("first(tail([1, 2, 3]))"), Some(Object::Int(2)));
}

/// The program's value is its last expression statement's, carried past
/// trailing `let`s.
#[test]
fn program_value_is_last_expression_statement() {
    assert_eq!(run("1; let x = 2;"), Some(Object::Int(1)));
    assert_eq!(run("let x = 2;"), None);
    assert_eq!(run("1; 2; let a = 3; let b = 4;"), Some(Object::Int(2)));
}

/// A bare `+` cannot start an expression: the grammar's prefix operators
/// are `!` and `-` only.
#[test]
fn plus_is_not_a_prefix_operator() {
    let (_, errors) = parse("+5");
    assert_eq!(errors, vec!["no prefix parse rule for '+'".to_string()]);
}

#[test]
fn builtin_errors_are_values() {
    match run("len(1)") {
        Some(Object::Error(m)) => assert_eq!(m, "argument to `len` not supported, got Int"),
        o => panic!("expected an error object, got {:?}", o),
    }
    match run("map([1], 2)") {
        Some(Object::Error(_)) => {},
        o => panic!("expected an error object, got {:?}", o),
    }
    match run("sort([2,1], fun(a) { a })") {
        Some(Object::Error(m)) => assert_eq!(m, "TODO: sort is not implemented yet"),
        o => panic!("expected an error object, got {:?}", o),
    }
    match run("nosuch") {
        Some(Object::Error(m)) => assert_eq!(m, "identifier not found: nosuch"),
        o => panic!("expected an error object, got {:?}", o),
    }
}

#[test]
fn print_buffers_output() {
    let (prog, errors) = parse("print(1); print(\"x\"); 3");
    assert!(errors.is_empty());
    let env = Env::from(new_builtins());
    let mut ev = Evaluator::new(env);
    ev.set_global(
        "print".to_string(),
        Object::Builtin(-1, beavieeer::object::BuiltinKind::Print),
    );
    let r = ev.eval(&prog);
    assert_eq!(r, Some(Object::Int(3)));
    assert_eq!(
        ev.take_output(),
        vec![Object::Int(1), Object::String("x".to_string())]
    );
    assert_eq!(ev.take_output(), Vec::<Object>::new());
}
