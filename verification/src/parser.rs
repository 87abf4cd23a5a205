//! The parser: tokens to an abstract syntax tree, by precedence-climbing
//! (Pratt) expression parsing.
//!
//! The `spec_parse_*` functions are the mathematical description of the
//! grammar and of error recovery: each maps a parser state (and a fuel that
//! bounds recursion depth) to the state after the construct and the
//! construct's model, or `None` with an error recorded.  The executable
//! `Parser` is proved to follow them exactly.  Parsing never aborts: every
//! malformed construct is recorded as an error string and parsing continues
//! at the next statement boundary.

use vstd::prelude::*;
use vstd::string::{StringExecFns, StrSliceExecFns};
use crate::token::{Token, TokenV, tok_v};
use crate::lexer::{Lexer, LexV, spec_next_token};
use crate::ast::{
    Expression, ExprV, Ident, Infix, Literal, LitV, Prefix, Program, Statement, StmtV, expr_v,
    stmt_v, stmts_v, lemma_stmts_v_push,
};

verus! {

/// Fuel bounding the parser's recursion depth; deeper input is rejected
/// with a recorded error, never an abort.
pub const PARSE_FUEL: u64 = 0x1000_0000_0000;

/// The models of a list of error strings.
pub open spec fn errs_v(es: Seq<String>) -> Seq<Seq<char>> {
    es.map_values(|s: String| s@)
}

/// The model of a parser: the tokenizer state, the current and peek tokens,
/// and the errors recorded so far.
#[verifier::ext_equal]
pub struct ParserV {
    pub lex: LexV,
    pub current: TokenV,
    pub peek: TokenV,
    pub errors: Seq<Seq<char>>,
}

/// The model of one view of `Option<Expression>`.
pub open spec fn opt_expr_v(e: Option<Expression>) -> Option<ExprV> {
    match e {
        Some(x) => Some(expr_v(x)),
        None => None,
    }
}

/// The model of one view of `Option<Statement>`.
pub open spec fn opt_stmt_v(s: Option<Statement>) -> Option<StmtV> {
    match s {
        Some(x) => Some(stmt_v(x)),
        None => None,
    }
}

/// Advancing the parser: the peek token becomes current and the tokenizer
/// yields the next peek token.
pub open spec fn p_next(p: ParserV) -> ParserV {
    let (t, pos) = spec_next_token(p.lex.input, p.lex.pos);
    ParserV {
        lex: LexV { input: p.lex.input, pos },
        current: p.peek,
        peek: t,
        errors: p.errors,
    }
}

/// Recording one parse error.
pub open spec fn push_err(p: ParserV, m: Seq<char>) -> ParserV {
    ParserV { lex: p.lex, current: p.current, peek: p.peek, errors: p.errors.push(m) }
}

/// A short description of a token, for error messages.
#[verifier::opaque]
pub open spec fn tok_desc_v(t: TokenV) -> Seq<char> {
    match t {
        TokenV::Illegal => "an illegal token"@,
        TokenV::Blank => "a blank line"@,
        TokenV::Eof => "end of input"@,
        TokenV::Ident(s) => "identifier "@ + s,
        TokenV::Int(_) => "an integer literal"@,
        TokenV::StrLit(_) => "a string literal"@,
        TokenV::Bool(b) => (if b {
            "'true'"@
        } else {
            "'false'"@
        }),
        TokenV::Assign => "'='"@,
        TokenV::If => "'if'"@,
        TokenV::Else => "'else'"@,
        TokenV::Plus => "'+'"@,
        TokenV::Minus => "'-'"@,
        TokenV::Bang => "'!'"@,
        TokenV::Asterisk => "'*'"@,
        TokenV::Slash => "'/'"@,
        TokenV::Equal => "'=='"@,
        TokenV::NotEqual => "'!='"@,
        TokenV::LessThan => "'<'"@,
        TokenV::LessThanEqual => "'<='"@,
        TokenV::GreaterThan => "'>'"@,
        TokenV::GreaterThanEqual => "'>='"@,
        TokenV::Comma => "','"@,
        TokenV::Colon => "':'"@,
        TokenV::Semicolon => "';'"@,
        TokenV::Lparen => "'('"@,
        TokenV::Rparen => "')'"@,
        TokenV::Lbrace => "'{'"@,
        TokenV::Rbrace => "'}'"@,
        TokenV::Lbracket => "'['"@,
        TokenV::Rbracket => "']'"@,
        TokenV::Func => "'fun'"@,
        TokenV::Let => "'let'"@,
        TokenV::Return => "'return'"@,
    }
}

/// The message recorded when one token was expected and another seen.
pub open spec fn err_expected_v(exp: Seq<char>, got: TokenV) -> Seq<char> {
    "expected "@ + exp + ", got "@ + tok_desc_v(got)
}

/// The message recorded when a token cannot start an expression.
pub open spec fn err_no_prefix_v(got: TokenV) -> Seq<char> {
    "no prefix parse rule for "@ + tok_desc_v(got)
}

/// The message recorded when the input nests deeper than the fuel allows.
pub open spec fn err_fuel_v() -> Seq<char> {
    "input exceeds the parser's depth limit"@
}

/// The infix binding strength of a token: zero for tokens that cannot
/// continue an expression.
pub open spec fn tok_rank(t: TokenV) -> int {
    match t {
        TokenV::Equal => 1,
        TokenV::NotEqual => 1,
        TokenV::LessThan => 2,
        TokenV::LessThanEqual => 2,
        TokenV::GreaterThan => 2,
        TokenV::GreaterThanEqual => 2,
        TokenV::Plus => 3,
        TokenV::Minus => 3,
        TokenV::Slash => 4,
        TokenV::Asterisk => 4,
        TokenV::Lparen => 5,
        TokenV::Lbracket => 6,
        _ => 0,
    }
}

/// Whether a token is a binary operator.
pub open spec fn is_infix_tok(t: TokenV) -> bool {
    match t {
        TokenV::Equal => true,
        TokenV::NotEqual => true,
        TokenV::LessThan => true,
        TokenV::LessThanEqual => true,
        TokenV::GreaterThan => true,
        TokenV::GreaterThanEqual => true,
        TokenV::Plus => true,
        TokenV::Minus => true,
        TokenV::Slash => true,
        TokenV::Asterisk => true,
        _ => false,
    }
}

/// The operator a binary operator token denotes.
pub open spec fn infix_of(t: TokenV) -> Infix {
    match t {
        TokenV::Equal => Infix::Equal,
        TokenV::NotEqual => Infix::NotEqual,
        TokenV::LessThan => Infix::LessThan,
        TokenV::LessThanEqual => Infix::LessThanEqual,
        TokenV::GreaterThan => Infix::GreaterThan,
        TokenV::GreaterThanEqual => Infix::GreaterThanEqual,
        TokenV::Minus => Infix::Minus,
        TokenV::Slash => Infix::Divide,
        TokenV::Asterisk => Infix::Multiply,
        _ => Infix::Plus,
    }
}

/// The parser state after construction: the first two tokens are read.
pub open spec fn spec_parser_new(l: LexV) -> ParserV {
    let (c, pos1) = spec_next_token(l.input, l.pos);
    let (pk, pos2) = spec_next_token(l.input, pos1);
    ParserV {
        lex: LexV { input: l.input, pos: pos2 },
        current: c,
        peek: pk,
        errors: Seq::empty(),
    }
}

/// Error recovery: skip to the next statement boundary, a semicolon or the
/// end of the input.
pub open spec fn spec_sync(p: ParserV, fuel: nat) -> ParserV
    decreases fuel,
{
    if fuel == 0 {
        push_err(p, err_fuel_v())
    } else if p.current is Semicolon || p.current is Eof {
        p
    } else {
        spec_sync(p_next(p), (fuel - 1) as nat)
    }
}

/// One whole program: statements until end of input, blank lines skipped.
/// Failed statements record errors and are left out; the rest still parse.
pub open spec fn spec_parse_program(p: ParserV, fuel: nat) -> (ParserV, Seq<StmtV>)
    decreases fuel,
{
    if fuel == 0 {
        (push_err(p, err_fuel_v()), Seq::empty())
    } else {
        let sub = (fuel - 1) as nat;
        if p.current is Eof {
            (p, Seq::empty())
        } else if p.current is Blank {
            spec_parse_program(p_next(p), sub)
        } else {
            let (p1, st) = spec_parse_statement(p, sub);
            let p2 = p_next(p1);
            let (p3, rest) = spec_parse_program(p2, sub);
            match st {
                Some(s) => (p3, seq![s] + rest),
                None => (p3, rest),
            }
        }
    }
}

/// One statement: `let`, `return`, or a bare expression.  On failure the
/// parser synchronizes to the next statement boundary.
pub open spec fn spec_parse_statement(p: ParserV, fuel: nat) -> (ParserV, Option<StmtV>)
    decreases fuel,
{
    if fuel == 0 {
        (push_err(p, err_fuel_v()), None)
    } else {
        let sub = (fuel - 1) as nat;
        let (p1, r) = if p.current is Let {
            spec_parse_let(p, sub)
        } else if p.current is Return {
            spec_parse_return(p, sub)
        } else {
            spec_parse_expr_stmt(p, sub)
        };
        match r {
            Some(s) => (p1, Some(s)),
            None => (spec_sync(p1, sub), None),
        }
    }
}

/// `let <identifier> = <expression> ;` — the trailing semicolon is consumed
/// if present.
pub open spec fn spec_parse_let(p: ParserV, fuel: nat) -> (ParserV, Option<StmtV>)
    decreases fuel,
{
    if fuel == 0 {
        (push_err(p, err_fuel_v()), None)
    } else {
        let sub = (fuel - 1) as nat;
        match p.peek {
            TokenV::Ident(n) => {
                let p1 = p_next(p);
                if !(p1.peek is Assign) {
                    (push_err(p1, err_expected_v("'='"@, p1.peek)), None)
                } else {
                    let p2 = p_next(p1);
                    let p3 = p_next(p2);
                    let (p4, e) = spec_parse_expression(p3, 0, sub);
                    match e {
                        Some(x) => {
                            let p5 = if p4.peek is Semicolon {
                                p_next(p4)
                            } else {
                                p4
                            };
                            (p5, Some(StmtV::Let(n, x)))
                        },
                        None => (p4, None),
                    }
                }
            },
            _ => (push_err(p, err_expected_v("an identifier"@, p.peek)), None),
        }
    }
}

/// `return <expression> ;` — the trailing semicolon is consumed if present.
pub open spec fn spec_parse_return(p: ParserV, fuel: nat) -> (ParserV, Option<StmtV>)
    decreases fuel,
{
    if fuel == 0 {
        (push_err(p, err_fuel_v()), None)
    } else {
        let sub = (fuel - 1) as nat;
        let p1 = p_next(p);
        let (p2, e) = spec_parse_expression(p1, 0, sub);
        match e {
            Some(x) => {
                let p3 = if p2.peek is Semicolon {
                    p_next(p2)
                } else {
                    p2
                };
                (p3, Some(StmtV::Return(x)))
            },
            None => (p2, None),
        }
    }
}

/// A bare expression statement — the trailing semicolon is consumed if
/// present.
pub open spec fn spec_parse_expr_stmt(p: ParserV, fuel: nat) -> (ParserV, Option<StmtV>)
    decreases fuel,
{
    if fuel == 0 {
        (push_err(p, err_fuel_v()), None)
    } else {
        let sub = (fuel - 1) as nat;
        let (p1, e) = spec_parse_expression(p, 0, sub);
        match e {
            Some(x) => {
                let p2 = if p1.peek is Semicolon {
                    p_next(p1)
                } else {
                    p1
                };
                (p2, Some(StmtV::Expr(x)))
            },
            None => (p1, None),
        }
    }
}

/// Precedence climbing: one prefix expression, then every infix whose
/// binding strength exceeds `min_rank`.
pub open spec fn spec_parse_expression(p: ParserV, min_rank: int, fuel: nat) -> (
    ParserV,
    Option<ExprV>,
)
    decreases fuel,
{
    if fuel == 0 {
        (push_err(p, err_fuel_v()), None)
    } else {
        let sub = (fuel - 1) as nat;
        let (p1, left) = spec_parse_prefix(p, sub);
        match left {
            Some(l) => spec_parse_infix_loop(p1, l, min_rank, sub),
            None => (p1, None),
        }
    }
}

/// The prefix rules: literals, identifiers, prefix operators, groups, `if`,
/// function literals, array and map literals.  A token with no prefix rule
/// records an error.
pub open spec fn spec_parse_prefix(p: ParserV, fuel: nat) -> (ParserV, Option<ExprV>)
    decreases fuel,
{
    if fuel == 0 {
        (push_err(p, err_fuel_v()), None)
    } else {
        let sub = (fuel - 1) as nat;
        match p.current {
            TokenV::Ident(n) => (p, Some(ExprV::Ident(n))),
            TokenV::Int(i) => (p, Some(ExprV::Lit(LitV::Int(i)))),
            TokenV::StrLit(s) => (p, Some(ExprV::Lit(LitV::Str(s)))),
            TokenV::Bool(b) => (p, Some(ExprV::Lit(LitV::Bool(b)))),
            TokenV::Bang => spec_parse_prefix_op(p, Prefix::Not, sub),
            TokenV::Minus => spec_parse_prefix_op(p, Prefix::PrefixMinus, sub),
            TokenV::Lparen => {
                let p1 = p_next(p);
                let (p2, e) = spec_parse_expression(p1, 0, sub);
                match e {
                    Some(x) => {
                        if p2.peek is Rparen {
                            (p_next(p2), Some(x))
                        } else {
                            (push_err(p2, err_expected_v("')'"@, p2.peek)), None)
                        }
                    },
                    None => (p2, None),
                }
            },
            TokenV::If => spec_parse_if(p, sub),
            TokenV::Func => spec_parse_fn(p, sub),
            TokenV::Lbracket => {
                let (p1, es) = spec_parse_expr_list(p, true, sub);
                match es {
                    Some(xs) => (p1, Some(ExprV::Array(xs))),
                    None => (p1, None),
                }
            },
            TokenV::Lbrace => {
                let (p1, ps) = spec_parse_hash(p, sub);
                match ps {
                    Some(xs) => (p1, Some(ExprV::Hash(xs))),
                    None => (p1, None),
                }
            },
            _ => (push_err(p, err_no_prefix_v(p.current)), None),
        }
    }
}

/// A prefix operator: its operand binds tighter than any binary operator,
/// so `-a * b` is `(-a) * b` while calls and indexing still bind to the
/// operand.
pub open spec fn spec_parse_prefix_op(p: ParserV, op: Prefix, fuel: nat) -> (
    ParserV,
    Option<ExprV>,
)
    decreases fuel,
{
    if fuel == 0 {
        (push_err(p, err_fuel_v()), None)
    } else {
        let sub = (fuel - 1) as nat;
        let p1 = p_next(p);
        let (p2, e) = spec_parse_expression(p1, 4, sub);
        match e {
            Some(x) => (p2, Some(ExprV::Prefix(op, Box::new(x)))),
            None => (p2, None),
        }
    }
}

/// The climbing loop: while the peek token continues the expression with a
/// binding strength above `min_rank`, extend `left` with an infix
/// operation, a call or an index.  Equal strengths associate to the left.
pub open spec fn spec_parse_infix_loop(p: ParserV, left: ExprV, min_rank: int, fuel: nat) -> (
    ParserV,
    Option<ExprV>,
)
    decreases fuel,
{
    if fuel == 0 {
        (push_err(p, err_fuel_v()), None)
    } else {
        let sub = (fuel - 1) as nat;
        if p.peek is Semicolon || tok_rank(p.peek) <= min_rank {
            (p, Some(left))
        } else if p.peek is Lparen {
            let p1 = p_next(p);
            let (p2, args) = spec_parse_expr_list(p1, false, sub);
            match args {
                Some(xs) => spec_parse_infix_loop(
                    p2,
                    ExprV::Call { function: Box::new(left), arguments: xs },
                    min_rank,
                    sub,
                ),
                None => (p2, None),
            }
        } else if p.peek is Lbracket {
            let p1 = p_next(p);
            let p2 = p_next(p1);
            let (p3, ix) = spec_parse_expression(p2, 0, sub);
            match ix {
                Some(i) => {
                    if p3.peek is Rbracket {
                        spec_parse_infix_loop(
                            p_next(p3),
                            ExprV::Index(Box::new(left), Box::new(i)),
                            min_rank,
                            sub,
                        )
                    } else {
                        (push_err(p3, err_expected_v("']'"@, p3.peek)), None)
                    }
                },
                None => (p3, None),
            }
        } else if is_infix_tok(p.peek) {
            let p1 = p_next(p);
            let r = tok_rank(p1.current);
            let op = infix_of(p1.current);
            let p2 = p_next(p1);
            let (p3, right) = spec_parse_expression(p2, r, sub);
            match right {
                Some(rt) => spec_parse_infix_loop(
                    p3,
                    ExprV::Infix(op, Box::new(left), Box::new(rt)),
                    min_rank,
                    sub,
                ),
                None => (p3, None),
            }
        } else {
            (p, Some(left))
        }
    }
}

/// `if (<cond>) { ... }` with an optional `else { ... }`.
pub open spec fn spec_parse_if(p: ParserV, fuel: nat) -> (ParserV, Option<ExprV>)
    decreases fuel,
{
    if fuel == 0 {
        (push_err(p, err_fuel_v()), None)
    } else {
        let sub = (fuel - 1) as nat;
        if !(p.peek is Lparen) {
            (push_err(p, err_expected_v("'('"@, p.peek)), None)
        } else {
            let p1 = p_next(p);
            let p2 = p_next(p1);
            let (p3, c) = spec_parse_expression(p2, 0, sub);
            match c {
                None => (p3, None),
                Some(cond) => {
                    if !(p3.peek is Rparen) {
                        (push_err(p3, err_expected_v("')'"@, p3.peek)), None)
                    } else {
                        let p4 = p_next(p3);
                        if !(p4.peek is Lbrace) {
                            (push_err(p4, err_expected_v("'{'"@, p4.peek)), None)
                        } else {
                            let p5 = p_next(p4);
                            let (p6, cons) = spec_parse_block(p5, sub);
                            match cons {
                                None => (p6, None),
                                Some(cs) => {
                                    if p6.peek is Else {
                                        let p7 = p_next(p6);
                                        if !(p7.peek is Lbrace) {
                                            (push_err(p7, err_expected_v("'{'"@, p7.peek)), None)
                                        } else {
                                            let p8 = p_next(p7);
                                            let (p9, alt) = spec_parse_block(p8, sub);
                                            match alt {
                                                None => (p9, None),
                                                Some(al) => (
                                                    p9,
                                                    Some(
                                                        ExprV::If {
                                                            cond: Box::new(cond),
                                                            consequence: cs,
                                                            alternative: Some(al),
                                                        },
                                                    ),
                                                ),
                                            }
                                        }
                                    } else {
                                        (
                                            p6,
                                            Some(
                                                ExprV::If {
                                                    cond: Box::new(cond),
                                                    consequence: cs,
                                                    alternative: None,
                                                },
                                            ),
                                        )
                                    }
                                },
                            }
                        }
                    }
                },
            }
        }
    }
}

/// A block `{ ... }`: statements until the closing brace; a missing brace
/// is a recorded error.  On entry the current token is the opening brace;
/// on success the current token is the closing brace.
pub open spec fn spec_parse_block(p: ParserV, fuel: nat) -> (ParserV, Option<Seq<StmtV>>)
    decreases fuel,
{
    if fuel == 0 {
        (push_err(p, err_fuel_v()), None)
    } else {
        spec_parse_block_rec(p_next(p), (fuel - 1) as nat)
    }
}

/// The statements of a block, the current token standing at a statement
/// start or at the closing brace.
pub open spec fn spec_parse_block_rec(p: ParserV, fuel: nat) -> (ParserV, Option<Seq<StmtV>>)
    decreases fuel,
{
    if fuel == 0 {
        (push_err(p, err_fuel_v()), None)
    } else {
        let sub = (fuel - 1) as nat;
        if p.current is Rbrace {
            (p, Some(Seq::empty()))
        } else if p.current is Eof {
            (push_err(p, err_expected_v("'}'"@, p.current)), None)
        } else if p.current is Blank {
            spec_parse_block_rec(p_next(p), sub)
        } else {
            let (p1, st) = spec_parse_statement(p, sub);
            let p2 = p_next(p1);
            let (p3, rest) = spec_parse_block_rec(p2, sub);
            match rest {
                None => (p3, None),
                Some(r) => match st {
                    Some(s) => (p3, Some(seq![s] + r)),
                    None => (p3, Some(r)),
                },
            }
        }
    }
}

/// `fun (<parameters>) { ... }`.
pub open spec fn spec_parse_fn(p: ParserV, fuel: nat) -> (ParserV, Option<ExprV>)
    decreases fuel,
{
    if fuel == 0 {
        (push_err(p, err_fuel_v()), None)
    } else {
        let sub = (fuel - 1) as nat;
        if !(p.peek is Lparen) {
            (push_err(p, err_expected_v("'('"@, p.peek)), None)
        } else {
            let p1 = p_next(p);
            let (p2, ps) = spec_parse_params(p1, sub);
            match ps {
                None => (p2, None),
                Some(params) => {
                    if !(p2.peek is Lbrace) {
                        (push_err(p2, err_expected_v("'{'"@, p2.peek)), None)
                    } else {
                        let p3 = p_next(p2);
                        let (p4, b) = spec_parse_block(p3, sub);
                        match b {
                            None => (p4, None),
                            Some(body) => (p4, Some(ExprV::Func { params, body })),
                        }
                    }
                },
            }
        }
    }
}

/// A comma-separated parameter list; the current token is the opening
/// parenthesis, and on success the closing one.
pub open spec fn spec_parse_params(p: ParserV, fuel: nat) -> (ParserV, Option<Seq<Seq<char>>>)
    decreases fuel,
{
    if fuel == 0 {
        (push_err(p, err_fuel_v()), None)
    } else {
        let sub = (fuel - 1) as nat;
        if p.peek is Rparen {
            (p_next(p), Some(Seq::empty()))
        } else {
            let p1 = p_next(p);
            match p1.current {
                TokenV::Ident(n) => {
                    let (p2, rest) = spec_parse_params_rec(p1, sub);
                    match rest {
                        Some(r) => (p2, Some(seq![n] + r)),
                        None => (p2, None),
                    }
                },
                _ => (push_err(p1, err_expected_v("an identifier"@, p1.current)), None),
            }
        }
    }
}

/// The parameters after the first, the current token standing on the last
/// parameter read.
pub open spec fn spec_parse_params_rec(p: ParserV, fuel: nat) -> (ParserV, Option<Seq<Seq<char>>>)
    decreases fuel,
{
    if fuel == 0 {
        (push_err(p, err_fuel_v()), None)
    } else {
        let sub = (fuel - 1) as nat;
        if p.peek is Comma {
            let p1 = p_next(p);
            let p2 = p_next(p1);
            match p2.current {
                TokenV::Ident(n) => {
                    let (p3, rest) = spec_parse_params_rec(p2, sub);
                    match rest {
                        Some(r) => (p3, Some(seq![n] + r)),
                        None => (p3, None),
                    }
                },
                _ => (push_err(p2, err_expected_v("an identifier"@, p2.current)), None),
            }
        } else if p.peek is Rparen {
            (p_next(p), Some(Seq::empty()))
        } else {
            (push_err(p, err_expected_v("',' or ')'"@, p.peek)), None)
        }
    }
}

/// A comma-separated expression list closed by `)` (call arguments) or `]`
/// (array literal); the current token is the opening delimiter, and on
/// success the closing one.
pub open spec fn spec_parse_expr_list(p: ParserV, bracket: bool, fuel: nat) -> (
    ParserV,
    Option<Seq<ExprV>>,
)
    decreases fuel,
{
    if fuel == 0 {
        (push_err(p, err_fuel_v()), None)
    } else {
        let sub = (fuel - 1) as nat;
        let closed = if bracket {
            p.peek is Rbracket
        } else {
            p.peek is Rparen
        };
        if closed {
            (p_next(p), Some(Seq::empty()))
        } else {
            let p1 = p_next(p);
            let (p2, e) = spec_parse_expression(p1, 0, sub);
            match e {
                None => (p2, None),
                Some(x) => {
                    let (p3, rest) = spec_parse_list_rest(p2, bracket, sub);
                    match rest {
                        Some(r) => (p3, Some(seq![x] + r)),
                        None => (p3, None),
                    }
                },
            }
        }
    }
}

/// The elements after the first of an expression list, the current token
/// standing on the last token of the element just read.
pub open spec fn spec_parse_list_rest(p: ParserV, bracket: bool, fuel: nat) -> (
    ParserV,
    Option<Seq<ExprV>>,
)
    decreases fuel,
{
    if fuel == 0 {
        (push_err(p, err_fuel_v()), None)
    } else {
        let sub = (fuel - 1) as nat;
        let closed = if bracket {
            p.peek is Rbracket
        } else {
            p.peek is Rparen
        };
        if p.peek is Comma {
            let p1 = p_next(p);
            let p2 = p_next(p1);
            let (p3, e) = spec_parse_expression(p2, 0, sub);
            match e {
                None => (p3, None),
                Some(x) => {
                    let (p4, rest) = spec_parse_list_rest(p3, bracket, sub);
                    match rest {
                        Some(r) => (p4, Some(seq![x] + r)),
                        None => (p4, None),
                    }
                },
            }
        } else if closed {
            (p_next(p), Some(Seq::empty()))
        } else {
            (
                push_err(
                    p,
                    err_expected_v(
                        if bracket {
                            "',' or ']'"@
                        } else {
                            "',' or ')'"@
                        },
                        p.peek,
                    ),
                ),
                None,
            )
        }
    }
}

/// A map literal `{ key: value, ... }`: keys are literal tokens, pairs keep
/// their source order, duplicate keys are allowed at parse time.  The
/// current token is the opening brace, and on success the closing one.
pub open spec fn spec_parse_hash(p: ParserV, fuel: nat) -> (ParserV, Option<Seq<(LitV, ExprV)>>)
    decreases fuel,
{
    if fuel == 0 {
        (push_err(p, err_fuel_v()), None)
    } else {
        let sub = (fuel - 1) as nat;
        if p.peek is Rbrace {
            (p_next(p), Some(Seq::empty()))
        } else {
            spec_parse_hash_rec(p, sub)
        }
    }
}

/// The model of one view of `Option<Vec<Statement>>`.
pub open spec fn opt_stmts_v(r: Option<Vec<Statement>>) -> Option<Seq<StmtV>> {
    match r {
        Some(v) => Some(stmts_v(v@)),
        None => None,
    }
}

/// The model of one view of `Option<Vec<Expression>>`.
pub open spec fn opt_exprs_v(r: Option<Vec<Expression>>) -> Option<Seq<ExprV>> {
    match r {
        Some(v) => Some(crate::ast::exprs_v(v@)),
        None => None,
    }
}

/// The model of one view of `Option<Vec<Ident>>`.
pub open spec fn opt_idents_v(r: Option<Vec<Ident>>) -> Option<Seq<Seq<char>>> {
    match r {
        Some(v) => Some(crate::ast::idents_v(v@)),
        None => None,
    }
}

/// The model of one view of an optional pair list.
pub open spec fn opt_pairs_v(r: Option<Vec<(crate::ast::Literal, Expression)>>) -> Option<
    Seq<(LitV, ExprV)>,
> {
    match r {
        Some(v) => Some(crate::ast::pairs_v(v@)),
        None => None,
    }
}

/// The pairs of a map literal, the current token standing on the separator
/// before the next pair: the opening brace or a comma.
pub open spec fn spec_parse_hash_rec(p: ParserV, fuel: nat) -> (ParserV, Option<Seq<(LitV, ExprV)>>)
    decreases fuel,
{
    if fuel == 0 {
        (push_err(p, err_fuel_v()), None)
    } else {
        let sub = (fuel - 1) as nat;
        let p1 = p_next(p);
        let key = match p1.current {
            TokenV::Int(i) => Some(LitV::Int(i)),
            TokenV::StrLit(s) => Some(LitV::Str(s)),
            TokenV::Bool(b) => Some(LitV::Bool(b)),
            _ => None,
        };
        match key {
            None => (push_err(p1, err_expected_v("a literal key"@, p1.current)), None),
            Some(k) => {
                if !(p1.peek is Colon) {
                    (push_err(p1, err_expected_v("':'"@, p1.peek)), None)
                } else {
                    let p2 = p_next(p1);
                    let p3 = p_next(p2);
                    let (p4, v) = spec_parse_expression(p3, 0, sub);
                    match v {
                        None => (p4, None),
                        Some(val) => {
                            if p4.peek is Comma {
                                let (p5, rest) = spec_parse_hash_rec(p_next(p4), sub);
                                match rest {
                                    Some(r) => (p5, Some(seq![(k, val)] + r)),
                                    None => (p5, None),
                                }
                            } else if p4.peek is Rbrace {
                                (p_next(p4), Some(seq![(k, val)]))
                            } else {
                                (push_err(p4, err_expected_v("',' or '}'"@, p4.peek)), None)
                            }
                        },
                    }
                }
            },
        }
    }
}

/// A short description of a token, for error messages.
fn token_desc(t: &Token) -> (s: String)
    ensures
        s@ == tok_desc_v(tok_v(*t)),
{
    reveal(tok_desc_v);
    match t {
        Token::Illegal => String::from_str("an illegal token"),
        Token::Blank => String::from_str("a blank line"),
        Token::Eof => String::from_str("end of input"),
        Token::Ident(name) => String::from_str("identifier ").concat(name.as_str()),
        Token::Int(_) => String::from_str("an integer literal"),
        Token::String(_) => String::from_str("a string literal"),
        Token::Bool(b) => if *b {
            String::from_str("'true'")
        } else {
            String::from_str("'false'")
        },
        Token::Assign => String::from_str("'='"),
        Token::If => String::from_str("'if'"),
        Token::Else => String::from_str("'else'"),
        Token::Plus => String::from_str("'+'"),
        Token::Minus => String::from_str("'-'"),
        Token::Bang => String::from_str("'!'"),
        Token::Asterisk => String::from_str("'*'"),
        Token::Slash => String::from_str("'/'"),
        Token::Equal => String::from_str("'=='"),
        Token::NotEqual => String::from_str("'!='"),
        Token::LessThan => String::from_str("'<'"),
        Token::LessThanEqual => String::from_str("'<='"),
        Token::GreaterThan => String::from_str("'>'"),
        Token::GreaterThanEqual => String::from_str("'>='"),
        Token::Comma => String::from_str("','"),
        Token::Colon => String::from_str("':'"),
        Token::Semicolon => String::from_str("';'"),
        Token::Lparen => String::from_str("'('"),
        Token::Rparen => String::from_str("')'"),
        Token::Lbrace => String::from_str("'{'"),
        Token::Rbrace => String::from_str("'}'"),
        Token::Lbracket => String::from_str("'['"),
        Token::Rbracket => String::from_str("']'"),
        Token::Func => String::from_str("'fun'"),
        Token::Let => String::from_str("'let'"),
        Token::Return => String::from_str("'return'"),
    }
}

/// Builds the message for an expected token that was not seen.
fn make_expected(exp: &str, got: &Token) -> (m: String)
    ensures
        m@ == err_expected_v(exp@, tok_v(*got)),
{
    let d = token_desc(got);
    let m = String::from_str("expected ").concat(exp).concat(", got ").concat(d.as_str());
    proof {
        assert(m@ =~= err_expected_v(exp@, tok_v(*got)));
    }
    m
}

/// Builds the message for a token that cannot start an expression.
fn make_no_prefix(got: &Token) -> (m: String)
    ensures
        m@ == err_no_prefix_v(tok_v(*got)),
{
    let d = token_desc(got);
    let m = String::from_str("no prefix parse rule for ").concat(d.as_str());
    proof {
        assert(m@ =~= err_no_prefix_v(tok_v(*got)));
    }
    m
}

/// Builds the depth-limit message.
fn fuel_msg() -> (m: String)
    ensures
        m@ == err_fuel_v(),
{
    String::from_str("input exceeds the parser's depth limit")
}

/// Executable infix binding strength.
fn tok_rank_e(t: &Token) -> (r: u8)
    ensures
        r as int == tok_rank(tok_v(*t)),
{
    match t {
        Token::Equal => 1,
        Token::NotEqual => 1,
        Token::LessThan => 2,
        Token::LessThanEqual => 2,
        Token::GreaterThan => 2,
        Token::GreaterThanEqual => 2,
        Token::Plus => 3,
        Token::Minus => 3,
        Token::Slash => 4,
        Token::Asterisk => 4,
        Token::Lparen => 5,
        Token::Lbracket => 6,
        _ => 0,
    }
}

/// Executable test for a binary operator token.
fn is_infix_e(t: &Token) -> (r: bool)
    ensures
        r == is_infix_tok(tok_v(*t)),
{
    match t {
        Token::Equal => true,
        Token::NotEqual => true,
        Token::LessThan => true,
        Token::LessThanEqual => true,
        Token::GreaterThan => true,
        Token::GreaterThanEqual => true,
        Token::Plus => true,
        Token::Minus => true,
        Token::Slash => true,
        Token::Asterisk => true,
        _ => false,
    }
}

/// Executable operator of a binary operator token.
fn infix_of_e(t: &Token) -> (r: Infix)
    ensures
        r == infix_of(tok_v(*t)),
{
    match t {
        Token::Equal => Infix::Equal,
        Token::NotEqual => Infix::NotEqual,
        Token::LessThan => Infix::LessThan,
        Token::LessThanEqual => Infix::LessThanEqual,
        Token::GreaterThan => Infix::GreaterThan,
        Token::GreaterThanEqual => Infix::GreaterThanEqual,
        Token::Minus => Infix::Minus,
        Token::Slash => Infix::Divide,
        Token::Asterisk => Infix::Multiply,
        _ => Infix::Plus,
    }
}

/// The parser: it pulls tokens from the tokenizer two at a time (current
/// and peek) and accumulates error messages.
pub struct Parser {
    lexer: Lexer,
    current: Token,
    peek: Token,
    errors: Vec<String>,
}

impl View for Parser {
    type V = ParserV;

    closed spec fn view(&self) -> ParserV {
        ParserV {
            lex: self.lexer@,
            current: tok_v(self.current),
            peek: tok_v(self.peek),
            errors: errs_v(self.errors@),
        }
    }
}

impl Parser {
    /// The tokenizer inside is well formed.
    pub closed spec fn wf(&self) -> bool {
        self.lexer.wf()
    }

    /// Builds a parser over a tokenizer, reading the first two tokens.
    pub fn new(lexer: Lexer) -> (p: Parser)
        requires
            lexer.wf(),
        ensures
            p.wf(),
            p@ == spec_parser_new(lexer@),
    {
        let ghost l0 = lexer@;
        let mut lx = lexer;
        let current = lx.next_token();
        let peek = lx.next_token();
        let p = Parser { lexer: lx, current, peek, errors: Vec::new() };
        proof {
            assert(p@ =~= spec_parser_new(l0));
        }
        p
    }

    /// Shifts the token window: peek becomes current, the tokenizer yields
    /// the next peek.
    fn next_token(&mut self)
        requires
            old(self).wf(),
        ensures
            final(self).wf(),
            final(self)@ == p_next(old(self)@),
    {
        let t = self.lexer.next_token();
        self.current = self.peek.clone();
        self.peek = t;
        proof {
            assert(self@ =~= p_next(old(self)@));
        }
    }

    /// Records one parse error.
    fn push_error(&mut self, m: String)
        requires
            old(self).wf(),
        ensures
            final(self).wf(),
            final(self)@ == push_err(old(self)@, m@),
    {
        let ghost mv = m@;
        self.errors.push(m);
        proof {
            assert(errs_v(self.errors@) =~= errs_v(old(self).errors@).push(mv));
            assert(self@ =~= push_err(old(self)@, mv));
        }
    }

    /// The errors recorded so far, in order.
    pub fn get_errors(&self) -> (errs: Vec<String>)
        ensures
            errs_v(errs@) == self@.errors,
    {
        let mut errs: Vec<String> = Vec::new();
        let mut i: usize = 0;
        while i < self.errors.len()
            invariant
                i <= self.errors.len(),
                errs@.len() == i,
                forall|j: int| 0 <= j < i ==> #[trigger] errs@[j]@ == self.errors@[j]@,
            decreases self.errors.len() - i,
        {
            errs.push(self.errors[i].clone());
            i = i + 1;
        }
        proof {
            assert(errs_v(errs@) =~= errs_v(self.errors@));
        }
        errs
    }

    /// Parses the whole token stream: the program's statements, with every
    /// syntax error recorded rather than raised.
    pub fn parse_program(&mut self) -> (prog: Program)
        requires
            old(self).wf(),
        ensures
            final(self).wf(),
            final(self)@ == spec_parse_program(old(self)@, PARSE_FUEL as nat).0,
            stmts_v(prog@) == spec_parse_program(old(self)@, PARSE_FUEL as nat).1,
    {
        self.parse_program_fueled(PARSE_FUEL)
    }

    /// The program loop: statements until end of input.
    #[verifier::rlimit(100)]
    fn parse_program_fueled(&mut self, fuel: u64) -> (prog: Program)
        requires
            old(self).wf(),
        ensures
            final(self).wf(),
            final(self)@ == spec_parse_program(old(self)@, fuel as nat).0,
            stmts_v(prog@) == spec_parse_program(old(self)@, fuel as nat).1,
    {
        let ghost p0 = self@;
        let mut prog: Vec<Statement> = Vec::new();
        let mut f = fuel;
        proof {
            assert(stmts_v(prog@) + spec_parse_program(p0, fuel as nat).1 =~= spec_parse_program(
                p0,
                fuel as nat,
            ).1);
        }
        loop
            invariant_except_break
                self.wf(),
                spec_parse_program(p0, fuel as nat).0 == spec_parse_program(self@, f as nat).0,
                spec_parse_program(p0, fuel as nat).1 == stmts_v(prog@) + spec_parse_program(
                    self@,
                    f as nat,
                ).1,
            ensures
                self.wf(),
                self@ == spec_parse_program(p0, fuel as nat).0,
                stmts_v(prog@) == spec_parse_program(p0, fuel as nat).1,
            decreases f,
        {
            if f == 0 {
                let m = fuel_msg();
                self.push_error(m);
                proof {
                    assert(stmts_v(prog@) + Seq::<StmtV>::empty() =~= stmts_v(prog@));
                }
                break;
            }
            if matches!(self.current, Token::Eof) {
                proof {
                    assert(stmts_v(prog@) + Seq::<StmtV>::empty() =~= stmts_v(prog@));
                }
                break;
            }
            if matches!(self.current, Token::Blank) {
                self.next_token();
                f = f - 1;
                continue;
            }
            let ghost p_pre = self@;
            let ghost f_pre = f as nat;
            let ghost prog_pre = prog@;
            let st = self.parse_statement(f - 1);
            let ghost stv = opt_stmt_v(st);
            match st {
                Some(s) => {
                    proof {
                        lemma_stmts_v_push(prog@, s);
                    }
                    prog.push(s);
                },
                None => {},
            }
            self.next_token();
            f = f - 1;
            proof {
                let rest = spec_parse_program(self@, f as nat).1;
                match stv {
                    Some(sv) => {
                        assert(stmts_v(prog_pre) + (seq![sv] + rest) =~= stmts_v(prog@) + rest);
                    },
                    None => {},
                }
            }
        }
        prog
    }

    /// Error recovery: skip tokens to the next semicolon or the end of the
    /// input.
    fn sync(&mut self, fuel: u64)
        requires
            old(self).wf(),
        ensures
            final(self).wf(),
            final(self)@ == spec_sync(old(self)@, fuel as nat),
    {
        let ghost p0 = self@;
        let mut f = fuel;
        loop
            invariant_except_break
                self.wf(),
                spec_sync(p0, fuel as nat) == spec_sync(self@, f as nat),
            ensures
                self.wf(),
                self@ == spec_sync(p0, fuel as nat),
            decreases f,
        {
            if f == 0 {
                let m = fuel_msg();
                self.push_error(m);
                break;
            }
            if matches!(self.current, Token::Semicolon | Token::Eof) {
                break;
            }
            self.next_token();
            f = f - 1;
        }
    }

    /// One statement; on failure the parser synchronizes to the next
    /// statement boundary.
    #[verifier::rlimit(100)]
    fn parse_statement(&mut self, fuel: u64) -> (r: Option<Statement>)
        requires
            old(self).wf(),
        ensures
            final(self).wf(),
            final(self)@ == spec_parse_statement(old(self)@, fuel as nat).0,
            opt_stmt_v(r) == spec_parse_statement(old(self)@, fuel as nat).1,
        decreases fuel,
    {
        if fuel == 0 {
            let m = fuel_msg();
            self.push_error(m);
            return None;
        }
        let r = if matches!(self.current, Token::Let) {
            self.parse_let(fuel - 1)
        } else if matches!(self.current, Token::Return) {
            self.parse_return(fuel - 1)
        } else {
            self.parse_expr_stmt(fuel - 1)
        };
        match r {
            Some(s) => Some(s),
            None => {
                self.sync(fuel - 1);
                None
            },
        }
    }

    /// `let <identifier> = <expression> ;`.
    #[verifier::rlimit(100)]
    fn parse_let(&mut self, fuel: u64) -> (r: Option<Statement>)
        requires
            old(self).wf(),
        ensures
            final(self).wf(),
            final(self)@ == spec_parse_let(old(self)@, fuel as nat).0,
            opt_stmt_v(r) == spec_parse_let(old(self)@, fuel as nat).1,
        decreases fuel,
    {
        if fuel == 0 {
            let m = fuel_msg();
            self.push_error(m);
            return None;
        }
        let name = match &self.peek {
            Token::Ident(s) => Some(Ident(s.clone())),
            _ => None,
        };
        match name {
            None => {
                let m = make_expected("an identifier", &self.peek);
                self.push_error(m);
                None
            },
            Some(ident) => {
                self.next_token();
                if !matches!(self.peek, Token::Assign) {
                    let m = make_expected("'='", &self.peek);
                    self.push_error(m);
                    return None;
                }
                self.next_token();
                self.next_token();
                let e = self.parse_expression(0, fuel - 1);
                match e {
                    None => None,
                    Some(x) => {
                        if matches!(self.peek, Token::Semicolon) {
                            self.next_token();
                        }
                        Some(Statement::LetStmt(ident, x))
                    },
                }
            },
        }
    }

    /// `return <expression> ;`.
    #[verifier::rlimit(100)]
    fn parse_return(&mut self, fuel: u64) -> (r: Option<Statement>)
        requires
            old(self).wf(),
        ensures
            final(self).wf(),
            final(self)@ == spec_parse_return(old(self)@, fuel as nat).0,
            opt_stmt_v(r) == spec_parse_return(old(self)@, fuel as nat).1,
        decreases fuel,
    {
        if fuel == 0 {
            let m = fuel_msg();
            self.push_error(m);
            return None;
        }
        self.next_token();
        let e = self.parse_expression(0, fuel - 1);
        match e {
            None => None,
            Some(x) => {
                if matches!(self.peek, Token::Semicolon) {
                    self.next_token();
                }
                Some(Statement::ReturnStmt(x))
            },
        }
    }

    /// A bare expression statement.
    #[verifier::rlimit(100)]
    fn parse_expr_stmt(&mut self, fuel: u64) -> (r: Option<Statement>)
        requires
            old(self).wf(),
        ensures
            final(self).wf(),
            final(self)@ == spec_parse_expr_stmt(old(self)@, fuel as nat).0,
            opt_stmt_v(r) == spec_parse_expr_stmt(old(self)@, fuel as nat).1,
        decreases fuel,
    {
        if fuel == 0 {
            let m = fuel_msg();
            self.push_error(m);
            return None;
        }
        let e = self.parse_expression(0, fuel - 1);
        match e {
            None => None,
            Some(x) => {
                if matches!(self.peek, Token::Semicolon) {
                    self.next_token();
                }
                Some(Statement::ExprStmt(x))
            },
        }
    }

    /// Precedence climbing from a minimum binding strength.
    fn parse_expression(&mut self, min_rank: u8, fuel: u64) -> (r: Option<Expression>)
        requires
            old(self).wf(),
        ensures
            final(self).wf(),
            final(self)@ == spec_parse_expression(old(self)@, min_rank as int, fuel as nat).0,
            opt_expr_v(r) == spec_parse_expression(old(self)@, min_rank as int, fuel as nat).1,
        decreases fuel,
    {
        if fuel == 0 {
            let m = fuel_msg();
            self.push_error(m);
            return None;
        }
        let left = self.parse_prefix(fuel - 1);
        match left {
            None => None,
            Some(l) => self.parse_infix_loop(l, min_rank, fuel - 1),
        }
    }

    /// The prefix rules.
    #[verifier::rlimit(100)]
    fn parse_prefix(&mut self, fuel: u64) -> (r: Option<Expression>)
        requires
            old(self).wf(),
        ensures
            final(self).wf(),
            final(self)@ == spec_parse_prefix(old(self)@, fuel as nat).0,
            opt_expr_v(r) == spec_parse_prefix(old(self)@, fuel as nat).1,
        decreases fuel,
    {
        if fuel == 0 {
            let m = fuel_msg();
            self.push_error(m);
            return None;
        }
        let cur = self.current.clone();
        match cur {
            Token::Ident(s) => Some(Expression::IdentExpr(Ident(s))),
            Token::Int(i) => Some(Expression::LitExpr(Literal::IntLiteral(i))),
            Token::String(s) => Some(Expression::LitExpr(Literal::StringLiteral(s))),
            Token::Bool(b) => Some(Expression::LitExpr(Literal::BoolLiteral(b))),
            Token::Bang => self.parse_prefix_op(Prefix::Not, fuel - 1),
            Token::Minus => self.parse_prefix_op(Prefix::PrefixMinus, fuel - 1),
            Token::Lparen => {
                self.next_token();
                let e = self.parse_expression(0, fuel - 1);
                match e {
                    None => None,
                    Some(x) => {
                        if matches!(self.peek, Token::Rparen) {
                            self.next_token();
                            Some(x)
                        } else {
                            let m = make_expected("')'", &self.peek);
                            self.push_error(m);
                            None
                        }
                    },
                }
            },
            Token::If => self.parse_if(fuel - 1),
            Token::Func => self.parse_fn(fuel - 1),
            Token::Lbracket => {
                match self.parse_expr_list(true, fuel - 1) {
                    Some(es) => Some(Expression::ArrayExpr(es)),
                    None => None,
                }
            },
            Token::Lbrace => {
                match self.parse_hash(fuel - 1) {
                    Some(ps) => Some(Expression::HashExpr(ps)),
                    None => None,
                }
            },
            _ => {
                let m = make_no_prefix(&self.current);
                self.push_error(m);
                None
            },
        }
    }

    /// A prefix operator applied to its operand.
    fn parse_prefix_op(&mut self, op: Prefix, fuel: u64) -> (r: Option<Expression>)
        requires
            old(self).wf(),
        ensures
            final(self).wf(),
            final(self)@ == spec_parse_prefix_op(old(self)@, op, fuel as nat).0,
            opt_expr_v(r) == spec_parse_prefix_op(old(self)@, op, fuel as nat).1,
        decreases fuel,
    {
        if fuel == 0 {
            let m = fuel_msg();
            self.push_error(m);
            return None;
        }
        self.next_token();
        let e = self.parse_expression(4, fuel - 1);
        match e {
            Some(x) => Some(Expression::PrefixExpr(op, Box::new(x))),
            None => None,
        }
    }

    /// The climbing loop over infix operators, calls and indexing.
    #[verifier::rlimit(100)]
    fn parse_infix_loop(&mut self, left: Expression, min_rank: u8, fuel: u64) -> (r: Option<
        Expression,
    >)
        requires
            old(self).wf(),
        ensures
            final(self).wf(),
            final(self)@ == spec_parse_infix_loop(
                old(self)@,
                expr_v(left),
                min_rank as int,
                fuel as nat,
            ).0,
            opt_expr_v(r) == spec_parse_infix_loop(
                old(self)@,
                expr_v(left),
                min_rank as int,
                fuel as nat,
            ).1,
        decreases fuel,
    {
        if fuel == 0 {
            let m = fuel_msg();
            self.push_error(m);
            return None;
        }
        let rank = tok_rank_e(&self.peek);
        if matches!(self.peek, Token::Semicolon) || rank <= min_rank {
            return Some(left);
        }
        if matches!(self.peek, Token::Lparen) {
            self.next_token();
            let args = match self.parse_expr_list(false, fuel - 1) {
                None => {
                    return None;
                },
                Some(a) => a,
            };
            let call = Expression::CallExpr { function: Box::new(left), arguments: args };
            self.parse_infix_loop(call, min_rank, fuel - 1)
        } else if matches!(self.peek, Token::Lbracket) {
            self.next_token();
            self.next_token();
            let ix = match self.parse_expression(0, fuel - 1) {
                None => {
                    return None;
                },
                Some(i) => i,
            };
            if matches!(self.peek, Token::Rbracket) {
                self.next_token();
                let idx = Expression::IndexExpr { array: Box::new(left), index: Box::new(ix) };
                self.parse_infix_loop(idx, min_rank, fuel - 1)
            } else {
                let m = make_expected("']'", &self.peek);
                self.push_error(m);
                None
            }
        } else if is_infix_e(&self.peek) {
            self.next_token();
            let r2 = tok_rank_e(&self.current);
            let op = infix_of_e(&self.current);
            self.next_token();
            let right = match self.parse_expression(r2, fuel - 1) {
                None => {
                    return None;
                },
                Some(rt) => rt,
            };
            let inf = Expression::InfixExpr(op, Box::new(left), Box::new(right));
            self.parse_infix_loop(inf, min_rank, fuel - 1)
        } else {
            Some(left)
        }
    }

    /// `if (<cond>) { ... } else { ... }`.
    #[verifier::rlimit(100)]
    fn parse_if(&mut self, fuel: u64) -> (r: Option<Expression>)
        requires
            old(self).wf(),
        ensures
            final(self).wf(),
            final(self)@ == spec_parse_if(old(self)@, fuel as nat).0,
            opt_expr_v(r) == spec_parse_if(old(self)@, fuel as nat).1,
        decreases fuel,
    {
        if fuel == 0 {
            let m = fuel_msg();
            self.push_error(m);
            return None;
        }
        if !matches!(self.peek, Token::Lparen) {
            let m = make_expected("'('", &self.peek);
            self.push_error(m);
            return None;
        }
        self.next_token();
        self.next_token();
        let c = self.parse_expression(0, fuel - 1);
        let cond = match c {
            None => {
                return None;
            },
            Some(x) => x,
        };
        if !matches!(self.peek, Token::Rparen) {
            let m = make_expected("')'", &self.peek);
            self.push_error(m);
            return None;
        }
        self.next_token();
        if !matches!(self.peek, Token::Lbrace) {
            let m = make_expected("'{'", &self.peek);
            self.push_error(m);
            return None;
        }
        self.next_token();
        let cons = match self.parse_block(fuel - 1) {
            None => {
                return None;
            },
            Some(cs) => cs,
        };
        if matches!(self.peek, Token::Else) {
            self.next_token();
            if !matches!(self.peek, Token::Lbrace) {
                let m = make_expected("'{'", &self.peek);
                self.push_error(m);
                return None;
            }
            self.next_token();
            match self.parse_block(fuel - 1) {
                None => None,
                Some(alt) => Some(
                    Expression::IfExpr {
                        cond: Box::new(cond),
                        consequence: cons,
                        alternative: Some(alt),
                    },
                ),
            }
        } else {
            Some(Expression::IfExpr { cond: Box::new(cond), consequence: cons, alternative: None })
        }
    }

    /// A block `{ ... }`; on entry the current token is the opening brace.
    #[verifier::spinoff_prover]
    fn parse_block(&mut self, fuel: u64) -> (r: Option<Vec<Statement>>)
        requires
            old(self).wf(),
        ensures
            final(self).wf(),
            final(self)@ == spec_parse_block(old(self)@, fuel as nat).0,
            opt_stmts_v(r) == spec_parse_block(old(self)@, fuel as nat).1,
        decreases fuel,
    {
        if fuel == 0 {
            let m = fuel_msg();
            self.push_error(m);
            return None;
        }
        self.next_token();
        let ghost p0 = self@;
        let ghost f0 = (fuel - 1) as nat;
        let mut stmts: Vec<Statement> = Vec::new();
        let mut f = fuel - 1;
        proof {
            assert(stmts_v(stmts@) =~= Seq::<StmtV>::empty());
            match spec_parse_block_rec(p0, f0).1 {
                Some(r) => {
                    assert(Seq::<StmtV>::empty() + r =~= r);
                },
                None => {},
            }
        }
        loop
            invariant
                self.wf(),
                fuel >= 1,
                f < fuel,
                spec_parse_block_rec(p_next(old(self)@), (fuel - 1) as nat).0
                    == spec_parse_block_rec(self@, f as nat).0,
                (match spec_parse_block_rec(self@, f as nat).1 {
                    Some(r) => spec_parse_block_rec(p_next(old(self)@), (fuel - 1) as nat).1
                        == Some(stmts_v(stmts@) + r),
                    None => spec_parse_block_rec(p_next(old(self)@), (fuel - 1) as nat).1 is None,
                }),
            decreases f,
        {
            if f == 0 {
                let m = fuel_msg();
                self.push_error(m);
                return None;
            }
            if matches!(self.current, Token::Rbrace) {
                proof {
                    assert(stmts_v(stmts@) + Seq::<StmtV>::empty() =~= stmts_v(stmts@));
                }
                return Some(stmts);
            }
            if matches!(self.current, Token::Eof) {
                let m = make_expected("'}'", &self.current);
                self.push_error(m);
                return None;
            }
            if matches!(self.current, Token::Blank) {
                self.next_token();
                f = f - 1;
                continue;
            }
            let ghost stmts_pre = stmts@;
            let st = self.parse_statement(f - 1);
            let ghost stv = opt_stmt_v(st);
            match st {
                Some(s) => {
                    proof {
                        lemma_stmts_v_push(stmts@, s);
                    }
                    stmts.push(s);
                },
                None => {},
            }
            self.next_token();
            f = f - 1;
            proof {
                match spec_parse_block_rec(self@, f as nat).1 {
                    Some(rest) => {
                        match stv {
                            Some(sv) => {
                                assert(stmts_v(stmts_pre) + (seq![sv] + rest) =~= stmts_v(stmts@)
                                    + rest);
                            },
                            None => {},
                        }
                    },
                    None => {},
                }
            }
        }
    }

    /// `fun (<parameters>) { ... }`.
    #[verifier::rlimit(100)]
    fn parse_fn(&mut self, fuel: u64) -> (r: Option<Expression>)
        requires
            old(self).wf(),
        ensures
            final(self).wf(),
            final(self)@ == spec_parse_fn(old(self)@, fuel as nat).0,
            opt_expr_v(r) == spec_parse_fn(old(self)@, fuel as nat).1,
        decreases fuel,
    {
        if fuel == 0 {
            let m = fuel_msg();
            self.push_error(m);
            return None;
        }
        if !matches!(self.peek, Token::Lparen) {
            let m = make_expected("'('", &self.peek);
            self.push_error(m);
            return None;
        }
        self.next_token();
        let params = match self.parse_params(fuel - 1) {
            None => {
                return None;
            },
            Some(ps) => ps,
        };
        if !matches!(self.peek, Token::Lbrace) {
            let m = make_expected("'{'", &self.peek);
            self.push_error(m);
            return None;
        }
        self.next_token();
        match self.parse_block(fuel - 1) {
            None => None,
            Some(body) => Some(Expression::FnExpr { params, body }),
        }
    }

    /// A comma-separated parameter list.
    #[verifier::rlimit(100)]
    fn parse_params(&mut self, fuel: u64) -> (r: Option<Vec<Ident>>)
        requires
            old(self).wf(),
        ensures
            final(self).wf(),
            final(self)@ == spec_parse_params(old(self)@, fuel as nat).0,
            opt_idents_v(r) == spec_parse_params(old(self)@, fuel as nat).1,
        decreases fuel,
    {
        if fuel == 0 {
            let m = fuel_msg();
            self.push_error(m);
            return None;
        }
        if matches!(self.peek, Token::Rparen) {
            self.next_token();
            let r: Vec<Ident> = Vec::new();
            proof {
                assert(crate::ast::idents_v(r@) =~= Seq::<Seq<char>>::empty());
            }
            return Some(r);
        }
        self.next_token();
        let first = match &self.current {
            Token::Ident(s) => Some(Ident(s.clone())),
            _ => None,
        };
        let mut params: Vec<Ident> = match first {
            None => {
                let m = make_expected("an identifier", &self.current);
                self.push_error(m);
                return None;
            },
            Some(ident) => {
                let mut v: Vec<Ident> = Vec::new();
                v.push(ident);
                v
            },
        };
        let ghost p0 = self@;
        let ghost f0 = (fuel - 1) as nat;
        let mut f = fuel - 1;
        proof {
            assert(params@.subrange(1, params@.len() as int) =~= Seq::<Ident>::empty());
            assert(crate::ast::idents_v(Seq::<Ident>::empty()) =~= Seq::<Seq<char>>::empty());
            match spec_parse_params_rec(p0, f0).1 {
                Some(r) => {
                    assert(Seq::<Seq<char>>::empty() + r =~= r);
                },
                None => {},
            }
        }
        loop
            invariant
                self.wf(),
                fuel >= 1,
                f < fuel,
                params@.len() >= 1,
                !(old(self)@.peek is Rparen),
                p_next(old(self)@).current is Ident,
                spec_parse_params_rec(p_next(old(self)@), (fuel - 1) as nat).0
                    == spec_parse_params_rec(self@, f as nat).0,
                (match spec_parse_params_rec(self@, f as nat).1 {
                    Some(r) => spec_parse_params_rec(p_next(old(self)@), (fuel - 1) as nat).1
                        == Some(
                        crate::ast::idents_v(params@.subrange(1, params@.len() as int)) + r,
                    ),
                    None => spec_parse_params_rec(p_next(old(self)@), (fuel - 1) as nat).1 is None,
                }),
                crate::ast::idents_v(params@).len() >= 1,
                crate::ast::idents_v(params@) == seq![
                    crate::ast::ident_v(params@[0]),
                ] + crate::ast::idents_v(params@.subrange(1, params@.len() as int)),
                crate::ast::ident_v(params@[0]) == ({
                    match p_next(old(self)@).current {
                        TokenV::Ident(n) => n,
                        _ => Seq::<char>::empty(),
                    }
                }),
            decreases f,
        {
            if f == 0 {
                let m = fuel_msg();
                self.push_error(m);
                return None;
            }
            if matches!(self.peek, Token::Comma) {
                self.next_token();
                self.next_token();
                let nxt = match &self.current {
                    Token::Ident(s) => Some(Ident(s.clone())),
                    _ => None,
                };
                match nxt {
                    None => {
                        let m = make_expected("an identifier", &self.current);
                        self.push_error(m);
                        return None;
                    },
                    Some(ident) => {
                        let ghost params_pre = params@;
                        params.push(ident);
                        f = f - 1;
                        proof {
                            assert(params@.subrange(1, params@.len() as int) =~= params_pre.subrange(
                                1,
                                params_pre.len() as int,
                            ).push(params@[params@.len() - 1]));
                            let tail_pre = crate::ast::idents_v(
                                params_pre.subrange(1, params_pre.len() as int),
                            );
                            let nv = crate::ast::ident_v(params@[params@.len() - 1]);
                            assert(crate::ast::idents_v(params@.subrange(1, params@.len() as int))
                                =~= tail_pre.push(nv));
                            assert(tail_pre + (seq![nv] + spec_parse_params_rec(
                                self@,
                                f as nat,
                            ).1->0) =~= tail_pre.push(nv) + spec_parse_params_rec(
                                self@,
                                f as nat,
                            ).1->0);
                            assert(crate::ast::idents_v(params@) =~= seq![
                                crate::ast::ident_v(params@[0]),
                            ] + crate::ast::idents_v(params@.subrange(1, params@.len() as int)));
                        }
                    },
                }
            } else if matches!(self.peek, Token::Rparen) {
                self.next_token();
                proof {
                    let tail = crate::ast::idents_v(params@.subrange(1, params@.len() as int));
                    assert(tail + Seq::<Seq<char>>::empty() =~= tail);
                }
                return Some(params);
            } else {
                let m = make_expected("',' or ')'", &self.peek);
                self.push_error(m);
                return None;
            }
        }
    }

    /// A comma-separated expression list closed by `)` or `]`.
    #[verifier::rlimit(100)]
    fn parse_expr_list(&mut self, bracket: bool, fuel: u64) -> (r: Option<Vec<Expression>>)
        requires
            old(self).wf(),
        ensures
            final(self).wf(),
            final(self)@ == spec_parse_expr_list(old(self)@, bracket, fuel as nat).0,
            opt_exprs_v(r) == spec_parse_expr_list(old(self)@, bracket, fuel as nat).1,
        decreases fuel,
    {
        if fuel == 0 {
            let m = fuel_msg();
            self.push_error(m);
            return None;
        }
        let closed = if bracket {
            matches!(self.peek, Token::Rbracket)
        } else {
            matches!(self.peek, Token::Rparen)
        };
        if closed {
            self.next_token();
            let r: Vec<Expression> = Vec::new();
            proof {
                assert(crate::ast::exprs_v(r@) =~= Seq::<ExprV>::empty());
            }
            return Some(r);
        }
        self.next_token();
        let first = match self.parse_expression(0, fuel - 1) {
            None => {
                return None;
            },
            Some(x) => x,
        };
        let mut elems: Vec<Expression> = Vec::new();
        elems.push(first);
        let ghost p0 = self@;
        let ghost f0 = (fuel - 1) as nat;
        let mut f = fuel - 1;
        proof {
            assert(elems@.subrange(1, elems@.len() as int) =~= Seq::<Expression>::empty());
            assert(crate::ast::exprs_v(Seq::<Expression>::empty()) =~= Seq::<ExprV>::empty());
            match spec_parse_list_rest(p0, bracket, f0).1 {
                Some(r) => {
                    assert(Seq::<ExprV>::empty() + r =~= r);
                },
                None => {},
            }
        }
        loop
            invariant
                self.wf(),
                fuel >= 1,
                f < fuel,
                elems@.len() >= 1,
                !(if bracket {
                    old(self)@.peek is Rbracket
                } else {
                    old(self)@.peek is Rparen
                }),
                spec_parse_expression(p_next(old(self)@), 0, (fuel - 1) as nat).1 == Some(
                    expr_v(elems@[0]),
                ),
                spec_parse_list_rest(
                    spec_parse_expression(p_next(old(self)@), 0, (fuel - 1) as nat).0,
                    bracket,
                    (fuel - 1) as nat,
                ).0 == spec_parse_list_rest(self@, bracket, f as nat).0,
                (match spec_parse_list_rest(self@, bracket, f as nat).1 {
                    Some(r) => spec_parse_list_rest(
                        spec_parse_expression(p_next(old(self)@), 0, (fuel - 1) as nat).0,
                        bracket,
                        (fuel - 1) as nat,
                    ).1 == Some(
                        crate::ast::exprs_v(elems@.subrange(1, elems@.len() as int)) + r,
                    ),
                    None => spec_parse_list_rest(
                        spec_parse_expression(p_next(old(self)@), 0, (fuel - 1) as nat).0,
                        bracket,
                        (fuel - 1) as nat,
                    ).1 is None,
                }),
                crate::ast::exprs_v(elems@) == seq![expr_v(elems@[0])] + crate::ast::exprs_v(
                    elems@.subrange(1, elems@.len() as int),
                ),
            decreases f,
        {
            if f == 0 {
                let m = fuel_msg();
                self.push_error(m);
                return None;
            }
            if matches!(self.peek, Token::Comma) {
                self.next_token();
                self.next_token();
                match self.parse_expression(0, f - 1) {
                    None => {
                        return None;
                    },
                    Some(x) => {
                        let ghost elems_pre = elems@;
                        elems.push(x);
                        f = f - 1;
                        proof {
                            assert(elems@.subrange(1, elems@.len() as int) =~= elems_pre.subrange(
                                1,
                                elems_pre.len() as int,
                            ).push(elems@[elems@.len() - 1]));
                            let tail_pre = crate::ast::exprs_v(
                                elems_pre.subrange(1, elems_pre.len() as int),
                            );
                            let nv = expr_v(elems@[elems@.len() - 1]);
                            crate::ast::lemma_exprs_v_push(
                                elems_pre.subrange(1, elems_pre.len() as int),
                                elems@[elems@.len() - 1],
                            );
                            assert(tail_pre + (seq![nv] + spec_parse_list_rest(
                                self@,
                                bracket,
                                f as nat,
                            ).1->0) =~= tail_pre.push(nv) + spec_parse_list_rest(
                                self@,
                                bracket,
                                f as nat,
                            ).1->0);
                            assert(crate::ast::exprs_v(elems@) =~= seq![expr_v(elems@[0])]
                                + crate::ast::exprs_v(elems@.subrange(1, elems@.len() as int)));
                        }
                    },
                }
            } else {
                let closed2 = if bracket {
                    matches!(self.peek, Token::Rbracket)
                } else {
                    matches!(self.peek, Token::Rparen)
                };
                if closed2 {
                    self.next_token();
                    proof {
                        let tail = crate::ast::exprs_v(elems@.subrange(1, elems@.len() as int));
                        assert(tail + Seq::<ExprV>::empty() =~= tail);
                    }
                    return Some(elems);
                } else {
                    let m = if bracket {
                        make_expected("',' or ']'", &self.peek)
                    } else {
                        make_expected("',' or ')'", &self.peek)
                    };
                    self.push_error(m);
                    return None;
                }
            }
        }
    }

    /// A map literal `{ key: value, ... }`.
    #[verifier::rlimit(100)]
    fn parse_hash(&mut self, fuel: u64) -> (r: Option<Vec<(Literal, Expression)>>)
        requires
            old(self).wf(),
        ensures
            final(self).wf(),
            final(self)@ == spec_parse_hash(old(self)@, fuel as nat).0,
            opt_pairs_v(r) == spec_parse_hash(old(self)@, fuel as nat).1,
        decreases fuel,
    {
        if fuel == 0 {
            let m = fuel_msg();
            self.push_error(m);
            return None;
        }
        if matches!(self.peek, Token::Rbrace) {
            self.next_token();
            let r: Vec<(Literal, Expression)> = Vec::new();
            proof {
                assert(crate::ast::pairs_v(r@) =~= Seq::<(LitV, ExprV)>::empty());
            }
            return Some(r);
        }
        let ghost p0 = self@;
        let ghost f0 = (fuel - 1) as nat;
        let mut pairs: Vec<(Literal, Expression)> = Vec::new();
        let mut f = fuel - 1;
        proof {
            assert(crate::ast::pairs_v(pairs@) =~= Seq::<(LitV, ExprV)>::empty());
            match spec_parse_hash_rec(p0, f0).1 {
                Some(r) => {
                    assert(Seq::<(LitV, ExprV)>::empty() + r =~= r);
                },
                None => {},
            }
        }
        loop
            invariant
                self.wf(),
                fuel >= 1,
                f < fuel,
                !(old(self)@.peek is Rbrace),
                spec_parse_hash_rec(old(self)@, (fuel - 1) as nat).0 == spec_parse_hash_rec(
                    self@,
                    f as nat,
                ).0,
                (match spec_parse_hash_rec(self@, f as nat).1 {
                    Some(r) => spec_parse_hash_rec(old(self)@, (fuel - 1) as nat).1 == Some(
                        crate::ast::pairs_v(pairs@) + r,
                    ),
                    None => spec_parse_hash_rec(old(self)@, (fuel - 1) as nat).1 is None,
                }),
            decreases f,
        {
            if f == 0 {
                let m = fuel_msg();
                self.push_error(m);
                return None;
            }
            self.next_token();
            let key = match &self.current {
                Token::Int(i) => Some(Literal::IntLiteral(*i)),
                Token::String(s) => Some(Literal::StringLiteral(s.clone())),
                Token::Bool(b) => Some(Literal::BoolLiteral(*b)),
                _ => None,
            };
            let k = match key {
                None => {
                    let m = make_expected("a literal key", &self.current);
                    self.push_error(m);
                    return None;
                },
                Some(k) => k,
            };
            if !matches!(self.peek, Token::Colon) {
                let m = make_expected("':'", &self.peek);
                self.push_error(m);
                return None;
            }
            self.next_token();
            self.next_token();
            let val = match self.parse_expression(0, f - 1) {
                None => {
                    return None;
                },
                Some(v) => v,
            };
            if matches!(self.peek, Token::Comma) {
                let ghost pairs_pre = pairs@;
                let ghost kv = (crate::ast::lit_v(k), expr_v(val));
                proof {
                    crate::ast::lemma_pairs_v_push(pairs@, (k, val));
                }
                pairs.push((k, val));
                self.next_token();
                f = f - 1;
                proof {
                    match spec_parse_hash_rec(self@, f as nat).1 {
                        Some(rest) => {
                            assert(crate::ast::pairs_v(pairs_pre) + (seq![kv] + rest)
                                =~= crate::ast::pairs_v(pairs@) + rest);
                        },
                        None => {},
                    }
                }
            } else if matches!(self.peek, Token::Rbrace) {
                let ghost pairs_pre = pairs@;
                let ghost kv = (crate::ast::lit_v(k), expr_v(val));
                proof {
                    crate::ast::lemma_pairs_v_push(pairs@, (k, val));
                }
                pairs.push((k, val));
                self.next_token();
                proof {
                    assert(crate::ast::pairs_v(pairs_pre) + seq![kv] =~= crate::ast::pairs_v(
                        pairs@,
                    ));
                }
                return Some(pairs);
            } else {
                let m = make_expected("',' or '}'", &self.peek);
                self.push_error(m);
                return None;
            }
        }
    }
}

} // verus!
