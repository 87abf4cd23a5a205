//! The abstract syntax tree: a program is an ordered sequence of statements,
//! and an expression is a tree.  Nodes are immutable once parsed.
//!
//! Beside the executable tree stands its mathematical model (`StmtV`,
//! `ExprV`, `LitV`), in which identifiers and strings are character
//! sequences; the parser's and the evaluator's contracts speak of the model.

use vstd::prelude::*;

verus! {

/// A parsed program: its statements in evaluation order.
pub type Program = Vec<Statement>;

/// A statement: a `let` binding, a `return`, or a bare expression.
#[derive(Debug, PartialEq)]
pub enum Statement {
    LetStmt(Ident, Expression),
    ReturnStmt(Expression),
    ExprStmt(Expression),
}

/// An expression tree node.
#[derive(Debug, PartialEq)]
pub enum Expression {
    IdentExpr(Ident),
    LitExpr(Literal),
    PrefixExpr(Prefix, Box<Expression>),
    InfixExpr(Infix, Box<Expression>, Box<Expression>),
    IfExpr { cond: Box<Expression>, consequence: Program, alternative: Option<Program> },
    FnExpr { params: Vec<Ident>, body: Program },
    CallExpr { function: Box<Expression>, arguments: Vec<Expression> },
    ArrayExpr(Vec<Expression>),
    HashExpr(Vec<(Literal, Expression)>),
    IndexExpr { array: Box<Expression>, index: Box<Expression> },
}

/// A literal: an integer, a boolean or a string.
#[derive(Debug, PartialEq)]
pub enum Literal {
    IntLiteral(i64),
    BoolLiteral(bool),
    StringLiteral(String),
}

/// An identifier.
#[derive(Debug, PartialEq, Eq)]
pub struct Ident(pub String);

/// A prefix operator.  The grammar produces only `!` and `-`; the plus
/// variant exists for programs built directly as trees and evaluates as
/// the identity on integers.
#[derive(Debug, Clone, Copy, PartialEq)]
pub enum Prefix {
    PrefixPlus,
    PrefixMinus,
    Not,
}

/// An infix operator.
#[derive(Debug, Clone, Copy, PartialEq)]
pub enum Infix {
    Plus,
    Minus,
    Divide,
    Multiply,
    Equal,
    NotEqual,
    GreaterThanEqual,
    LessThanEqual,
    GreaterThan,
    LessThan,
}

/// Operator binding strength, used only while parsing: a strict total order
/// over seven levels.
#[derive(Debug, Clone, Copy, PartialEq, PartialOrd)]
pub enum Precedence {
    PLowest,
    PEquals,
    PLessGreater,
    PSum,
    PProduct,
    PCall,
    PIndex,
}

/// The rank of a precedence level in the strict total order.
pub open spec fn prec_rank(p: Precedence) -> int {
    match p {
        Precedence::PLowest => 0,
        Precedence::PEquals => 1,
        Precedence::PLessGreater => 2,
        Precedence::PSum => 3,
        Precedence::PProduct => 4,
        Precedence::PCall => 5,
        Precedence::PIndex => 6,
    }
}

/// The model of a literal.
pub enum LitV {
    Int(i64),
    Bool(bool),
    Str(Seq<char>),
}

/// The model of a statement.
pub enum StmtV {
    Let(Seq<char>, ExprV),
    Return(ExprV),
    Expr(ExprV),
}

/// The model of an expression.
pub enum ExprV {
    Ident(Seq<char>),
    Lit(LitV),
    Prefix(Prefix, Box<ExprV>),
    Infix(Infix, Box<ExprV>, Box<ExprV>),
    If { cond: Box<ExprV>, consequence: Seq<StmtV>, alternative: Option<Seq<StmtV>> },
    Func { params: Seq<Seq<char>>, body: Seq<StmtV> },
    Call { function: Box<ExprV>, arguments: Seq<ExprV> },
    Array(Seq<ExprV>),
    Hash(Seq<(LitV, ExprV)>),
    Index(Box<ExprV>, Box<ExprV>),
}

/// The model of a literal node.
pub open spec fn lit_v(l: Literal) -> LitV {
    match l {
        Literal::IntLiteral(i) => LitV::Int(i),
        Literal::BoolLiteral(b) => LitV::Bool(b),
        Literal::StringLiteral(s) => LitV::Str(s@),
    }
}

/// The model of an identifier: its characters.
pub open spec fn ident_v(i: Ident) -> Seq<char> {
    i.0@
}

/// The models of a sequence of identifiers.
pub open spec fn idents_v(is: Seq<Ident>) -> Seq<Seq<char>> {
    is.map_values(|i: Ident| ident_v(i))
}

/// The model of an expression node.
pub open spec fn expr_v(e: Expression) -> ExprV
    decreases e,
{
    match e {
        Expression::IdentExpr(i) => ExprV::Ident(i.0@),
        Expression::LitExpr(l) => ExprV::Lit(lit_v(l)),
        Expression::PrefixExpr(op, inner) => ExprV::Prefix(op, Box::new(expr_v(*inner))),
        Expression::InfixExpr(op, l, r) => ExprV::Infix(
            op,
            Box::new(expr_v(*l)),
            Box::new(expr_v(*r)),
        ),
        Expression::IfExpr { cond, consequence, alternative } => ExprV::If {
            cond: Box::new(expr_v(*cond)),
            consequence: stmts_v(consequence@),
            alternative: match alternative {
                Some(a) => Some(stmts_v(a@)),
                None => None,
            },
        },
        Expression::FnExpr { params, body } => ExprV::Func {
            params: idents_v(params@),
            body: stmts_v(body@),
        },
        Expression::CallExpr { function, arguments } => ExprV::Call {
            function: Box::new(expr_v(*function)),
            arguments: exprs_v(arguments@),
        },
        Expression::ArrayExpr(es) => ExprV::Array(exprs_v(es@)),
        Expression::HashExpr(ps) => ExprV::Hash(pairs_v(ps@)),
        Expression::IndexExpr { array, index } => ExprV::Index(
            Box::new(expr_v(*array)),
            Box::new(expr_v(*index)),
        ),
    }
}

/// The model of a statement node.
pub open spec fn stmt_v(s: Statement) -> StmtV
    decreases s,
{
    match s {
        Statement::LetStmt(i, e) => StmtV::Let(i.0@, expr_v(e)),
        Statement::ReturnStmt(e) => StmtV::Return(expr_v(e)),
        Statement::ExprStmt(e) => StmtV::Expr(expr_v(e)),
    }
}

/// The models of a sequence of statements.
pub open spec fn stmts_v(ss: Seq<Statement>) -> Seq<StmtV>
    decreases ss,
{
    if ss.len() == 0 {
        Seq::empty()
    } else {
        seq![stmt_v(ss[0])] + stmts_v(ss.subrange(1, ss.len() as int))
    }
}

/// The models of a sequence of expressions.
pub open spec fn exprs_v(es: Seq<Expression>) -> Seq<ExprV>
    decreases es,
{
    if es.len() == 0 {
        Seq::empty()
    } else {
        seq![expr_v(es[0])] + exprs_v(es.subrange(1, es.len() as int))
    }
}

/// The models of a sequence of key/value pairs of a map literal.
pub open spec fn pairs_v(ps: Seq<(Literal, Expression)>) -> Seq<(LitV, ExprV)>
    decreases ps,
{
    if ps.len() == 0 {
        Seq::empty()
    } else {
        seq![(lit_v(ps[0].0), expr_v(ps[0].1))] + pairs_v(ps.subrange(1, ps.len() as int))
    }
}

/// `stmts_v` maps the model over the statements, element by element.
pub proof fn lemma_stmts_v_props(ss: Seq<Statement>)
    ensures
        stmts_v(ss).len() == ss.len(),
        forall|i: int| 0 <= i < ss.len() ==> #[trigger] stmts_v(ss)[i] == stmt_v(ss[i]),
    decreases ss,
{
    if ss.len() > 0 {
        lemma_stmts_v_props(ss.subrange(1, ss.len() as int));
    }
}

/// `exprs_v` maps the model over the expressions, element by element.
pub proof fn lemma_exprs_v_props(es: Seq<Expression>)
    ensures
        exprs_v(es).len() == es.len(),
        forall|i: int| 0 <= i < es.len() ==> #[trigger] exprs_v(es)[i] == expr_v(es[i]),
    decreases es,
{
    if es.len() > 0 {
        lemma_exprs_v_props(es.subrange(1, es.len() as int));
    }
}

/// `pairs_v` maps the model over the pairs, element by element.
pub proof fn lemma_pairs_v_props(ps: Seq<(Literal, Expression)>)
    ensures
        pairs_v(ps).len() == ps.len(),
        forall|i: int|
            0 <= i < ps.len() ==> #[trigger] pairs_v(ps)[i] == (lit_v(ps[i].0), expr_v(ps[i].1)),
    decreases ps,
{
    if ps.len() > 0 {
        lemma_pairs_v_props(ps.subrange(1, ps.len() as int));
    }
}

/// Appending a statement appends its model.
pub proof fn lemma_stmts_v_push(ss: Seq<Statement>, s: Statement)
    ensures
        stmts_v(ss.push(s)) == stmts_v(ss).push(stmt_v(s)),
{
    lemma_stmts_v_props(ss.push(s));
    lemma_stmts_v_props(ss);
    assert(stmts_v(ss.push(s)) =~= stmts_v(ss).push(stmt_v(s)));
}

/// Appending an expression appends its model.
pub proof fn lemma_exprs_v_push(es: Seq<Expression>, e: Expression)
    ensures
        exprs_v(es.push(e)) == exprs_v(es).push(expr_v(e)),
{
    lemma_exprs_v_props(es.push(e));
    lemma_exprs_v_props(es);
    assert(exprs_v(es.push(e)) =~= exprs_v(es).push(expr_v(e)));
}

/// Appending a key/value pair appends its model.
pub proof fn lemma_pairs_v_push(ps: Seq<(Literal, Expression)>, p: (Literal, Expression))
    ensures
        pairs_v(ps.push(p)) == pairs_v(ps).push((lit_v(p.0), expr_v(p.1))),
{
    lemma_pairs_v_props(ps.push(p));
    lemma_pairs_v_props(ps);
    assert(pairs_v(ps.push(p)) =~= pairs_v(ps).push((lit_v(p.0), expr_v(p.1))));
}

impl Clone for Ident {
    /// A clone carries the same characters.
    fn clone(&self) -> (r: Ident)
        ensures
            r == *self,
    {
        Ident(self.0.clone())
    }
}

impl Clone for Literal {
    /// A clone denotes the same literal.
    fn clone(&self) -> (r: Literal)
        ensures
            lit_v(r) == lit_v(*self),
    {
        match self {
            Literal::IntLiteral(i) => Literal::IntLiteral(*i),
            Literal::BoolLiteral(b) => Literal::BoolLiteral(*b),
            Literal::StringLiteral(s) => Literal::StringLiteral(s.clone()),
        }
    }
}

/// Deep-copies a sequence of identifiers.
pub fn clone_idents(is: &Vec<Ident>) -> (r: Vec<Ident>)
    ensures
        r@ == is@,
{
    let mut r: Vec<Ident> = Vec::new();
    let mut i: usize = 0;
    while i < is.len()
        invariant
            i <= is.len(),
            r@ == is@.subrange(0, i as int),
        decreases is.len() - i,
    {
        r.push(is[i].clone());
        i = i + 1;
        proof {
            assert(r@ =~= is@.subrange(0, i as int));
        }
    }
    proof {
        assert(r@ =~= is@);
    }
    r
}

/// Deep-copies an expression; the copy denotes the same model.
pub fn clone_expr(e: &Expression) -> (r: Expression)
    ensures
        expr_v(r) == expr_v(*e),
    decreases *e,
{
    match e {
        Expression::IdentExpr(i) => Expression::IdentExpr(i.clone()),
        Expression::LitExpr(l) => Expression::LitExpr(l.clone()),
        Expression::PrefixExpr(op, inner) => Expression::PrefixExpr(
            *op,
            Box::new(clone_expr(&**inner)),
        ),
        Expression::InfixExpr(op, l, r) => Expression::InfixExpr(
            *op,
            Box::new(clone_expr(&**l)),
            Box::new(clone_expr(&**r)),
        ),
        Expression::IfExpr { cond, consequence, alternative } => {
            let alt = match alternative {
                Some(a) => Some(clone_stmts(a)),
                None => None,
            };
            Expression::IfExpr {
                cond: Box::new(clone_expr(&**cond)),
                consequence: clone_stmts(consequence),
                alternative: alt,
            }
        },
        Expression::FnExpr { params, body } => Expression::FnExpr {
            params: clone_idents(params),
            body: clone_stmts(body),
        },
        Expression::CallExpr { function, arguments } => Expression::CallExpr {
            function: Box::new(clone_expr(&**function)),
            arguments: clone_exprs(arguments),
        },
        Expression::ArrayExpr(es) => Expression::ArrayExpr(clone_exprs(es)),
        Expression::HashExpr(ps) => Expression::HashExpr(clone_pairs(ps)),
        Expression::IndexExpr { array, index } => Expression::IndexExpr {
            array: Box::new(clone_expr(&**array)),
            index: Box::new(clone_expr(&**index)),
        },
    }
}

/// Deep-copies a statement; the copy denotes the same model.
pub fn clone_stmt(s: &Statement) -> (r: Statement)
    ensures
        stmt_v(r) == stmt_v(*s),
    decreases *s,
{
    match s {
        Statement::LetStmt(i, e) => Statement::LetStmt(i.clone(), clone_expr(e)),
        Statement::ReturnStmt(e) => Statement::ReturnStmt(clone_expr(e)),
        Statement::ExprStmt(e) => Statement::ExprStmt(clone_expr(e)),
    }
}

/// Deep-copies a sequence of statements; the copy denotes the same model.
pub fn clone_stmts(ss: &Vec<Statement>) -> (r: Vec<Statement>)
    ensures
        stmts_v(r@) == stmts_v(ss@),
    decreases *ss,
{
    let mut r: Vec<Statement> = Vec::new();
    let mut i: usize = 0;
    while i < ss.len()
        invariant
            i <= ss.len(),
            r@.len() == i,
            forall|j: int| 0 <= j < i ==> stmt_v(#[trigger] r@[j]) == stmt_v(ss@[j]),
        decreases ss.len() - i,
    {
        proof {
            vstd::std_specs::vec::axiom_vec_index_decreases(*ss, i as int);
        }
        r.push(clone_stmt(&ss[i]));
        i = i + 1;
    }
    proof {
        lemma_stmts_v_props(r@);
        lemma_stmts_v_props(ss@);
        assert(stmts_v(r@) =~= stmts_v(ss@));
    }
    r
}

/// Deep-copies a sequence of expressions; the copy denotes the same model.
pub fn clone_exprs(es: &Vec<Expression>) -> (r: Vec<Expression>)
    ensures
        exprs_v(r@) == exprs_v(es@),
    decreases *es,
{
    let mut r: Vec<Expression> = Vec::new();
    let mut i: usize = 0;
    while i < es.len()
        invariant
            i <= es.len(),
            r@.len() == i,
            forall|j: int| 0 <= j < i ==> expr_v(#[trigger] r@[j]) == expr_v(es@[j]),
        decreases es.len() - i,
    {
        proof {
            vstd::std_specs::vec::axiom_vec_index_decreases(*es, i as int);
        }
        r.push(clone_expr(&es[i]));
        i = i + 1;
    }
    proof {
        lemma_exprs_v_props(r@);
        lemma_exprs_v_props(es@);
        assert(exprs_v(r@) =~= exprs_v(es@));
    }
    r
}

/// Deep-copies the pairs of a map literal; the copy denotes the same model.
pub fn clone_pairs(ps: &Vec<(Literal, Expression)>) -> (r: Vec<(Literal, Expression)>)
    ensures
        pairs_v(r@) == pairs_v(ps@),
    decreases *ps,
{
    let mut r: Vec<(Literal, Expression)> = Vec::new();
    let mut i: usize = 0;
    while i < ps.len()
        invariant
            i <= ps.len(),
            r@.len() == i,
            forall|j: int|
                0 <= j < i ==> (lit_v(#[trigger] r@[j].0), expr_v(r@[j].1)) == (
                    lit_v(ps@[j].0),
                    expr_v(ps@[j].1),
                ),
        decreases ps.len() - i,
    {
        proof {
            vstd::std_specs::vec::axiom_vec_index_decreases(*ps, i as int);
        }
        let pair = &ps[i];
        r.push((pair.0.clone(), clone_expr(&pair.1)));
        i = i + 1;
    }
    proof {
        lemma_pairs_v_props(r@);
        lemma_pairs_v_props(ps@);
        assert(pairs_v(r@) =~= pairs_v(ps@));
    }
    r
}

impl Clone for Expression {
    /// A clone denotes the same model.
    fn clone(&self) -> (r: Expression)
        ensures
            expr_v(r) == expr_v(*self),
    {
        clone_expr(self)
    }
}

impl Clone for Statement {
    /// A clone denotes the same model.
    fn clone(&self) -> (r: Statement)
        ensures
            stmt_v(r) == stmt_v(*self),
    {
        clone_stmt(self)
    }
}

} // verus!
