//! The AST node model produced by parsing: a [`Program`] owns an ordered
//! sequence of [`Statement`]s, and statements own [`Expression`]s.
//!
//! Each node type has a mathematical mirror ([`StmtView`], [`ExprView`])
//! over `Seq<char>` names, which the parser's and evaluator's contracts are
//! stated over.
use crate::token::{Token, TokenView};
use std::rc::Rc;
use vstd::prelude::*;

verus! {

/// A whole source file: the top-level statements, in order.
#[derive(Debug)]
pub struct Program {
    pub statements: Vec<Statement>,
}

/// One statement; a thin wrapper around its tagged variant.
#[derive(Debug)]
pub struct Statement {
    pub statement_type: StatementType,
}

/// The tagged statement variants.
///
/// A function declaration's parameter list and body sit behind `Rc` so that
/// executing the declaration can register them in the function registry
/// without copying the subtree.
#[derive(Debug)]
pub enum StatementType {
    Declaration(Declaration),
    FunctionCall(String, Box<Vec<Expression>>),
    Assignment(Assignment),
    IfBlock(Box<Expression>, Box<Vec<Statement>>),
    IfElseBlock(Box<Expression>, Box<Vec<Statement>>, Box<Vec<Statement>>),
    FunctionDeclaration(String, Rc<Vec<String>>, Rc<Vec<Statement>>),
    Return(Option<Box<Expression>>),
    Print(Box<Expression>),
}

/// `let` binding: introduces `identif` in the current scope frame.
#[derive(Debug)]
pub struct Declaration {
    pub identif: String,
    pub value: Expression,
}

/// Rebinds `identif` in the current scope frame.
#[derive(Debug)]
pub struct Assignment {
    pub identif: String,
    pub value: Expression,
}

/// The tagged expression variants.
#[derive(Debug)]
pub enum ExpressionType {
    Literal(String),
    Variable(String),
    Binary(Box<Expression>, Token, Box<Expression>),
    Unary(Token, Box<Expression>),
    FunctionCall(String, Box<Vec<Expression>>),
}

/// One expression; a thin wrapper around its tagged variant.
#[derive(Debug)]
pub struct Expression {
    pub expression_type: ExpressionType,
}

/// Mathematical mirror of [`Expression`].
pub enum ExprView {
    Literal(Seq<char>),
    Variable(Seq<char>),
    Binary(Box<ExprView>, TokenView, Box<ExprView>),
    Unary(TokenView, Box<ExprView>),
    FunctionCall(Seq<char>, Seq<ExprView>),
}

/// Mathematical mirror of [`Statement`].
pub enum StmtView {
    Declaration { identif: Seq<char>, value: ExprView },
    FunctionCall(Seq<char>, Seq<ExprView>),
    Assignment { identif: Seq<char>, value: ExprView },
    IfBlock(ExprView, Seq<StmtView>),
    IfElseBlock(ExprView, Seq<StmtView>, Seq<StmtView>),
    FunctionDeclaration(Seq<char>, Seq<Seq<char>>, Seq<StmtView>),
    Return(Option<ExprView>),
    Print(ExprView),
}

pub open spec fn expr_view(e: Expression) -> ExprView
    decreases e,
{
    match e.expression_type {
        ExpressionType::Literal(s) => ExprView::Literal(s@),
        ExpressionType::Variable(s) => ExprView::Variable(s@),
        ExpressionType::Binary(l, op, r) => ExprView::Binary(
            Box::new(expr_view(*l)),
            op@,
            Box::new(expr_view(*r)),
        ),
        ExpressionType::Unary(op, x) => ExprView::Unary(op@, Box::new(expr_view(*x))),
        ExpressionType::FunctionCall(name, args) => ExprView::FunctionCall(
            name@,
            exprs_view(args@),
        ),
    }
}

pub open spec fn exprs_view(es: Seq<Expression>) -> Seq<ExprView>
    decreases es,
{
    if es.len() == 0 {
        Seq::empty()
    } else {
        seq![expr_view(es[0])] + exprs_view(es.subrange(1, es.len() as int))
    }
}

/// The views of a parameter-name list.
pub open spec fn names_view(ns: Seq<String>) -> Seq<Seq<char>> {
    Seq::new(ns.len(), |i: int| ns[i]@)
}

pub open spec fn stmt_view(s: Statement) -> StmtView
    decreases s,
{
    match s.statement_type {
        StatementType::Declaration(d) => StmtView::Declaration {
            identif: d.identif@,
            value: expr_view(d.value),
        },
        StatementType::FunctionCall(name, args) => StmtView::FunctionCall(
            name@,
            exprs_view(args@),
        ),
        StatementType::Assignment(a) => StmtView::Assignment {
            identif: a.identif@,
            value: expr_view(a.value),
        },
        StatementType::IfBlock(c, body) => StmtView::IfBlock(expr_view(*c), stmts_view(body@)),
        StatementType::IfElseBlock(c, t, e) => StmtView::IfElseBlock(
            expr_view(*c),
            stmts_view(t@),
            stmts_view(e@),
        ),
        StatementType::FunctionDeclaration(name, params, body) => StmtView::FunctionDeclaration(
            name@,
            names_view(params@),
            stmts_view(body@),
        ),
        StatementType::Return(oe) => StmtView::Return(
            match oe {
                Some(e) => Some(expr_view(*e)),
                None => None,
            },
        ),
        StatementType::Print(e) => StmtView::Print(expr_view(*e)),
    }
}

pub open spec fn stmts_view(ss: Seq<Statement>) -> Seq<StmtView>
    decreases ss,
{
    if ss.len() == 0 {
        Seq::empty()
    } else {
        seq![stmt_view(ss[0])] + stmts_view(ss.subrange(1, ss.len() as int))
    }
}

impl View for Expression {
    type V = ExprView;

    open spec fn view(&self) -> ExprView {
        expr_view(*self)
    }
}

impl View for Statement {
    type V = StmtView;

    open spec fn view(&self) -> StmtView {
        stmt_view(*self)
    }
}

impl View for Program {
    type V = Seq<StmtView>;

    open spec fn view(&self) -> Seq<StmtView> {
        stmts_view(self.statements@)
    }
}

/// Size of an expression mirror, for termination measures: every node
/// counts one, so a proper subterm is strictly smaller.
pub open spec fn expr_size(e: ExprView) -> nat
    decreases e,
{
    match e {
        ExprView::Literal(_) => 1,
        ExprView::Variable(_) => 1,
        ExprView::Binary(l, _, r) => 1 + expr_size(*l) + expr_size(*r),
        ExprView::Unary(_, x) => 1 + expr_size(*x),
        ExprView::FunctionCall(_, args) => 1 + exprs_size(args),
    }
}

pub open spec fn exprs_size(es: Seq<ExprView>) -> nat
    decreases es,
{
    if es.len() == 0 {
        0
    } else {
        1 + expr_size(es[0]) + exprs_size(es.subrange(1, es.len() as int))
    }
}

pub open spec fn stmt_size(s: StmtView) -> nat
    decreases s,
{
    match s {
        StmtView::Declaration { value, .. } => 1 + expr_size(value),
        StmtView::FunctionCall(_, args) => 1 + exprs_size(args),
        StmtView::Assignment { value, .. } => 1 + expr_size(value),
        StmtView::IfBlock(c, body) => 1 + expr_size(c) + stmts_size(body),
        StmtView::IfElseBlock(c, t, e) => 1 + expr_size(c) + stmts_size(t) + stmts_size(e),
        StmtView::FunctionDeclaration(_, _, _) => 1,
        StmtView::Return(oe) => match oe {
            Some(e) => 1 + expr_size(e),
            None => 1,
        },
        StmtView::Print(e) => 1 + expr_size(e),
    }
}

pub open spec fn stmts_size(ss: Seq<StmtView>) -> nat
    decreases ss,
{
    if ss.len() == 0 {
        0
    } else {
        1 + stmt_size(ss[0]) + stmts_size(ss.subrange(1, ss.len() as int))
    }
}

/// An element of a sequence contributes at most the whole sequence's size.
pub proof fn lemma_stmts_size_elem(ss: Seq<StmtView>, i: int)
    requires
        0 <= i < ss.len(),
    ensures
        stmt_size(ss[i]) < stmts_size(ss),
    decreases ss.len(),
{
    if i == 0 {
    } else {
        lemma_stmts_size_elem(ss.subrange(1, ss.len() as int), i - 1);
        assert(ss.subrange(1, ss.len() as int)[i - 1] == ss[i]);
    }
}

/// An element of an argument list contributes at most the whole list's size.
pub proof fn lemma_exprs_size_elem(es: Seq<ExprView>, i: int)
    requires
        0 <= i < es.len(),
    ensures
        expr_size(es[i]) < exprs_size(es),
    decreases es.len(),
{
    if i == 0 {
    } else {
        lemma_exprs_size_elem(es.subrange(1, es.len() as int), i - 1);
        assert(es.subrange(1, es.len() as int)[i - 1] == es[i]);
    }
}

/// `stmts_view` maps the sequence element by element.
pub proof fn lemma_stmts_view_index(ss: Seq<Statement>)
    ensures
        stmts_view(ss).len() == ss.len(),
        forall|i: int| 0 <= i < ss.len() ==> stmts_view(ss)[i] == stmt_view(ss[i]),
    decreases ss.len(),
{
    if ss.len() > 0 {
        let rest = ss.subrange(1, ss.len() as int);
        lemma_stmts_view_index(rest);
        assert forall|i: int| 0 <= i < ss.len() implies stmts_view(ss)[i] == stmt_view(ss[i]) by {
            if i > 0 {
                assert(stmts_view(ss)[i] == stmts_view(rest)[i - 1]);
                assert(rest[i - 1] == ss[i]);
            }
        }
    }
}

/// Pushing a statement pushes its view.
pub proof fn lemma_stmts_view_push(ss: Seq<Statement>, s: Statement)
    ensures
        stmts_view(ss.push(s)) == stmts_view(ss).push(stmt_view(s)),
{
    lemma_stmts_view_index(ss.push(s));
    lemma_stmts_view_index(ss);
    assert(stmts_view(ss.push(s)) =~= stmts_view(ss).push(stmt_view(s)));
}

/// Pushing an expression pushes its view.
pub proof fn lemma_exprs_view_push(es: Seq<Expression>, e: Expression)
    ensures
        exprs_view(es.push(e)) == exprs_view(es).push(expr_view(e)),
{
    lemma_exprs_view_index(es.push(e));
    lemma_exprs_view_index(es);
    assert(exprs_view(es.push(e)) =~= exprs_view(es).push(expr_view(e)));
}

/// Pushing a name pushes its view.
pub proof fn lemma_names_view_push(ns: Seq<String>, n: String)
    ensures
        names_view(ns.push(n)) == names_view(ns).push(n@),
{
    assert(names_view(ns.push(n)) =~= names_view(ns).push(n@));
}

/// `exprs_view` maps the sequence element by element.
pub proof fn lemma_exprs_view_index(es: Seq<Expression>)
    ensures
        exprs_view(es).len() == es.len(),
        forall|i: int| 0 <= i < es.len() ==> exprs_view(es)[i] == expr_view(es[i]),
    decreases es.len(),
{
    if es.len() > 0 {
        let rest = es.subrange(1, es.len() as int);
        lemma_exprs_view_index(rest);
        assert forall|i: int| 0 <= i < es.len() implies exprs_view(es)[i] == expr_view(es[i]) by {
            if i > 0 {
                assert(exprs_view(es)[i] == exprs_view(rest)[i - 1]);
                assert(rest[i - 1] == es[i]);
            }
        }
    }
}

} // verus!
