//! The expression tree produced by the parser, its mathematical mirror,
//! and the canonical token rendering of a tree.

use vstd::prelude::*;
use crate::num::Num;
use crate::tokens::TokenV;

verus! {

/// A node of the expression tree. Statement nodes own their operand
/// sub-expressions; block nodes own their body sequence.
#[derive(Debug, PartialEq)]
pub enum Expression {
    Clear,
    Setpos(Box<Expression>, Box<Expression>),
    Penup,
    Pendown,
    Setcolor(Box<Expression>, Box<Expression>, Box<Expression>),
    Setpensize(Box<Expression>),
    Forward(Box<Expression>),
    Back(Box<Expression>),
    Right(Box<Expression>),
    Left(Box<Expression>),
    Arc(Box<Expression>, Box<Expression>),
    Circle(Box<Expression>),
    Repeat(Box<Expression>, Vec<Expression>),
    To(String, Vec<String>, Vec<Expression>),
    Call(String, Vec<Expression>),
    Number(Num),
    Var(String),
    If(Box<Expression>, Vec<Expression>),
    Condition(Box<Expression>, Box<Expression>, Box<Expression>),
    Less,
    Gtr,
    Eq,
    Neq,
    Math(Box<Expression>, Box<Expression>, Box<Expression>),
    Add,
    Sub,
    Mul,
    Div,
}

/// The mathematical image of an [`Expression`]: numbers as integers
/// (raw fixed-point units), names as character sequences.
pub ghost enum ExpV {
    Clear,
    Setpos(Box<ExpV>, Box<ExpV>),
    Penup,
    Pendown,
    Setcolor(Box<ExpV>, Box<ExpV>, Box<ExpV>),
    Setpensize(Box<ExpV>),
    Forward(Box<ExpV>),
    Back(Box<ExpV>),
    Right(Box<ExpV>),
    Left(Box<ExpV>),
    Arc(Box<ExpV>, Box<ExpV>),
    Circle(Box<ExpV>),
    Repeat(Box<ExpV>, Seq<ExpV>),
    To(Seq<char>, Seq<Seq<char>>, Seq<ExpV>),
    Call(Seq<char>, Seq<ExpV>),
    Number(int),
    Var(Seq<char>),
    If(Box<ExpV>, Seq<ExpV>),
    Condition(Box<ExpV>, Box<ExpV>, Box<ExpV>),
    Less,
    Gtr,
    Eq,
    Neq,
    Math(Box<ExpV>, Box<ExpV>, Box<ExpV>),
    Add,
    Sub,
    Mul,
    Div,
}

pub open spec fn strs_view(s: Seq<String>) -> Seq<Seq<char>> {
    s.map_values(|x: String| x@)
}

pub open spec fn exp_view(e: Expression) -> ExpV
    decreases e,
{
    match e {
        Expression::Clear => ExpV::Clear,
        Expression::Setpos(x, y) => ExpV::Setpos(
            Box::new(exp_view(*x)),
            Box::new(exp_view(*y)),
        ),
        Expression::Penup => ExpV::Penup,
        Expression::Pendown => ExpV::Pendown,
        Expression::Setcolor(r, g, b) => ExpV::Setcolor(
            Box::new(exp_view(*r)),
            Box::new(exp_view(*g)),
            Box::new(exp_view(*b)),
        ),
        Expression::Setpensize(x) => ExpV::Setpensize(Box::new(exp_view(*x))),
        Expression::Forward(x) => ExpV::Forward(Box::new(exp_view(*x))),
        Expression::Back(x) => ExpV::Back(Box::new(exp_view(*x))),
        Expression::Right(x) => ExpV::Right(Box::new(exp_view(*x))),
        Expression::Left(x) => ExpV::Left(Box::new(exp_view(*x))),
        Expression::Arc(x, y) => ExpV::Arc(Box::new(exp_view(*x)), Box::new(exp_view(*y))),
        Expression::Circle(x) => ExpV::Circle(Box::new(exp_view(*x))),
        Expression::Repeat(c, body) => ExpV::Repeat(Box::new(exp_view(*c)), exps_view(body@)),
        Expression::To(name, params, body) => ExpV::To(name@, strs_view(params@), exps_view(body@)),
        Expression::Call(name, args) => ExpV::Call(name@, exps_view(args@)),
        Expression::Number(n) => ExpV::Number(n@),
        Expression::Var(s) => ExpV::Var(s@),
        Expression::If(c, body) => ExpV::If(Box::new(exp_view(*c)), exps_view(body@)),
        Expression::Condition(l, op, r) => ExpV::Condition(
            Box::new(exp_view(*l)),
            Box::new(exp_view(*op)),
            Box::new(exp_view(*r)),
        ),
        Expression::Less => ExpV::Less,
        Expression::Gtr => ExpV::Gtr,
        Expression::Eq => ExpV::Eq,
        Expression::Neq => ExpV::Neq,
        Expression::Math(l, op, r) => ExpV::Math(
            Box::new(exp_view(*l)),
            Box::new(exp_view(*op)),
            Box::new(exp_view(*r)),
        ),
        Expression::Add => ExpV::Add,
        Expression::Sub => ExpV::Sub,
        Expression::Mul => ExpV::Mul,
        Expression::Div => ExpV::Div,
    }
}

pub open spec fn exps_view(s: Seq<Expression>) -> Seq<ExpV>
    decreases s,
{
    if s.len() == 0 {
        Seq::empty()
    } else {
        seq![exp_view(s[0])] + exps_view(s.drop_first())
    }
}

pub proof fn lemma_exps_view(s: Seq<Expression>)
    ensures
        exps_view(s).len() == s.len(),
        forall|i: int| 0 <= i < s.len() ==> exps_view(s)[i] == exp_view(s[i]),
    decreases s,
{
    if s.len() > 0 {
        lemma_exps_view(s.drop_first());
    }
}

pub proof fn lemma_exps_view_push(s: Seq<Expression>, e: Expression)
    ensures
        exps_view(s.push(e)) == exps_view(s).push(exp_view(e)),
    decreases s,
{
    lemma_exps_view(s.push(e));
    lemma_exps_view(s);
    assert(exps_view(s.push(e)) =~= exps_view(s).push(exp_view(e)));
}

/// Duplicate an expression tree (the duplicate has the original's image).
pub fn exp_dup(e: &Expression) -> (r: Expression)
    ensures
        exp_view(r) == exp_view(*e),
    decreases *e,
{
    match e {
        Expression::Clear => Expression::Clear,
        Expression::Setpos(x, y) => Expression::Setpos(
            Box::new(exp_dup(x)),
            Box::new(exp_dup(y)),
        ),
        Expression::Penup => Expression::Penup,
        Expression::Pendown => Expression::Pendown,
        Expression::Setcolor(r0, g, b) => Expression::Setcolor(
            Box::new(exp_dup(r0)),
            Box::new(exp_dup(g)),
            Box::new(exp_dup(b)),
        ),
        Expression::Setpensize(x) => Expression::Setpensize(Box::new(exp_dup(x))),
        Expression::Forward(x) => Expression::Forward(Box::new(exp_dup(x))),
        Expression::Back(x) => Expression::Back(Box::new(exp_dup(x))),
        Expression::Right(x) => Expression::Right(Box::new(exp_dup(x))),
        Expression::Left(x) => Expression::Left(Box::new(exp_dup(x))),
        Expression::Arc(x, y) => Expression::Arc(Box::new(exp_dup(x)), Box::new(exp_dup(y))),
        Expression::Circle(x) => Expression::Circle(Box::new(exp_dup(x))),
        Expression::Repeat(c, body) => Expression::Repeat(Box::new(exp_dup(c)), exps_dup(body)),
        Expression::To(name, params, body) => Expression::To(
            name.clone(),
            strs_dup(params),
            exps_dup(body),
        ),
        Expression::Call(name, args) => Expression::Call(name.clone(), exps_dup(args)),
        Expression::Number(n) => Expression::Number(*n),
        Expression::Var(s) => Expression::Var(s.clone()),
        Expression::If(c, body) => Expression::If(Box::new(exp_dup(c)), exps_dup(body)),
        Expression::Condition(l, op, r0) => Expression::Condition(
            Box::new(exp_dup(l)),
            Box::new(exp_dup(op)),
            Box::new(exp_dup(r0)),
        ),
        Expression::Less => Expression::Less,
        Expression::Gtr => Expression::Gtr,
        Expression::Eq => Expression::Eq,
        Expression::Neq => Expression::Neq,
        Expression::Math(l, op, r0) => Expression::Math(
            Box::new(exp_dup(l)),
            Box::new(exp_dup(op)),
            Box::new(exp_dup(r0)),
        ),
        Expression::Add => Expression::Add,
        Expression::Sub => Expression::Sub,
        Expression::Mul => Expression::Mul,
        Expression::Div => Expression::Div,
    }
}

/// Duplicate a sequence of expressions.
pub fn exps_dup(v: &Vec<Expression>) -> (r: Vec<Expression>)
    ensures
        exps_view(r@) == exps_view(v@),
    decreases *v,
{
    let mut r: Vec<Expression> = Vec::new();
    let mut i: usize = 0;
    while i < v.len()
        invariant
            i <= v@.len(),
            exps_view(r@) == exps_view(v@.take(i as int)),
        decreases v@.len() - i,
    {
        proof {
            assert(decreases_to!(*v => v@));
            assert(decreases_to!(v@ => v@[i as int]));
        }
        let d = exp_dup(&v[i]);
        proof {
            lemma_exps_view_push(r@, d);
            lemma_exps_view_push(v@.take(i as int), v@[i as int]);
            assert(v@.take(i as int).push(v@[i as int]) =~= v@.take(i + 1));
        }
        r.push(d);
        i += 1;
    }
    proof {
        assert(v@.take(v@.len() as int) =~= v@);
    }
    r
}

/// Duplicate a sequence of names.
pub fn strs_dup(v: &Vec<String>) -> (r: Vec<String>)
    ensures
        r@ == v@,
{
    let mut r: Vec<String> = Vec::new();
    let mut i: usize = 0;
    while i < v.len()
        invariant
            i <= v@.len(),
            r@ == v@.take(i as int),
        decreases v@.len() - i,
    {
        r.push(v[i].clone());
        proof {
            assert(v@.take(i as int).push(v@[i as int]) =~= v@.take(i + 1));
        }
        i += 1;
    }
    proof {
        assert(v@.take(v@.len() as int) =~= v@);
    }
    r
}

// ---------------------------------------------------------------------------
// Canonical rendering back to tokens
// ---------------------------------------------------------------------------

pub open spec fn vars_tokens(ps: Seq<Seq<char>>) -> Seq<TokenV>
    decreases ps.len(),
{
    if ps.len() == 0 {
        Seq::empty()
    } else {
        seq![TokenV::Var(ps[0])] + vars_tokens(ps.drop_first())
    }
}

/// The canonical token stream of one expression.
pub open spec fn unparse_exp(e: ExpV) -> Seq<TokenV>
    decreases e,
{
    match e {
        ExpV::Clear => seq![TokenV::Clear],
        ExpV::Setpos(x, y) => seq![TokenV::Setpos] + unparse_exp(*x) + unparse_exp(*y),
        ExpV::Penup => seq![TokenV::Penup],
        ExpV::Pendown => seq![TokenV::Pendown],
        ExpV::Setcolor(r, g, b) => seq![TokenV::Setcolor] + unparse_exp(*r) + unparse_exp(*g)
            + unparse_exp(*b),
        ExpV::Setpensize(x) => seq![TokenV::Setpensize] + unparse_exp(*x),
        ExpV::Forward(x) => seq![TokenV::Forward] + unparse_exp(*x),
        ExpV::Back(x) => seq![TokenV::Back] + unparse_exp(*x),
        ExpV::Right(x) => seq![TokenV::Right] + unparse_exp(*x),
        ExpV::Left(x) => seq![TokenV::Left] + unparse_exp(*x),
        ExpV::Arc(x, y) => seq![TokenV::Arc] + unparse_exp(*x) + unparse_exp(*y),
        ExpV::Circle(x) => seq![TokenV::Circle] + unparse_exp(*x),
        ExpV::Repeat(c, body) => seq![TokenV::Repeat] + unparse_exp(*c) + seq![TokenV::LBracket]
            + unparse_seq(body) + seq![TokenV::RBracket],
        ExpV::To(name, params, body) => seq![TokenV::To, TokenV::Ident(name)] + vars_tokens(params)
            + unparse_seq(body) + seq![TokenV::End],
        ExpV::Call(name, args) => seq![TokenV::Ident(name)] + unparse_seq(args),
        ExpV::Number(n) => seq![TokenV::Number(n)],
        ExpV::Var(s) => seq![TokenV::Var(s)],
        ExpV::If(c, body) => seq![TokenV::If] + unparse_exp(*c) + seq![TokenV::LBracket]
            + unparse_seq(body) + seq![TokenV::RBracket],
        ExpV::Condition(l, op, r) => unparse_exp(*l) + unparse_exp(*op) + unparse_exp(*r),
        ExpV::Less => seq![TokenV::Less],
        ExpV::Gtr => seq![TokenV::Gtr],
        ExpV::Eq => seq![TokenV::Eq],
        ExpV::Neq => seq![TokenV::Neq],
        ExpV::Math(l, op, r) => unparse_exp(*l) + unparse_exp(*op) + unparse_exp(*r),
        ExpV::Add => seq![TokenV::Add],
        ExpV::Sub => seq![TokenV::Sub],
        ExpV::Mul => seq![TokenV::Mul],
        ExpV::Div => seq![TokenV::Div],
    }
}

/// The canonical token stream of a statement sequence.
pub open spec fn unparse_seq(s: Seq<ExpV>) -> Seq<TokenV>
    decreases s,
{
    if s.len() == 0 {
        Seq::empty()
    } else {
        unparse_exp(s[0]) + unparse_seq(s.drop_first())
    }
}

} // verus!
