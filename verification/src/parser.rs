//! The parser: recursive descent over the token stream, one token of
//! lookahead for most productions and two to tell a plain value from a
//! one-level binary arithmetic expression. Block constructs push an
//! expected closing marker onto an explicit stack; a closing token pops it
//! and must match. The whole parse is specified by the spec-level parser
//! (`spec_build` and friends): the executable parser is proved to return
//! exactly its tree, or exactly its error.

use vstd::prelude::*;
use vstd::string::StringExecFns;
use crate::ast::{exp_view, exps_view, lemma_exps_view, Expression, ExpV};
use crate::error::{err_matches, ErrV, LogoError};
use crate::tokens::{spec_tokenize, token_view, tokenize, tokens_view, Token, TokenV};

verus! {

/// The lowercased image of a text, as `str::to_lowercase` computes it.
pub uninterp spec fn lower_of(s: Seq<char>) -> Seq<char>;

/// Relies on str::to_lowercase: the result is a function of the characters
/// alone (no locale is consulted).
#[verifier::external_body]
fn lowercase(s: &str) -> (r: String)
    ensures
        r@ == lower_of(s@),
{
    s.to_lowercase()
}

// ---------------------------------------------------------------------------
// Spec-level parser
// ---------------------------------------------------------------------------

/// One parsed item and the position after it.
pub ghost enum PE {
    Got(ExpV, nat),
    Fail(ErrV, nat),
}

/// A parsed name and the position after it.
pub ghost enum PN {
    Got(Seq<char>, nat),
    Fail(ErrV, nat),
}

/// A parsed argument list and the position after it.
pub ghost enum PA {
    Got(Seq<ExpV>, nat),
    Fail(ErrV, nat),
}

/// A parsed statement list: the trees, the position reached, and the marker
/// stack as it stands; errors also carry position and stack, since the
/// caller's bracket check still reads them.
pub ghost enum PS {
    Done(Seq<ExpV>, nat, Seq<TokenV>),
    Bad(ErrV, nat, Seq<TokenV>),
}

/// One step of a statement parse.
pub ghost enum StepR {
    Exp(ExpV, nat),
    ExpStk(ExpV, nat, Seq<TokenV>),
    Closed(nat, Seq<TokenV>),
    Fail(ErrV, nat, Seq<TokenV>),
}

/// The diagnostic for a closing token whose matching opener is missing.
pub open spec fn opener_msg(open: TokenV) -> Seq<char> {
    if open is To {
        "Expected opening token 'To' before 'End'."@
    } else {
        "Expected opening token 'LBracket' before 'RBracket'."@
    }
}

/// Position just past `pos`, clamped to the end of the stream.
pub open spec fn np(t: Seq<TokenV>, pos: nat) -> nat {
    if pos + 1 <= t.len() {
        pos + 1
    } else {
        t.len()
    }
}

/// A plain value: a numeric literal or a variable reference.
pub open spec fn spec_var(t: Seq<TokenV>, pos: nat) -> PE {
    if pos < t.len() && t[pos as int] is Number {
        PE::Got(ExpV::Number(t[pos as int]->Number_0), pos + 1)
    } else if pos < t.len() && t[pos as int] is Var {
        PE::Got(ExpV::Var(t[pos as int]->Var_0), pos + 1)
    } else {
        PE::Fail(ErrV::Syntax("no such variable"@, t.skip(np(t, pos) as int)), np(t, pos))
    }
}

pub open spec fn math_op(t: TokenV) -> Option<ExpV> {
    match t {
        TokenV::Add => Some(ExpV::Add),
        TokenV::Sub => Some(ExpV::Sub),
        TokenV::Mul => Some(ExpV::Mul),
        TokenV::Div => Some(ExpV::Div),
        _ => None,
    }
}

/// A value, or one level of binary arithmetic when an operator follows.
pub open spec fn spec_arg(t: Seq<TokenV>, pos: nat) -> PE {
    if pos + 1 < t.len() && math_op(t[pos + 1 as int]) is Some {
        let opv = math_op(t[pos + 1 as int])->0;
        match spec_var(t, pos) {
            PE::Fail(e, pc) => PE::Fail(e, pc),
            PE::Got(l, p1) => match spec_var(t, p1 + 1) {
                PE::Fail(e, pc) => PE::Fail(e, pc),
                PE::Got(r, p2) => PE::Got(
                    ExpV::Math(Box::new(l), Box::new(opv), Box::new(r)),
                    p2,
                ),
            },
        }
    } else {
        spec_var(t, pos)
    }
}

/// A comparison operator.
pub open spec fn spec_logical(t: Seq<TokenV>, pos: nat) -> PE {
    if pos < t.len() && t[pos as int] is Less {
        PE::Got(ExpV::Less, pos + 1)
    } else if pos < t.len() && t[pos as int] is Gtr {
        PE::Got(ExpV::Gtr, pos + 1)
    } else if pos < t.len() && t[pos as int] is Eq {
        PE::Got(ExpV::Eq, pos + 1)
    } else if pos < t.len() && t[pos as int] is Neq {
        PE::Got(ExpV::Neq, pos + 1)
    } else {
        PE::Fail(
            ErrV::Syntax("expected logical operator"@, t.skip(np(t, pos) as int)),
            np(t, pos),
        )
    }
}

/// A comparison: value, operator, value.
pub open spec fn spec_condition(t: Seq<TokenV>, pos: nat) -> PE {
    match spec_arg(t, pos) {
        PE::Fail(e, pc) => PE::Fail(e, pc),
        PE::Got(l, p1) => match spec_logical(t, p1) {
            PE::Fail(e, pc) => PE::Fail(e, pc),
            PE::Got(op, p2) => match spec_arg(t, p2) {
                PE::Fail(e, pc) => PE::Fail(e, pc),
                PE::Got(r, p3) => PE::Got(
                    ExpV::Condition(Box::new(l), Box::new(op), Box::new(r)),
                    p3,
                ),
            },
        },
    }
}

/// A procedure name.
pub open spec fn spec_name(t: Seq<TokenV>, pos: nat) -> PN {
    if pos < t.len() && t[pos as int] is Ident {
        PN::Got(t[pos as int]->Ident_0, pos + 1)
    } else {
        PN::Fail(ErrV::Syntax("expected identifier"@, t.skip(np(t, pos) as int)), np(t, pos))
    }
}

/// Parameter names of a definition: the run of variable tokens.
pub open spec fn spec_params(t: Seq<TokenV>, pos: nat) -> (Seq<Seq<char>>, nat)
    decreases t.len() - pos,
{
    if pos < t.len() && t[pos as int] is Var {
        let r = spec_params(t, pos + 1);
        (seq![t[pos as int]->Var_0] + r.0, r.1)
    } else {
        (Seq::empty(), pos)
    }
}

/// Call-site arguments: consumed greedily while the next token looks like
/// a value.
pub open spec fn spec_call_args(t: Seq<TokenV>, pos: nat) -> PA
    decreases t.len() - pos,
{
    if pos < t.len() && (t[pos as int] is Var || t[pos as int] is Number) {
        match spec_arg(t, pos) {
            PE::Fail(e, pc) => PA::Fail(e, pc),
            PE::Got(a, p1) => {
                let p2 = if p1 > pos {
                    p1
                } else {
                    (pos + 1) as nat
                };
                match spec_call_args(t, p2) {
                    PA::Fail(e, pc) => PA::Fail(e, pc),
                    PA::Got(rest, p3) => PA::Got(seq![a] + rest, p3),
                }
            },
        }
    } else {
        PA::Got(Seq::empty(), pos)
    }
}

/// The three color channels of a color statement.
pub open spec fn spec_set_color(t: Seq<TokenV>, pos: nat) -> PE {
    match spec_arg(t, pos) {
        PE::Fail(e, pc) => PE::Fail(e, pc),
        PE::Got(r, p1) => match spec_arg(t, p1) {
            PE::Fail(e, pc) => PE::Fail(e, pc),
            PE::Got(g, p2) => match spec_arg(t, p2) {
                PE::Fail(e, pc) => PE::Fail(e, pc),
                PE::Got(b, p3) => PE::Got(
                    ExpV::Setcolor(Box::new(r), Box::new(g), Box::new(b)),
                    p3,
                ),
            },
        },
    }
}

pub proof fn lemma_spec_params(t: Seq<TokenV>, pos: nat)
    requires
        pos <= t.len(),
    ensures
        pos <= spec_params(t, pos).1 <= t.len(),
    decreases t.len() - pos,
{
    if pos < t.len() && t[pos as int] is Var {
        lemma_spec_params(t, pos + 1);
    }
}

/// Clamp a continuation position so that it strictly advances and stays
/// within the stream.
pub open spec fn adv(t: Seq<TokenV>, lo: nat, p: nat) -> nat {
    let q = if p > lo {
        p
    } else {
        (lo + 1) as nat
    };
    if q <= t.len() {
        q
    } else {
        t.len()
    }
}

/// The rest of a repetition statement, after its keyword: count, an
/// opening bracket, then the body until the matching closing bracket.
pub open spec fn spec_repeat_b(t: Seq<TokenV>, pos: nat, stk: Seq<TokenV>) -> StepR
    decreases t.len() - pos, 1nat,
{
    match spec_arg(t, pos) {
        PE::Fail(e, pc) => StepR::Fail(e, pc, stk),
        PE::Got(c, p1) => {
            let stk1 = stk.push(TokenV::LBracket);
            if p1 < t.len() && t[p1 as int] is LBracket {
                match spec_build(t, p1 + 1, stk1) {
                    PS::Bad(e, p2, s2) => StepR::Fail(e, p2, s2),
                    PS::Done(body, p2, s2) => StepR::ExpStk(
                        ExpV::Repeat(Box::new(c), body),
                        p2,
                        s2,
                    ),
                }
            } else {
                StepR::Fail(
                    ErrV::Syntax("expected '['"@, t.skip(np(t, p1) as int)),
                    np(t, p1),
                    stk1,
                )
            }
        },
    }
}

/// The rest of a conditional statement, after its keyword.
pub open spec fn spec_if_b(t: Seq<TokenV>, pos: nat, stk: Seq<TokenV>) -> StepR
    decreases t.len() - pos, 1nat,
{
    match spec_condition(t, pos) {
        PE::Fail(e, pc) => StepR::Fail(e, pc, stk),
        PE::Got(c, p1) => {
            let stk1 = stk.push(TokenV::LBracket);
            if p1 < t.len() && t[p1 as int] is LBracket {
                match spec_build(t, p1 + 1, stk1) {
                    PS::Bad(e, p2, s2) => StepR::Fail(e, p2, s2),
                    PS::Done(body, p2, s2) => StepR::ExpStk(ExpV::If(Box::new(c), body), p2, s2),
                }
            } else {
                StepR::Fail(
                    ErrV::Syntax("expected '['"@, t.skip(np(t, p1) as int)),
                    np(t, p1),
                    stk1,
                )
            }
        },
    }
}

/// The rest of a definition, after its keyword: name, parameter names,
/// then the body until the matching end.
pub open spec fn spec_to_b(t: Seq<TokenV>, pos: nat, stk: Seq<TokenV>) -> StepR
    decreases t.len() - pos, 1nat,
    via spec_to_b_dec
{
    match spec_name(t, pos) {
        PN::Fail(e, pc) => StepR::Fail(e, pc, stk),
        PN::Got(nm, p1) => {
            let pr = spec_params(t, p1);
            let stk1 = stk.push(TokenV::To);
            match spec_build(t, pr.1, stk1) {
                PS::Bad(e, p2, s2) => StepR::Fail(e, p2, s2),
                PS::Done(body, p2, s2) => StepR::ExpStk(ExpV::To(nm, pr.0, body), p2, s2),
            }
        },
    }
}

#[via_fn]
proof fn spec_to_b_dec(t: Seq<TokenV>, pos: nat, stk: Seq<TokenV>) {
    if pos < t.len() && t[pos as int] is Ident {
        lemma_spec_params(t, pos + 1);
    }
}

/// Parse one statement at `pos` (which must be in range).
pub open spec fn spec_stmt(t: Seq<TokenV>, pos: nat, stk: Seq<TokenV>) -> StepR
    decreases t.len() - pos, 0nat,
{
    if pos >= t.len() {
        StepR::Fail(ErrV::Syntax("unexpected token"@, t.skip(t.len() as int)), pos, stk)
    } else {
        match t[pos as int] {
        TokenV::Clear => StepR::Exp(ExpV::Clear, pos + 1),
        TokenV::Penup => StepR::Exp(ExpV::Penup, pos + 1),
        TokenV::Pendown => StepR::Exp(ExpV::Pendown, pos + 1),
        TokenV::Setpos => match spec_arg(t, pos + 1) {
            PE::Fail(e, pc) => StepR::Fail(e, pc, stk),
            PE::Got(x, p1) => match spec_arg(t, p1) {
                PE::Fail(e, pc) => StepR::Fail(e, pc, stk),
                PE::Got(y, p2) => StepR::Exp(ExpV::Setpos(Box::new(x), Box::new(y)), p2),
            },
        },
        TokenV::Setcolor => match spec_set_color(t, pos + 1) {
            PE::Fail(e, pc) => StepR::Fail(e, pc, stk),
            PE::Got(e, p1) => StepR::Exp(e, p1),
        },
        TokenV::Setpensize => match spec_arg(t, pos + 1) {
            PE::Fail(e, pc) => StepR::Fail(e, pc, stk),
            PE::Got(x, p1) => StepR::Exp(ExpV::Setpensize(Box::new(x)), p1),
        },
        TokenV::Forward => match spec_arg(t, pos + 1) {
            PE::Fail(e, pc) => StepR::Fail(e, pc, stk),
            PE::Got(x, p1) => StepR::Exp(ExpV::Forward(Box::new(x)), p1),
        },
        TokenV::Back => match spec_arg(t, pos + 1) {
            PE::Fail(e, pc) => StepR::Fail(e, pc, stk),
            PE::Got(x, p1) => StepR::Exp(ExpV::Back(Box::new(x)), p1),
        },
        TokenV::Right => match spec_arg(t, pos + 1) {
            PE::Fail(e, pc) => StepR::Fail(e, pc, stk),
            PE::Got(x, p1) => StepR::Exp(ExpV::Right(Box::new(x)), p1),
        },
        TokenV::Left => match spec_arg(t, pos + 1) {
            PE::Fail(e, pc) => StepR::Fail(e, pc, stk),
            PE::Got(x, p1) => StepR::Exp(ExpV::Left(Box::new(x)), p1),
        },
        TokenV::Arc => match spec_arg(t, pos + 1) {
            PE::Fail(e, pc) => StepR::Fail(e, pc, stk),
            PE::Got(x, p1) => match spec_arg(t, p1) {
                PE::Fail(e, pc) => StepR::Fail(e, pc, stk),
                PE::Got(y, p2) => StepR::Exp(ExpV::Arc(Box::new(x), Box::new(y)), p2),
            },
        },
        TokenV::Circle => match spec_arg(t, pos + 1) {
            PE::Fail(e, pc) => StepR::Fail(e, pc, stk),
            PE::Got(x, p1) => StepR::Exp(ExpV::Circle(Box::new(x)), p1),
        },
        TokenV::Repeat => spec_repeat_b(t, (pos + 1) as nat, stk),
        TokenV::If => spec_if_b(t, (pos + 1) as nat, stk),
        TokenV::To => spec_to_b(t, (pos + 1) as nat, stk),
        TokenV::Ident(x) => match spec_call_args(t, pos + 1) {
            PA::Fail(e, pc) => StepR::Fail(e, pc, stk),
            PA::Got(args, p1) => StepR::Exp(ExpV::Call(x, args), p1),
        },
        TokenV::RBracket => {
            if stk.len() > 0 && stk.last() is LBracket {
                StepR::Closed(pos + 1, stk.drop_last())
            } else if stk.len() > 0 {
                StepR::Fail(
                    ErrV::Syntax(opener_msg(TokenV::LBracket), stk.drop_last()),
                    pos + 1,
                    stk.drop_last(),
                )
            } else {
                StepR::Fail(ErrV::Syntax(opener_msg(TokenV::LBracket), stk), pos + 1, stk)
            }
        },
        TokenV::End => {
            if stk.len() > 0 && stk.last() is To {
                StepR::Closed(pos + 1, stk.drop_last())
            } else if stk.len() > 0 {
                StepR::Fail(
                    ErrV::Syntax(opener_msg(TokenV::To), stk.drop_last()),
                    pos + 1,
                    stk.drop_last(),
                )
            } else {
                StepR::Fail(ErrV::Syntax(opener_msg(TokenV::To), stk), pos + 1, stk)
            }
        },
            _ => StepR::Fail(
                ErrV::Syntax("unexpected token"@, t.skip((pos + 1) as int)),
                pos + 1,
                stk,
            ),
        }
    }
}

/// Parse a statement sequence from `pos` until the stream ends or a
/// matching closing token is consumed.
pub open spec fn spec_build(t: Seq<TokenV>, pos: nat, stk: Seq<TokenV>) -> PS
    decreases t.len() - pos, 1nat,
{
    if pos >= t.len() {
        PS::Done(Seq::empty(), pos, stk)
    } else {
        match spec_stmt(t, pos, stk) {
            StepR::Fail(e, p, s) => PS::Bad(e, p, s),
            StepR::Closed(p, s) => PS::Done(Seq::empty(), p, s),
            StepR::Exp(e, p) => match spec_build(t, adv(t, pos, p), stk) {
                PS::Bad(e2, p2, s2) => PS::Bad(e2, p2, s2),
                PS::Done(es, p2, s2) => PS::Done(seq![e] + es, p2, s2),
            },
            StepR::ExpStk(e, p, s1) => match spec_build(t, adv(t, pos, p), s1) {
                PS::Bad(e2, p2, s2) => PS::Bad(e2, p2, s2),
                PS::Done(es, p2, s2) => PS::Done(seq![e] + es, p2, s2),
            },
        }
    }
}

/// The whole parse: build from the start, then reject a dangling block or
/// an unterminated definition, whichever marker is left on top.
pub open spec fn spec_to_ast(t: Seq<TokenV>) -> Result<Seq<ExpV>, ErrV> {
    match spec_build(t, 0, Seq::empty()) {
        PS::Done(es, p, stk) => {
            if stk.len() > 0 && stk.last() is LBracket {
                Err(ErrV::Syntax("Expected closing token ']'."@, t.skip(p as int)))
            } else if stk.len() > 0 && stk.last() is To {
                Err(ErrV::Syntax("Expected closing token 'end'."@, t.skip(p as int)))
            } else {
                Ok(es)
            }
        },
        PS::Bad(e, p, stk) => {
            if stk.len() > 0 && stk.last() is LBracket {
                Err(ErrV::Syntax("Expected closing token ']'."@, t.skip(p as int)))
            } else if stk.len() > 0 && stk.last() is To {
                Err(ErrV::Syntax("Expected closing token 'end'."@, t.skip(p as int)))
            } else {
                Err(e)
            }
        },
    }
}

/// The whole front end: lowercase, tokenize, parse.
pub open spec fn spec_parse(s: Seq<char>) -> Result<Seq<ExpV>, ErrV> {
    spec_to_ast(spec_tokenize(lower_of(s)))
}

// ---------------------------------------------------------------------------
// Executable parser
// ---------------------------------------------------------------------------

/// Duplicate a token (the duplicate has the original's image).
fn token_dup(t: &Token) -> (r: Token)
    ensures
        token_view(r) == token_view(*t),
{
    match t {
        Token::Clear => Token::Clear,
        Token::Setpos => Token::Setpos,
        Token::Penup => Token::Penup,
        Token::Pendown => Token::Pendown,
        Token::Setcolor => Token::Setcolor,
        Token::Setpensize => Token::Setpensize,
        Token::Forward => Token::Forward,
        Token::Back => Token::Back,
        Token::Right => Token::Right,
        Token::Left => Token::Left,
        Token::Arc => Token::Arc,
        Token::Circle => Token::Circle,
        Token::Repeat => Token::Repeat,
        Token::LBracket => Token::LBracket,
        Token::RBracket => Token::RBracket,
        Token::To => Token::To,
        Token::End => Token::End,
        Token::Number(n) => Token::Number(*n),
        Token::Ident(x) => Token::Ident(x.clone()),
        Token::Var(x) => Token::Var(x.clone()),
        Token::If => Token::If,
        Token::Gtr => Token::Gtr,
        Token::Less => Token::Less,
        Token::Eq => Token::Eq,
        Token::Neq => Token::Neq,
        Token::Add => Token::Add,
        Token::Sub => Token::Sub,
        Token::Mul => Token::Mul,
        Token::Div => Token::Div,
    }
}

/// The unconsumed tokens from `from` on, for a diagnostic payload.
fn tail_tokens(tokens: &Vec<Token>, from: usize) -> (r: Vec<Token>)
    requires
        from <= tokens@.len(),
    ensures
        tokens_view(r@) == tokens_view(tokens@).skip(from as int),
{
    let mut r: Vec<Token> = Vec::new();
    let mut i: usize = from;
    while i < tokens.len()
        invariant
            from <= i <= tokens@.len(),
            tokens_view(r@) =~= tokens_view(tokens@).subrange(from as int, i as int),
        decreases tokens@.len() - i,
    {
        let d = token_dup(&tokens[i]);
        let ghost pre = r@;
        r.push(d);
        proof {
            assert(tokens_view(r@) =~= tokens_view(pre).push(token_view(d)));
            assert(tokens_view(r@) =~= tokens_view(tokens@).subrange(from as int, i + 1));
        }
        i += 1;
    }
    proof {
        assert(tokens_view(tokens@).subrange(from as int, tokens@.len() as int)
            =~= tokens_view(tokens@).skip(from as int));
    }
    r
}

/// A syntax error whose context is the unconsumed tail of the stream.
fn syn_err(msg: &str, tokens: &Vec<Token>, from: usize) -> (r: LogoError)
    requires
        from <= tokens@.len(),
    ensures
        err_matches(r, ErrV::Syntax(msg@, tokens_view(tokens@).skip(from as int))),
{
    LogoError::SyntaxError { err: msg.to_owned(), tokens: tail_tokens(tokens, from) }
}

/// A syntax error whose context is the marker stack.
fn stack_err(msg: &str, stack: &Vec<Token>) -> (r: LogoError)
    ensures
        err_matches(r, ErrV::Syntax(msg@, tokens_view(stack@))),
{
    let t = tail_tokens(stack, 0);
    proof {
        assert(tokens_view(stack@).skip(0) =~= tokens_view(stack@));
    }
    LogoError::SyntaxError { err: msg.to_owned(), tokens: t }
}

/// A literal or a variable reference.
fn build_var(tokens: &Vec<Token>, pos: usize) -> (r: (Result<Expression, LogoError>, usize))
    requires
        pos <= tokens@.len(),
    ensures
        pos <= r.1 <= tokens@.len(),
        match spec_var(tokens_view(tokens@), pos as nat) {
            PE::Got(ev, p) => r.0 is Ok && exp_view(r.0->Ok_0) == ev && r.1 == p,
            PE::Fail(e, pc) => r.0 is Err && err_matches(r.0->Err_0, e) && r.1 == pc,
        },
{
    proof {
        assert(tokens_view(tokens@).len() == tokens@.len());
        if pos < tokens@.len() {
            assert(tokens_view(tokens@)[pos as int] == token_view(tokens@[pos as int]));
        }
    }
    if pos < tokens.len() {
        match &tokens[pos] {
            Token::Number(n) => (Ok(Expression::Number(*n)), pos + 1),
            Token::Var(x) => (Ok(Expression::Var(x.clone())), pos + 1),
            _ => (Err(syn_err("no such variable", tokens, pos + 1)), pos + 1),
        }
    } else {
        (Err(syn_err("no such variable", tokens, pos)), pos)
    }
}

/// A value, or one level of binary arithmetic when an operator follows.
fn build_arg(tokens: &Vec<Token>, pos: usize) -> (r: (Result<Expression, LogoError>, usize))
    requires
        pos <= tokens@.len(),
    ensures
        pos <= r.1 <= tokens@.len(),
        match spec_arg(tokens_view(tokens@), pos as nat) {
            PE::Got(ev, p) => r.0 is Ok && exp_view(r.0->Ok_0) == ev && r.1 == p,
            PE::Fail(e, pc) => r.0 is Err && err_matches(r.0->Err_0, e) && r.1 == pc,
        },
{
    proof {
        assert(tokens_view(tokens@).len() == tokens@.len());
        if pos + 1 < tokens@.len() {
            assert(tokens_view(tokens@)[pos + 1 as int] == token_view(tokens@[pos + 1 as int]));
        }
    }
    let op: Option<Expression> = if pos < tokens.len() && pos + 1 < tokens.len() {
        match &tokens[pos + 1] {
            Token::Add => Some(Expression::Add),
            Token::Sub => Some(Expression::Sub),
            Token::Mul => Some(Expression::Mul),
            Token::Div => Some(Expression::Div),
            _ => None,
        }
    } else {
        None
    };
    match op {
        Some(opx) => build_math(tokens, pos, opx),
        None => build_var(tokens, pos),
    }
}

/// One binary arithmetic expression: value, the operator already chosen by
/// the caller's lookahead, value.
fn build_math(tokens: &Vec<Token>, pos: usize, op: Expression) -> (r: (
    Result<Expression, LogoError>,
    usize,
))
    requires
        pos + 1 < tokens@.len(),
        math_op(tokens_view(tokens@)[pos + 1 as int]) == Some(exp_view(op)),
    ensures
        pos <= r.1 <= tokens@.len(),
        match spec_arg(tokens_view(tokens@), pos as nat) {
            PE::Got(ev, p) => r.0 is Ok && exp_view(r.0->Ok_0) == ev && r.1 == p,
            PE::Fail(e, pc) => r.0 is Err && err_matches(r.0->Err_0, e) && r.1 == pc,
        },
{
    proof {
        assert(tokens_view(tokens@).len() == tokens@.len());
        assert(tokens_view(tokens@)[pos as int] == token_view(tokens@[pos as int]));
    }
    let (l, p1) = match build_var(tokens, pos) {
        (Ok(v), p) => (v, p),
        (Err(e), p) => {
            return (Err(e), p);
        },
    };
    let n = tokens.len();
    proof {
        assert(p1 == pos + 1);
        assert(p1 + 1 <= n);
    }
    let (rr, p2) = match build_var(tokens, p1 + 1) {
        (Ok(v), p) => (v, p),
        (Err(e), p) => {
            return (Err(e), p);
        },
    };
    (Ok(Expression::Math(Box::new(l), Box::new(op), Box::new(rr))), p2)
}

/// A comparison operator.
fn build_logical_op(tokens: &Vec<Token>, pos: usize) -> (r: (
    Result<Expression, LogoError>,
    usize,
))
    requires
        pos <= tokens@.len(),
    ensures
        pos <= r.1 <= tokens@.len(),
        match spec_logical(tokens_view(tokens@), pos as nat) {
            PE::Got(ev, p) => r.0 is Ok && exp_view(r.0->Ok_0) == ev && r.1 == p,
            PE::Fail(e, pc) => r.0 is Err && err_matches(r.0->Err_0, e) && r.1 == pc,
        },
{
    proof {
        assert(tokens_view(tokens@).len() == tokens@.len());
        if pos < tokens@.len() {
            assert(tokens_view(tokens@)[pos as int] == token_view(tokens@[pos as int]));
        }
    }
    if pos < tokens.len() {
        match &tokens[pos] {
            Token::Less => (Ok(Expression::Less), pos + 1),
            Token::Gtr => (Ok(Expression::Gtr), pos + 1),
            Token::Eq => (Ok(Expression::Eq), pos + 1),
            Token::Neq => (Ok(Expression::Neq), pos + 1),
            _ => (Err(syn_err("expected logical operator", tokens, pos + 1)), pos + 1),
        }
    } else {
        (Err(syn_err("expected logical operator", tokens, pos)), pos)
    }
}

/// A procedure name.
fn build_name(tokens: &Vec<Token>, pos: usize) -> (r: (Result<String, LogoError>, usize))
    requires
        pos <= tokens@.len(),
    ensures
        pos <= r.1 <= tokens@.len(),
        match spec_name(tokens_view(tokens@), pos as nat) {
            PN::Got(nm, p) => r.0 is Ok && r.0->Ok_0@ == nm && r.1 == p,
            PN::Fail(e, pc) => r.0 is Err && err_matches(r.0->Err_0, e) && r.1 == pc,
        },
{
    proof {
        assert(tokens_view(tokens@).len() == tokens@.len());
        if pos < tokens@.len() {
            assert(tokens_view(tokens@)[pos as int] == token_view(tokens@[pos as int]));
        }
    }
    if pos < tokens.len() {
        match &tokens[pos] {
            Token::Ident(x) => (Ok(x.clone()), pos + 1),
            _ => (Err(syn_err("expected identifier", tokens, pos + 1)), pos + 1),
        }
    } else {
        (Err(syn_err("expected identifier", tokens, pos)), pos)
    }
}

/// A comparison: value, operator, value.
fn build_condition(tokens: &Vec<Token>, pos: usize) -> (r: (
    Result<Expression, LogoError>,
    usize,
))
    requires
        pos <= tokens@.len(),
    ensures
        pos <= r.1 <= tokens@.len(),
        match spec_condition(tokens_view(tokens@), pos as nat) {
            PE::Got(ev, p) => r.0 is Ok && exp_view(r.0->Ok_0) == ev && r.1 == p,
            PE::Fail(e, pc) => r.0 is Err && err_matches(r.0->Err_0, e) && r.1 == pc,
        },
{
    let (l, p1) = match build_arg(tokens, pos) {
        (Ok(v), p) => (v, p),
        (Err(e), p) => {
            return (Err(e), p);
        },
    };
    let (op, p2) = match build_logical_op(tokens, p1) {
        (Ok(v), p) => (v, p),
        (Err(e), p) => {
            return (Err(e), p);
        },
    };
    let (rr, p3) = match build_arg(tokens, p2) {
        (Ok(v), p) => (v, p),
        (Err(e), p) => {
            return (Err(e), p);
        },
    };
    (Ok(Expression::Condition(Box::new(l), Box::new(op), Box::new(rr))), p3)
}

/// The three color channels of a color statement.
fn build_set_color(tokens: &Vec<Token>, pos: usize) -> (r: (
    Result<Expression, LogoError>,
    usize,
))
    requires
        pos <= tokens@.len(),
    ensures
        pos <= r.1 <= tokens@.len(),
        match spec_set_color(tokens_view(tokens@), pos as nat) {
            PE::Got(ev, p) => r.0 is Ok && exp_view(r.0->Ok_0) == ev && r.1 == p,
            PE::Fail(e, pc) => r.0 is Err && err_matches(r.0->Err_0, e) && r.1 == pc,
        },
{
    let (cr, p1) = match build_arg(tokens, pos) {
        (Ok(v), p) => (v, p),
        (Err(e), p) => {
            return (Err(e), p);
        },
    };
    let (cg, p2) = match build_arg(tokens, p1) {
        (Ok(v), p) => (v, p),
        (Err(e), p) => {
            return (Err(e), p);
        },
    };
    let (cb, p3) = match build_arg(tokens, p2) {
        (Ok(v), p) => (v, p),
        (Err(e), p) => {
            return (Err(e), p);
        },
    };
    (Ok(Expression::Setcolor(Box::new(cr), Box::new(cg), Box::new(cb))), p3)
}

/// Call-site arguments, consumed greedily while the next token looks like
/// a value.
fn build_call(tokens: &Vec<Token>, pos: usize, name: String) -> (r: (
    Result<Expression, LogoError>,
    usize,
))
    requires
        pos <= tokens@.len(),
    ensures
        pos <= r.1 <= tokens@.len(),
        match spec_call_args(tokens_view(tokens@), pos as nat) {
            PA::Got(argsv, p) => r.0 is Ok && exp_view(r.0->Ok_0) == ExpV::Call(name@, argsv)
                && r.1 == p,
            PA::Fail(e, pc) => r.0 is Err && err_matches(r.0->Err_0, e) && r.1 == pc,
        },
{
    let ghost t = tokens_view(tokens@);
    let mut out: Vec<Expression> = Vec::new();
    let mut cur: usize = pos;
    proof {
        assert(t.len() == tokens@.len());
    }
    while cur < tokens.len() && (matches!(&tokens[cur], Token::Var(_)) || matches!(
        &tokens[cur],
        Token::Number(_),
    ))
        invariant
            pos <= cur <= tokens@.len(),
            t == tokens_view(tokens@),
            t.len() == tokens@.len(),
            match spec_call_args(t, cur as nat) {
                PA::Got(rest, p) => spec_call_args(t, pos as nat) == PA::Got(
                    exps_view(out@) + rest,
                    p,
                ),
                PA::Fail(e, pc) => spec_call_args(t, pos as nat) == PA::Fail(e, pc),
            },
        decreases tokens@.len() - cur,
    {
        proof {
            assert(t[cur as int] == token_view(tokens@[cur as int]));
        }
        let (a, p1) = match build_arg(tokens, cur) {
            (Ok(v), p) => (v, p),
            (Err(e), p) => {
                return (Err(e), p);
            },
        };
        let ghost pre_out = out@;
        let ghost av = exp_view(a);
        out.push(a);
        proof {
            crate::ast::lemma_exps_view_push(pre_out, a);
            assert(p1 > cur);
            match spec_call_args(t, p1 as nat) {
                PA::Got(rest, p) => {
                    assert(spec_call_args(t, cur as nat) == PA::Got(seq![av] + rest, p));
                    assert(exps_view(pre_out).push(av) + rest =~= exps_view(pre_out) + (seq![av]
                        + rest));
                },
                PA::Fail(e, pc) => {
                    assert(spec_call_args(t, cur as nat) == PA::Fail(e, pc));
                },
            }
        }
        cur = p1;
    }
    proof {
        if cur < tokens@.len() {
            assert(t[cur as int] == token_view(tokens@[cur as int]));
        }
        assert(spec_call_args(t, cur as nat) == PA::Got(Seq::<ExpV>::empty(), cur as nat));
        assert(exps_view(out@) + Seq::<ExpV>::empty() =~= exps_view(out@));
    }
    (Ok(Expression::Call(name, out)), cur)
}

/// Pop the marker stack for a closing token; the top must be the matching
/// opener.
fn pop_stack(open: &Token, stack: &mut Vec<Token>) -> (r: Result<(), LogoError>)
    requires
        token_view(*open) is LBracket || token_view(*open) is To,
    ensures
        match r {
            Ok(()) => old(stack)@.len() > 0 && token_view(old(stack)@.last()) == token_view(*open)
                && final(stack)@ == old(stack)@.drop_last(),
            Err(e) => {
                &&& err_matches(
                    e,
                    ErrV::Syntax(opener_msg(token_view(*open)), tokens_view(final(stack)@)),
                )
                &&& (old(stack)@.len() == 0 ==> final(stack)@ == old(stack)@)
                &&& (old(stack)@.len() > 0 ==> final(stack)@ == old(stack)@.drop_last()
                    && token_view(old(stack)@.last()) != token_view(*open))
            },
        },
{
    let msg: &str = match open {
        Token::To => "Expected opening token 'To' before 'End'.",
        _ => "Expected opening token 'LBracket' before 'RBracket'.",
    };
    match stack.pop() {
        None => Err(stack_err(msg, stack)),
        Some(tok) => {
            let same = match (&tok, open) {
                (Token::LBracket, Token::LBracket) => true,
                (Token::To, Token::To) => true,
                _ => false,
            };
            proof {
                if same {
                    assert(token_view(tok) == token_view(*open));
                } else {
                    assert(token_view(tok) != token_view(*open));
                }
            }
            if same {
                Ok(())
            } else {
                Err(stack_err(msg, stack))
            }
        },
    }
}

/// Prefix a statement-list result with already-parsed statements.
pub open spec fn ps_prepend(acc: Seq<ExpV>, r: PS) -> PS {
    match r {
        PS::Done(es, p, st) => PS::Done(acc + es, p, st),
        PS::Bad(e, p, st) => PS::Bad(e, p, st),
    }
}

/// The rest of a repetition statement, after its keyword.
fn build_repeat(tokens: &Vec<Token>, pos: usize, stack: &mut Vec<Token>) -> (r: (
    Result<Expression, LogoError>,
    usize,
))
    requires
        pos <= tokens@.len(),
    ensures
        r.1 <= tokens@.len(),
        r.0 is Ok ==> pos < r.1,
        match spec_repeat_b(tokens_view(tokens@), pos as nat, tokens_view(old(stack)@)) {
            StepR::ExpStk(ev, p, st) => r.0 is Ok && exp_view(r.0->Ok_0) == ev && r.1 == p
                && tokens_view(final(stack)@) == st,
            StepR::Fail(e, p, st) => r.0 is Err && err_matches(r.0->Err_0, e) && r.1 == p
                && tokens_view(final(stack)@) == st,
            _ => false,
        },
    decreases tokens@.len() - pos, 0int,
{
    let ghost t = tokens_view(tokens@);
    let ghost stk0 = tokens_view(old(stack)@);
    let n = tokens.len();
    let (c, p1) = match build_arg(tokens, pos) {
        (Ok(v), p) => (v, p),
        (Err(e), p) => {
            return (Err(e), p);
        },
    };
    let ghost pre_stk = stack@;
    stack.push(Token::LBracket);
    proof {
        assert(tokens_view(stack@) =~= tokens_view(pre_stk).push(TokenV::LBracket));
        if p1 < tokens@.len() {
            assert(t[p1 as int] == token_view(tokens@[p1 as int]));
        }
    }
    if p1 < n && matches!(&tokens[p1], Token::LBracket) {
        let (body, p2) = match build(tokens, p1 + 1, stack) {
            (Ok(v), p) => (v, p),
            (Err(e), p) => {
                return (Err(e), p);
            },
        };
        (Ok(Expression::Repeat(Box::new(c), body)), p2)
    } else {
        if p1 < n {
            (Err(syn_err("expected '['", tokens, p1 + 1)), p1 + 1)
        } else {
            (Err(syn_err("expected '['", tokens, p1)), p1)
        }
    }
}

/// The rest of a conditional statement, after its keyword.
fn build_if(tokens: &Vec<Token>, pos: usize, stack: &mut Vec<Token>) -> (r: (
    Result<Expression, LogoError>,
    usize,
))
    requires
        pos <= tokens@.len(),
    ensures
        r.1 <= tokens@.len(),
        r.0 is Ok ==> pos < r.1,
        match spec_if_b(tokens_view(tokens@), pos as nat, tokens_view(old(stack)@)) {
            StepR::ExpStk(ev, p, st) => r.0 is Ok && exp_view(r.0->Ok_0) == ev && r.1 == p
                && tokens_view(final(stack)@) == st,
            StepR::Fail(e, p, st) => r.0 is Err && err_matches(r.0->Err_0, e) && r.1 == p
                && tokens_view(final(stack)@) == st,
            _ => false,
        },
    decreases tokens@.len() - pos, 0int,
{
    let ghost t = tokens_view(tokens@);
    let n = tokens.len();
    let (c, p1) = match build_condition(tokens, pos) {
        (Ok(v), p) => (v, p),
        (Err(e), p) => {
            return (Err(e), p);
        },
    };
    let ghost pre_stk = stack@;
    stack.push(Token::LBracket);
    proof {
        assert(tokens_view(stack@) =~= tokens_view(pre_stk).push(TokenV::LBracket));
        if p1 < tokens@.len() {
            assert(t[p1 as int] == token_view(tokens@[p1 as int]));
        }
    }
    if p1 < n && matches!(&tokens[p1], Token::LBracket) {
        let (body, p2) = match build(tokens, p1 + 1, stack) {
            (Ok(v), p) => (v, p),
            (Err(e), p) => {
                return (Err(e), p);
            },
        };
        (Ok(Expression::If(Box::new(c), body)), p2)
    } else {
        if p1 < n {
            (Err(syn_err("expected '['", tokens, p1 + 1)), p1 + 1)
        } else {
            (Err(syn_err("expected '['", tokens, p1)), p1)
        }
    }
}

/// The rest of a definition, after its keyword: name, parameters, body.
fn build_to(tokens: &Vec<Token>, pos: usize, stack: &mut Vec<Token>) -> (r: (
    Result<Expression, LogoError>,
    usize,
))
    requires
        pos <= tokens@.len(),
    ensures
        r.1 <= tokens@.len(),
        r.0 is Ok ==> pos < r.1,
        match spec_to_b(tokens_view(tokens@), pos as nat, tokens_view(old(stack)@)) {
            StepR::ExpStk(ev, p, st) => r.0 is Ok && exp_view(r.0->Ok_0) == ev && r.1 == p
                && tokens_view(final(stack)@) == st,
            StepR::Fail(e, p, st) => r.0 is Err && err_matches(r.0->Err_0, e) && r.1 == p
                && tokens_view(final(stack)@) == st,
            _ => false,
        },
    decreases tokens@.len() - pos, 0int,
{
    let ghost t = tokens_view(tokens@);
    let n = tokens.len();
    let (nm, p1) = match build_name(tokens, pos) {
        (Ok(v), p) => (v, p),
        (Err(e), p) => {
            return (Err(e), p);
        },
    };
    let ghost pre_stk = stack@;
    stack.push(Token::To);
    proof {
        assert(tokens_view(stack@) =~= tokens_view(pre_stk).push(TokenV::To));
    }
    let mut params: Vec<String> = Vec::new();
    let mut cur: usize = p1;
    proof {
        assert(crate::ast::strs_view(params@) =~= Seq::<Seq<char>>::empty());
        assert(Seq::<Seq<char>>::empty() + spec_params(t, cur as nat).0 =~= spec_params(
            t,
            cur as nat,
        ).0);
    }
    while cur < n && matches!(&tokens[cur], Token::Var(_))
        invariant
            p1 <= cur <= n,
            n == tokens@.len(),
            t == tokens_view(tokens@),
            spec_params(t, p1 as nat).0 == crate::ast::strs_view(params@) + spec_params(
                t,
                cur as nat,
            ).0,
            spec_params(t, p1 as nat).1 == spec_params(t, cur as nat).1,
        decreases n - cur,
    {
        proof {
            assert(t[cur as int] == token_view(tokens@[cur as int]));
        }
        let ghost pre_params = params@;
        match &tokens[cur] {
            Token::Var(x) => {
                params.push(x.clone());
            },
            _ => {},
        }
        proof {
            assert(crate::ast::strs_view(params@) =~= crate::ast::strs_view(pre_params).push(
                tokens@[cur as int]->Var_0@,
            ));
            assert(crate::ast::strs_view(pre_params) + spec_params(t, cur as nat).0
                =~= crate::ast::strs_view(params@) + spec_params(t, (cur + 1) as nat).0);
        }
        cur += 1;
    }
    proof {
        if cur < n {
            assert(t[cur as int] == token_view(tokens@[cur as int]));
        }
        assert(spec_params(t, cur as nat).0 =~= Seq::<Seq<char>>::empty());
        assert(crate::ast::strs_view(params@) + Seq::<Seq<char>>::empty() =~= crate::ast::strs_view(
            params@,
        ));
        assert(spec_params(t, p1 as nat).0 == crate::ast::strs_view(params@));
        assert(spec_params(t, p1 as nat).1 == cur as nat);
    }
    let (body, p2) = match build(tokens, cur, stack) {
        (Ok(v), p) => (v, p),
        (Err(e), p) => {
            return (Err(e), p);
        },
    };
    (Ok(Expression::To(nm, params, body)), p2)
}

/// One statement's worth of parsing: the expression to append, a closing
/// token consumed, or a failure.
pub enum StmtOut {
    Push(Expression, usize),
    Close(usize),
    Broke(LogoError, usize),
}

#[verifier::rlimit(100)]
fn build_stmt(tokens: &Vec<Token>, pos: usize, stack: &mut Vec<Token>) -> (r: StmtOut)
    requires
        pos < tokens@.len(),
    ensures
        match spec_stmt(tokens_view(tokens@), pos as nat, tokens_view(old(stack)@)) {
            StepR::Exp(ev, p) => r matches StmtOut::Push(ex, px) && exp_view(ex) == ev && px == p
                && pos < p <= tokens@.len() && tokens_view(final(stack)@) == tokens_view(
                old(stack)@,
            ),
            StepR::ExpStk(ev, p, st) => r matches StmtOut::Push(ex, px) && exp_view(ex) == ev
                && px == p && pos < p <= tokens@.len() && tokens_view(final(stack)@) == st,
            StepR::Closed(p, st) => r matches StmtOut::Close(px) && px == p && pos < p
                <= tokens@.len() && tokens_view(final(stack)@) == st,
            StepR::Fail(e, p, st) => r matches StmtOut::Broke(ex, px) && err_matches(ex, e) && px
                == p && p <= tokens@.len() && tokens_view(final(stack)@) == st,
        },
    decreases tokens@.len() - pos, 1int,
{
    let ghost t = tokens_view(tokens@);
    let n = tokens.len();
    proof {
        assert(t[pos as int] == token_view(tokens@[pos as int]));
    }
    match &tokens[pos] {
        Token::Clear => StmtOut::Push(Expression::Clear, pos + 1),
        Token::Penup => StmtOut::Push(Expression::Penup, pos + 1),
        Token::Pendown => StmtOut::Push(Expression::Pendown, pos + 1),
        Token::Setpos => {
            let (x, p1) = match build_arg(tokens, pos + 1) {
                (Ok(v), p) => (v, p),
                (Err(e), p) => {
                    return StmtOut::Broke(e, p);
                },
            };
            let (y, p2) = match build_arg(tokens, p1) {
                (Ok(v), p) => (v, p),
                (Err(e), p) => {
                    return StmtOut::Broke(e, p);
                },
            };
            StmtOut::Push(Expression::Setpos(Box::new(x), Box::new(y)), p2)
        },
        Token::Setcolor => {
            match build_set_color(tokens, pos + 1) {
                (Ok(v), p) => StmtOut::Push(v, p),
                (Err(e), p) => StmtOut::Broke(e, p),
            }
        },
        Token::Setpensize => {
            match build_arg(tokens, pos + 1) {
                (Ok(v), p) => StmtOut::Push(Expression::Setpensize(Box::new(v)), p),
                (Err(e), p) => StmtOut::Broke(e, p),
            }
        },
        Token::Forward => {
            match build_arg(tokens, pos + 1) {
                (Ok(v), p) => StmtOut::Push(Expression::Forward(Box::new(v)), p),
                (Err(e), p) => StmtOut::Broke(e, p),
            }
        },
        Token::Back => {
            match build_arg(tokens, pos + 1) {
                (Ok(v), p) => StmtOut::Push(Expression::Back(Box::new(v)), p),
                (Err(e), p) => StmtOut::Broke(e, p),
            }
        },
        Token::Right => {
            match build_arg(tokens, pos + 1) {
                (Ok(v), p) => StmtOut::Push(Expression::Right(Box::new(v)), p),
                (Err(e), p) => StmtOut::Broke(e, p),
            }
        },
        Token::Left => {
            match build_arg(tokens, pos + 1) {
                (Ok(v), p) => StmtOut::Push(Expression::Left(Box::new(v)), p),
                (Err(e), p) => StmtOut::Broke(e, p),
            }
        },
        Token::Arc => {
            let (x, p1) = match build_arg(tokens, pos + 1) {
                (Ok(v), p) => (v, p),
                (Err(e), p) => {
                    return StmtOut::Broke(e, p);
                },
            };
            let (y, p2) = match build_arg(tokens, p1) {
                (Ok(v), p) => (v, p),
                (Err(e), p) => {
                    return StmtOut::Broke(e, p);
                },
            };
            StmtOut::Push(Expression::Arc(Box::new(x), Box::new(y)), p2)
        },
        Token::Circle => {
            match build_arg(tokens, pos + 1) {
                (Ok(v), p) => StmtOut::Push(Expression::Circle(Box::new(v)), p),
                (Err(e), p) => StmtOut::Broke(e, p),
            }
        },
        Token::Repeat => {
            match build_repeat(tokens, pos + 1, stack) {
                (Ok(v), p) => StmtOut::Push(v, p),
                (Err(e), p) => StmtOut::Broke(e, p),
            }
        },
        Token::If => {
            match build_if(tokens, pos + 1, stack) {
                (Ok(v), p) => StmtOut::Push(v, p),
                (Err(e), p) => StmtOut::Broke(e, p),
            }
        },
        Token::To => {
            match build_to(tokens, pos + 1, stack) {
                (Ok(v), p) => StmtOut::Push(v, p),
                (Err(e), p) => StmtOut::Broke(e, p),
            }
        },
        Token::Ident(x) => {
            match build_call(tokens, pos + 1, x.clone()) {
                (Ok(v), p) => StmtOut::Push(v, p),
                (Err(e), p) => StmtOut::Broke(e, p),
            }
        },
        Token::RBracket => {
            let ghost spre = tokens_view(stack@);
            let ghost stkpre = stack@;
            match pop_stack(&Token::LBracket, stack) {
                Ok(()) => {
                    proof {
                        assert(tokens_view(stack@) =~= spre.drop_last());
                    }
                    StmtOut::Close(pos + 1)
                },
                Err(e) => {
                    proof {
                        if stkpre.len() > 0 {
                            assert(tokens_view(stack@) =~= spre.drop_last());
                            assert(spre.len() > 0 && spre.last() == token_view(stkpre.last()));
                        } else {
                            assert(spre.len() == 0);
                        }
                    }
                    StmtOut::Broke(e, pos + 1)
                },
            }
        },
        Token::End => {
            let ghost spre = tokens_view(stack@);
            let ghost stkpre = stack@;
            match pop_stack(&Token::To, stack) {
                Ok(()) => {
                    proof {
                        assert(tokens_view(stack@) =~= spre.drop_last());
                    }
                    StmtOut::Close(pos + 1)
                },
                Err(e) => {
                    proof {
                        if stkpre.len() > 0 {
                            assert(tokens_view(stack@) =~= spre.drop_last());
                            assert(spre.len() > 0 && spre.last() == token_view(stkpre.last()));
                        } else {
                            assert(spre.len() == 0);
                        }
                    }
                    StmtOut::Broke(e, pos + 1)
                },
            }
        },
        _ => StmtOut::Broke(syn_err("unexpected token", tokens, pos + 1), pos + 1),
    }
}

/// Parse statements until the stream ends or a matching closer is consumed.
#[verifier::rlimit(100)]
#[verifier::loop_isolation(false)]
fn build(tokens: &Vec<Token>, pos: usize, stack: &mut Vec<Token>) -> (r: (
    Result<Vec<Expression>, LogoError>,
    usize,
))
    requires
        pos <= tokens@.len(),
    ensures
        r.1 <= tokens@.len(),
        r.0 is Ok ==> pos <= r.1,
        match spec_build(tokens_view(tokens@), pos as nat, tokens_view(old(stack)@)) {
            PS::Done(es, p, st) => r.0 is Ok && exps_view(r.0->Ok_0@) == es && r.1 == p
                && tokens_view(final(stack)@) == st,
            PS::Bad(e, p, st) => r.0 is Err && err_matches(r.0->Err_0, e) && r.1 == p
                && tokens_view(final(stack)@) == st,
        },
    decreases tokens@.len() - pos, 2int,
{
    let ghost t = tokens_view(tokens@);
    let ghost stk0 = tokens_view(old(stack)@);
    let ghost target = spec_build(t, pos as nat, stk0);
    let n = tokens.len();
    let mut out: Vec<Expression> = Vec::new();
    let mut cur: usize = pos;
    proof {
        assert(t.len() == tokens@.len());
        assert(exps_view(out@) =~= Seq::<ExpV>::empty());
        assert(Seq::<ExpV>::empty() + spec_build(t, cur as nat, tokens_view(stack@))->Done_0
            =~= spec_build(t, cur as nat, tokens_view(stack@))->Done_0);
        assert(ps_prepend(exps_view(out@), spec_build(t, cur as nat, tokens_view(stack@)))
            == target) by {
            match spec_build(t, cur as nat, tokens_view(stack@)) {
                PS::Done(es, p, st) => {
                    assert(Seq::<ExpV>::empty() + es =~= es);
                },
                PS::Bad(..) => {},
            }
        }
    }
    while cur < n
        invariant
            pos <= cur <= n,
            ps_prepend(exps_view(out@), spec_build(t, cur as nat, tokens_view(stack@))) == target,
        decreases n - cur,
    {
        let ghost c0 = cur as nat;
        let ghost scur = tokens_view(stack@);
        let ghost pre_out = out@;
        proof {
            let st = spec_stmt(t, c0, scur);
            let sb = spec_build(t, c0, scur);
            assert(sb == match st {
                StepR::Fail(e, p, s1) => PS::Bad(e, p, s1),
                StepR::Closed(p, s1) => PS::Done(Seq::<ExpV>::empty(), p, s1),
                StepR::Exp(e, p) => ps_prepend(seq![e], spec_build(t, adv(t, c0, p), scur)),
                StepR::ExpStk(e, p, s1) => ps_prepend(
                    seq![e],
                    spec_build(t, adv(t, c0, p), s1),
                ),
            });
        }
        match build_stmt(tokens, cur, stack) {
            StmtOut::Push(ex, p) => {
                proof {
                    crate::ast::lemma_exps_view_push(pre_out, ex);
                    assert(adv(t, c0, p as nat) == p as nat);
                    let inner = spec_build(t, p as nat, tokens_view(stack@));
                    match inner {
                        PS::Done(es, pp, ss) => {
                            assert(exps_view(pre_out) + (seq![exp_view(ex)] + es) =~= exps_view(
                                pre_out,
                            ).push(exp_view(ex)) + es);
                        },
                        PS::Bad(..) => {},
                    }
                }
                out.push(ex);
                cur = p;
            },
            StmtOut::Close(p) => {
                proof {
                    assert(exps_view(out@) + Seq::<ExpV>::empty() =~= exps_view(out@));
                }
                return (Ok(out), p);
            },
            StmtOut::Broke(e, p) => {
                return (Err(e), p);
            },
        }
    }
    proof {
        assert(spec_build(t, cur as nat, tokens_view(stack@)) == PS::Done(
            Seq::<ExpV>::empty(),
            cur as nat,
            tokens_view(stack@),
        ));
        assert(exps_view(out@) + Seq::<ExpV>::empty() =~= exps_view(out@));
    }
    (Ok(out), cur)
}

/// Build the whole stream, then reject a dangling block or an unterminated
/// definition.
fn to_ast(tokens: &Vec<Token>) -> (r: Result<Vec<Expression>, LogoError>)
    ensures
        match spec_to_ast(tokens_view(tokens@)) {
            Ok(es) => r is Ok && exps_view(r->Ok_0@) == es,
            Err(ev) => r is Err && err_matches(r->Err_0, ev),
        },
{
    let ghost t = tokens_view(tokens@);
    let mut stack: Vec<Token> = Vec::new();
    proof {
        assert(tokens_view(stack@) =~= Seq::<TokenV>::empty());
    }
    let (res, p) = build(tokens, 0, &mut stack);
    proof {
        assert(tokens_view(stack@).len() == stack@.len());
        if stack@.len() > 0 {
            assert(tokens_view(stack@).last() == token_view(stack@.last()));
        }
        assert(tokens_view(tokens@.skip(p as int)) =~= tokens_view(tokens@).skip(p as int));
    }
    if stack.len() > 0 {
        let is_lb = matches!(&stack[stack.len() - 1], Token::LBracket);
        let is_to = matches!(&stack[stack.len() - 1], Token::To);
        if is_lb {
            return Err(syn_err("Expected closing token ']'.", tokens, p));
        }
        if is_to {
            return Err(syn_err("Expected closing token 'end'.", tokens, p));
        }
    }
    res
}

/// Parse source text into an expression tree, or a structured syntax error.
pub fn parse(code: &str) -> (r: Result<Vec<Expression>, LogoError>)
    ensures
        match spec_parse(code@) {
            Ok(es) => r is Ok && exps_view(r->Ok_0@) == es,
            Err(ev) => r is Err && err_matches(r->Err_0, ev),
        },
{
    let lc = lowercase(code);
    let tokens = tokenize(lc.as_str());
    to_ast(&tokens)
}

} // verus!
