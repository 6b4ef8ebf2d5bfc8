//! The parser round trip: a tree the parser accepts renders back, token for
//! token, to exactly the stream that was parsed; re-parsing the canonical
//! rendering therefore yields the same tree.

use vstd::prelude::*;
use crate::ast::{unparse_exp, unparse_seq, vars_tokens, ExpV};
use crate::parser::{
    adv, spec_arg, spec_build, spec_call_args, spec_condition, spec_if_b, spec_logical, spec_name,
    spec_params, spec_repeat_b, spec_set_color, spec_stmt, spec_to_ast, spec_to_b, spec_var, PA,
    PE, PN, PS, StepR,
};
use crate::tokens::TokenV;

verus! {

/// The closing token that matches a block marker.
pub open spec fn closer_of(m: TokenV) -> TokenV {
    if m is To {
        TokenV::End
    } else {
        TokenV::RBracket
    }
}

/// A block marker: what the parser's stack may hold.
pub open spec fn is_marker(m: TokenV) -> bool {
    m is To || m is LBracket
}

proof fn lemma_var_unparse(t: Seq<TokenV>, pos: nat)
    ensures
        match spec_var(t, pos) {
            PE::Got(e, p) => pos < p <= t.len() && p == pos + 1 && unparse_exp(e) == t.subrange(
                pos as int,
                p as int,
            ),
            PE::Fail(..) => true,
        },
{
    match spec_var(t, pos) {
        PE::Got(e, p) => {
            assert(unparse_exp(e) =~= t.subrange(pos as int, pos as int + 1));
        },
        PE::Fail(..) => {},
    }
}

proof fn lemma_arg_unparse(t: Seq<TokenV>, pos: nat)
    ensures
        match spec_arg(t, pos) {
            PE::Got(e, p) => pos < p <= t.len() && unparse_exp(e) == t.subrange(
                pos as int,
                p as int,
            ),
            PE::Fail(..) => true,
        },
{
    lemma_var_unparse(t, pos);
    match spec_var(t, pos) {
        PE::Got(l, p1) => {
            lemma_var_unparse(t, p1 + 1);
        },
        PE::Fail(..) => {},
    }
    match spec_arg(t, pos) {
        PE::Got(e, p) => {
            match e {
                ExpV::Math(l, op, r) => {
                    assert(unparse_exp(*op) =~= t.subrange(pos as int + 1, pos as int + 2));
                    assert(unparse_exp(e) =~= t.subrange(pos as int, p as int));
                },
                _ => {},
            }
        },
        PE::Fail(..) => {},
    }
}

proof fn lemma_condition_unparse(t: Seq<TokenV>, pos: nat)
    ensures
        match spec_condition(t, pos) {
            PE::Got(e, p) => pos < p <= t.len() && unparse_exp(e) == t.subrange(
                pos as int,
                p as int,
            ),
            PE::Fail(..) => true,
        },
{
    lemma_arg_unparse(t, pos);
    match spec_arg(t, pos) {
        PE::Got(l, p1) => {
            match spec_logical(t, p1) {
                PE::Got(op, p2) => {
                    assert(unparse_exp(op) =~= t.subrange(p1 as int, p2 as int));
                    lemma_arg_unparse(t, p2);
                    match spec_arg(t, p2) {
                        PE::Got(r, p3) => {
                            match spec_condition(t, pos) {
                                PE::Got(e, p) => {
                                    assert(unparse_exp(e) =~= t.subrange(pos as int, p as int));
                                },
                                PE::Fail(..) => {},
                            }
                        },
                        PE::Fail(..) => {},
                    }
                },
                PE::Fail(..) => {},
            }
        },
        PE::Fail(..) => {},
    }
}

proof fn lemma_set_color_unparse(t: Seq<TokenV>, pos: nat)
    ensures
        match spec_set_color(t, pos) {
            PE::Got(e, p) => pos < p <= t.len() && unparse_exp(e) == seq![TokenV::Setcolor]
                + t.subrange(pos as int, p as int),
            PE::Fail(..) => true,
        },
{
    lemma_arg_unparse(t, pos);
    match spec_arg(t, pos) {
        PE::Got(r, p1) => {
            lemma_arg_unparse(t, p1);
            match spec_arg(t, p1) {
                PE::Got(g, p2) => {
                    lemma_arg_unparse(t, p2);
                    match spec_arg(t, p2) {
                        PE::Got(b, p3) => {
                            match spec_set_color(t, pos) {
                                PE::Got(e, p) => {
                                    assert(unparse_exp(e) =~= seq![TokenV::Setcolor] + t.subrange(
                                        pos as int,
                                        p as int,
                                    ));
                                },
                                PE::Fail(..) => {},
                            }
                        },
                        PE::Fail(..) => {},
                    }
                },
                PE::Fail(..) => {},
            }
        },
        PE::Fail(..) => {},
    }
}

proof fn lemma_params_unparse(t: Seq<TokenV>, pos: nat)
    requires
        pos <= t.len(),
    ensures
        pos <= spec_params(t, pos).1 <= t.len(),
        vars_tokens(spec_params(t, pos).0) == t.subrange(
            pos as int,
            spec_params(t, pos).1 as int,
        ),
    decreases t.len() - pos,
{
    if pos < t.len() && t[pos as int] is Var {
        lemma_params_unparse(t, pos + 1);
        let r = spec_params(t, pos + 1);
        assert(vars_tokens(spec_params(t, pos).0) =~= t.subrange(pos as int, r.1 as int)) by {
            assert(spec_params(t, pos).0 == seq![t[pos as int]->Var_0] + r.0);
            assert(vars_tokens(seq![t[pos as int]->Var_0] + r.0) == seq![TokenV::Var(
                t[pos as int]->Var_0,
            )] + vars_tokens((seq![t[pos as int]->Var_0] + r.0).drop_first()));
            assert((seq![t[pos as int]->Var_0] + r.0).drop_first() =~= r.0);
        }
    } else {
        assert(vars_tokens(spec_params(t, pos).0) =~= t.subrange(pos as int, pos as int));
    }
}

proof fn lemma_call_args_unparse(t: Seq<TokenV>, pos: nat)
    requires
        pos <= t.len(),
    ensures
        match spec_call_args(t, pos) {
            PA::Got(args, p) => pos <= p <= t.len() && unparse_seq(args) == t.subrange(
                pos as int,
                p as int,
            ),
            PA::Fail(..) => true,
        },
    decreases t.len() - pos,
{
    if pos < t.len() && (t[pos as int] is Var || t[pos as int] is Number) {
        lemma_arg_unparse(t, pos);
        match spec_arg(t, pos) {
            PE::Got(a, p1) => {
                lemma_call_args_unparse(t, p1);
                match spec_call_args(t, p1) {
                    PA::Got(rest, p2) => {
                        assert(unparse_seq(seq![a] + rest) =~= t.subrange(
                            pos as int,
                            p2 as int,
                        )) by {
                            assert((seq![a] + rest).drop_first() =~= rest);
                            assert((seq![a] + rest)[0] == a);
                        }
                    },
                    PA::Fail(..) => {},
                }
            },
            PE::Fail(..) => {},
        }
    } else {
        match spec_call_args(t, pos) {
            PA::Got(args, p) => {
                assert(unparse_seq(args) =~= t.subrange(pos as int, pos as int));
            },
            PA::Fail(..) => {},
        }
    }
}

/// What a completed statement-list parse tells about the stack and the
/// consumed tokens.
pub open spec fn build_claim(
    t: Seq<TokenV>,
    pos: nat,
    stk: Seq<TokenV>,
    es: Seq<ExpV>,
    p: nat,
    s: Seq<TokenV>,
) -> bool {
    &&& pos <= p <= t.len()
    &&& s.len() + 1 >= stk.len()
    &&& (s.len() > stk.len() ==> p == t.len() && stk.is_prefix_of(s) && (forall|i: int|
        stk.len() <= i < s.len() ==> is_marker(#[trigger] s[i])))
    &&& (s.len() == stk.len() ==> s == stk && p == t.len() && unparse_seq(es) == t.subrange(
        pos as int,
        p as int,
    ))
    &&& (s.len() < stk.len() ==> stk.len() > 0 && s == stk.drop_last() && pos < p && t[p - 1]
        == closer_of(stk.last()) && unparse_seq(es) == t.subrange(pos as int, p as int - 1))
}

/// What a completed single-statement parse tells.
pub open spec fn stmt_claim(
    t: Seq<TokenV>,
    pos: nat,
    stk: Seq<TokenV>,
    r: StepR,
) -> bool {
    match r {
        StepR::Exp(e, p) => pos < p <= t.len() && unparse_exp(e) == t.subrange(
            pos as int,
            p as int,
        ),
        StepR::ExpStk(e, p, s) => {
            &&& pos < p <= t.len()
            &&& s.len() >= stk.len()
            &&& (s.len() == stk.len() ==> s == stk && unparse_exp(e) == t.subrange(
                pos as int,
                p as int,
            ))
            &&& (s.len() > stk.len() ==> p == t.len() && stk.is_prefix_of(s) && (forall|i: int|
                stk.len() <= i < s.len() ==> is_marker(#[trigger] s[i])))
        },
        StepR::Closed(p, s) => stk.len() > 0 && s == stk.drop_last() && p == pos + 1 && t[
            pos as int
        ] == closer_of(stk.last()),
        StepR::Fail(..) => true,
    }
}

proof fn lemma_repeat_b_unparse(t: Seq<TokenV>, pos: nat, stk: Seq<TokenV>)
    requires
        pos <= t.len(),
    ensures
        match spec_repeat_b(t, pos, stk) {
            StepR::ExpStk(e, p, s) => {
                &&& p <= t.len()
                &&& s.len() >= stk.len()
                &&& (s.len() == stk.len() ==> s == stk && pos < p && unparse_exp(e) == seq![
                    TokenV::Repeat,
                ] + t.subrange(pos as int, p as int))
                &&& (s.len() > stk.len() ==> p == t.len() && stk.is_prefix_of(s) && (forall|
                    i: int,
                |
                    stk.len() <= i < s.len() ==> is_marker(#[trigger] s[i])))
            },
            StepR::Fail(..) => true,
            _ => true,
        },
    decreases t.len() - pos, 3int,
{
    lemma_arg_unparse(t, pos);
    match spec_arg(t, pos) {
        PE::Got(c, p1) => {
            let stk1 = stk.push(TokenV::LBracket);
            if p1 < t.len() && t[p1 as int] is LBracket {
                lemma_build_unparse(t, p1 + 1, stk1);
                match spec_build(t, p1 + 1, stk1) {
                    PS::Done(body, p2, s2) => {
                        if s2.len() < stk1.len() {
                            assert(s2 == stk);
                            assert(closer_of(stk1.last()) == TokenV::RBracket);
                            assert(unparse_exp(ExpV::Repeat(Box::new(c), body)) =~= seq![
                                TokenV::Repeat,
                            ] + t.subrange(pos as int, p2 as int));
                        } else if s2.len() == stk1.len() {
                            assert(s2 == stk1);
                            assert(stk.is_prefix_of(s2)) by {
                                assert(stk =~= s2.subrange(0, stk.len() as int));
                            }
                        } else {
                            assert(stk.is_prefix_of(s2)) by {
                                assert(stk1.is_prefix_of(s2));
                                assert(stk =~= s2.subrange(0, stk.len() as int));
                            }
                            assert(forall|i: int|
                                stk.len() <= i < s2.len() ==> is_marker(#[trigger] s2[i])) by {
                                assert(s2[stk.len() as int] == stk1[stk.len() as int]);
                            }
                        }
                    },
                    PS::Bad(..) => {},
                }
            }
        },
        PE::Fail(..) => {},
    }
}

proof fn lemma_if_b_unparse(t: Seq<TokenV>, pos: nat, stk: Seq<TokenV>)
    requires
        pos <= t.len(),
    ensures
        match spec_if_b(t, pos, stk) {
            StepR::ExpStk(e, p, s) => {
                &&& p <= t.len()
                &&& s.len() >= stk.len()
                &&& (s.len() == stk.len() ==> s == stk && pos < p && unparse_exp(e) == seq![
                    TokenV::If,
                ] + t.subrange(pos as int, p as int))
                &&& (s.len() > stk.len() ==> p == t.len() && stk.is_prefix_of(s) && (forall|
                    i: int,
                |
                    stk.len() <= i < s.len() ==> is_marker(#[trigger] s[i])))
            },
            StepR::Fail(..) => true,
            _ => true,
        },
    decreases t.len() - pos, 3int,
{
    lemma_condition_unparse(t, pos);
    match spec_condition(t, pos) {
        PE::Got(c, p1) => {
            let stk1 = stk.push(TokenV::LBracket);
            if p1 < t.len() && t[p1 as int] is LBracket {
                lemma_build_unparse(t, p1 + 1, stk1);
                match spec_build(t, p1 + 1, stk1) {
                    PS::Done(body, p2, s2) => {
                        if s2.len() < stk1.len() {
                            assert(s2 == stk);
                            assert(unparse_exp(ExpV::If(Box::new(c), body)) =~= seq![TokenV::If]
                                + t.subrange(pos as int, p2 as int));
                        } else if s2.len() == stk1.len() {
                            assert(s2 == stk1);
                            assert(stk.is_prefix_of(s2)) by {
                                assert(stk =~= s2.subrange(0, stk.len() as int));
                            }
                        } else {
                            assert(stk.is_prefix_of(s2)) by {
                                assert(stk1.is_prefix_of(s2));
                                assert(stk =~= s2.subrange(0, stk.len() as int));
                            }
                            assert(forall|i: int|
                                stk.len() <= i < s2.len() ==> is_marker(#[trigger] s2[i])) by {
                                assert(s2[stk.len() as int] == stk1[stk.len() as int]);
                            }
                        }
                    },
                    PS::Bad(..) => {},
                }
            }
        },
        PE::Fail(..) => {},
    }
}

proof fn lemma_to_b_unparse(t: Seq<TokenV>, pos: nat, stk: Seq<TokenV>)
    requires
        pos <= t.len(),
    ensures
        match spec_to_b(t, pos, stk) {
            StepR::ExpStk(e, p, s) => {
                &&& p <= t.len()
                &&& s.len() >= stk.len()
                &&& (s.len() == stk.len() ==> s == stk && pos < p && unparse_exp(e) == seq![
                    TokenV::To,
                ] + t.subrange(pos as int, p as int))
                &&& (s.len() > stk.len() ==> p == t.len() && stk.is_prefix_of(s) && (forall|
                    i: int,
                |
                    stk.len() <= i < s.len() ==> is_marker(#[trigger] s[i])))
            },
            StepR::Fail(..) => true,
            _ => true,
        },
    decreases t.len() - pos, 3int,
{
    match spec_name(t, pos) {
        PN::Got(nm, p1) => {
            lemma_params_unparse(t, p1);
            let pr = spec_params(t, p1);
            let stk1 = stk.push(TokenV::To);
            lemma_build_unparse(t, pr.1, stk1);
            match spec_build(t, pr.1, stk1) {
                PS::Done(body, p2, s2) => {
                    if s2.len() < stk1.len() {
                        assert(s2 == stk);
                        assert(closer_of(stk1.last()) == TokenV::End);
                        assert(seq![TokenV::Ident(nm)] =~= t.subrange(pos as int, p1 as int));
                        assert(unparse_exp(ExpV::To(nm, pr.0, body)) =~= seq![TokenV::To]
                            + t.subrange(pos as int, p2 as int));
                    } else if s2.len() == stk1.len() {
                        assert(s2 == stk1);
                        assert(stk.is_prefix_of(s2)) by {
                            assert(stk =~= s2.subrange(0, stk.len() as int));
                        }
                    } else {
                        assert(stk.is_prefix_of(s2)) by {
                            assert(stk1.is_prefix_of(s2));
                            assert(stk =~= s2.subrange(0, stk.len() as int));
                        }
                        assert(forall|i: int|
                            stk.len() <= i < s2.len() ==> is_marker(#[trigger] s2[i])) by {
                            assert(s2[stk.len() as int] == stk1[stk.len() as int]);
                        }
                    }
                },
                PS::Bad(..) => {},
            }
        },
        PN::Fail(..) => {},
    }
}

#[verifier::rlimit(100)]
#[verifier::spinoff_prover]
proof fn lemma_stmt_unparse(t: Seq<TokenV>, pos: nat, stk: Seq<TokenV>)
    requires
        pos < t.len(),
    ensures
        stmt_claim(t, pos, stk, spec_stmt(t, pos, stk)),
    decreases t.len() - pos, 4int,
{
    match t[pos as int] {
        TokenV::Repeat => {
            lemma_repeat_b_unparse(t, pos + 1, stk);
            match spec_repeat_b(t, pos + 1, stk) {
                StepR::ExpStk(e, p, s) => {
                    if s.len() == stk.len() {
                        assert(seq![TokenV::Repeat] + t.subrange(pos as int + 1, p as int)
                            =~= t.subrange(pos as int, p as int));
                    }
                },
                _ => {},
            }
        },
        TokenV::If => {
            lemma_if_b_unparse(t, pos + 1, stk);
            match spec_if_b(t, pos + 1, stk) {
                StepR::ExpStk(e, p, s) => {
                    if s.len() == stk.len() {
                        assert(seq![TokenV::If] + t.subrange(pos as int + 1, p as int)
                            =~= t.subrange(pos as int, p as int));
                    }
                },
                _ => {},
            }
        },
        TokenV::To => {
            lemma_to_b_unparse(t, pos + 1, stk);
            match spec_to_b(t, pos + 1, stk) {
                StepR::ExpStk(e, p, s) => {
                    if s.len() == stk.len() {
                        assert(seq![TokenV::To] + t.subrange(pos as int + 1, p as int)
                            =~= t.subrange(pos as int, p as int));
                    }
                },
                _ => {},
            }
        },
        _ => {
            lemma_stmt_unparse_plain(t, pos, stk);
        },
    }
}

/// The statement shapes that recurse into no nested block.
#[verifier::rlimit(100)]
#[verifier::spinoff_prover]
proof fn lemma_stmt_unparse_plain(t: Seq<TokenV>, pos: nat, stk: Seq<TokenV>)
    requires
        pos < t.len(),
        !(t[pos as int] is Repeat),
        !(t[pos as int] is If),
        !(t[pos as int] is To),
    ensures
        stmt_claim(t, pos, stk, spec_stmt(t, pos, stk)),
{
    match t[pos as int] {
        TokenV::Clear => {
            assert(unparse_exp(ExpV::Clear) =~= t.subrange(pos as int, pos as int + 1));
        },
        TokenV::Penup => {
            assert(unparse_exp(ExpV::Penup) =~= t.subrange(pos as int, pos as int + 1));
        },
        TokenV::Pendown => {
            assert(unparse_exp(ExpV::Pendown) =~= t.subrange(pos as int, pos as int + 1));
        },
        TokenV::Setpos => {
            lemma_arg_unparse(t, pos + 1);
            match spec_arg(t, pos + 1) {
                PE::Got(x, p1) => {
                    lemma_arg_unparse(t, p1);
                    match spec_arg(t, p1) {
                        PE::Got(y, p2) => {
                            assert(unparse_exp(ExpV::Setpos(Box::new(x), Box::new(y)))
                                =~= t.subrange(pos as int, p2 as int));
                        },
                        PE::Fail(..) => {},
                    }
                },
                PE::Fail(..) => {},
            }
        },
        TokenV::Setcolor => {
            lemma_set_color_unparse(t, pos + 1);
            match spec_set_color(t, pos + 1) {
                PE::Got(e, p1) => {
                    assert(unparse_exp(e) =~= t.subrange(pos as int, p1 as int));
                },
                PE::Fail(..) => {},
            }
        },
        TokenV::Setpensize => {
            lemma_arg_unparse(t, pos + 1);
            match spec_arg(t, pos + 1) {
                PE::Got(x, p1) => {
                    assert(unparse_exp(ExpV::Setpensize(Box::new(x))) =~= t.subrange(
                        pos as int,
                        p1 as int,
                    ));
                },
                PE::Fail(..) => {},
            }
        },
        TokenV::Forward => {
            lemma_arg_unparse(t, pos + 1);
            match spec_arg(t, pos + 1) {
                PE::Got(x, p1) => {
                    assert(unparse_exp(ExpV::Forward(Box::new(x))) =~= t.subrange(
                        pos as int,
                        p1 as int,
                    ));
                },
                PE::Fail(..) => {},
            }
        },
        TokenV::Back => {
            lemma_arg_unparse(t, pos + 1);
            match spec_arg(t, pos + 1) {
                PE::Got(x, p1) => {
                    assert(unparse_exp(ExpV::Back(Box::new(x))) =~= t.subrange(
                        pos as int,
                        p1 as int,
                    ));
                },
                PE::Fail(..) => {},
            }
        },
        TokenV::Right => {
            lemma_arg_unparse(t, pos + 1);
            match spec_arg(t, pos + 1) {
                PE::Got(x, p1) => {
                    assert(unparse_exp(ExpV::Right(Box::new(x))) =~= t.subrange(
                        pos as int,
                        p1 as int,
                    ));
                },
                PE::Fail(..) => {},
            }
        },
        TokenV::Left => {
            lemma_arg_unparse(t, pos + 1);
            match spec_arg(t, pos + 1) {
                PE::Got(x, p1) => {
                    assert(unparse_exp(ExpV::Left(Box::new(x))) =~= t.subrange(
                        pos as int,
                        p1 as int,
                    ));
                },
                PE::Fail(..) => {},
            }
        },
        TokenV::Arc => {
            lemma_arg_unparse(t, pos + 1);
            match spec_arg(t, pos + 1) {
                PE::Got(x, p1) => {
                    lemma_arg_unparse(t, p1);
                    match spec_arg(t, p1) {
                        PE::Got(y, p2) => {
                            assert(unparse_exp(ExpV::Arc(Box::new(x), Box::new(y))) =~= t.subrange(
                                pos as int,
                                p2 as int,
                            ));
                        },
                        PE::Fail(..) => {},
                    }
                },
                PE::Fail(..) => {},
            }
        },
        TokenV::Circle => {
            lemma_arg_unparse(t, pos + 1);
            match spec_arg(t, pos + 1) {
                PE::Got(x, p1) => {
                    assert(unparse_exp(ExpV::Circle(Box::new(x))) =~= t.subrange(
                        pos as int,
                        p1 as int,
                    ));
                },
                PE::Fail(..) => {},
            }
        },
        TokenV::Ident(x) => {
            lemma_call_args_unparse(t, pos + 1);
            match spec_call_args(t, pos + 1) {
                PA::Got(args, p1) => {
                    assert(unparse_exp(ExpV::Call(x, args)) =~= t.subrange(
                        pos as int,
                        p1 as int,
                    ));
                },
                PA::Fail(..) => {},
            }
        },
        TokenV::RBracket => {},
        TokenV::End => {},
        _ => {},
    }
}

proof fn lemma_build_unparse(t: Seq<TokenV>, pos: nat, stk: Seq<TokenV>)
    requires
        pos <= t.len(),
    ensures
        match spec_build(t, pos, stk) {
            PS::Done(es, p, s) => build_claim(t, pos, stk, es, p, s),
            PS::Bad(..) => true,
        },
    decreases t.len() - pos, 5int,
{
    if pos >= t.len() {
        match spec_build(t, pos, stk) {
            PS::Done(es, p, s) => {
                assert(stk.is_prefix_of(s)) by {
                    assert(stk =~= s.subrange(0, stk.len() as int));
                }
                assert(unparse_seq(es) =~= t.subrange(pos as int, p as int));
            },
            PS::Bad(..) => {},
        }
    } else {
        lemma_stmt_unparse(t, pos, stk);
        match spec_stmt(t, pos, stk) {
            StepR::Fail(..) => {},
            StepR::Closed(p, s) => {
                assert(unparse_seq(Seq::<ExpV>::empty()) =~= t.subrange(pos as int, p as int - 1));
            },
            StepR::Exp(e, p) => {
                assert(adv(t, pos, p) == p);
                lemma_build_unparse(t, p, stk);
                match spec_build(t, p, stk) {
                    PS::Done(es, p2, s2) => {
                        lemma_unparse_cons(e, es);
                        if s2.len() == stk.len() {
                            assert(unparse_exp(e) + unparse_seq(es) =~= t.subrange(
                                pos as int,
                                p2 as int,
                            ));
                        }
                        if s2.len() < stk.len() {
                            assert(unparse_exp(e) + unparse_seq(es) =~= t.subrange(
                                pos as int,
                                p2 - 1,
                            ));
                        }
                    },
                    PS::Bad(..) => {},
                }
            },
            StepR::ExpStk(e, p, s1) => {
                assert(adv(t, pos, p) == p);
                lemma_build_unparse(t, p, s1);
                match spec_build(t, p, s1) {
                    PS::Done(es, p2, s2) => {
                        lemma_unparse_cons(e, es);
                        if s1.len() == stk.len() {
                            // balanced statement: behaves like a plain one
                            if s2.len() == stk.len() {
                                assert(unparse_exp(e) + unparse_seq(es) =~= t.subrange(
                                    pos as int,
                                    p2 as int,
                                ));
                            }
                            if s2.len() < stk.len() {
                                assert(unparse_exp(e) + unparse_seq(es) =~= t.subrange(
                                    pos as int,
                                    p2 - 1,
                                ));
                            }
                        } else {
                            // an unterminated block ran to the end of the stream
                            assert(p == t.len());
                            assert(p2 == t.len());
                            assert(s2 == s1);
                            assert(s2.len() > stk.len());
                        }
                    },
                    PS::Bad(..) => {},
                }
            },
        }
    }
}

proof fn lemma_unparse_cons(e: ExpV, es: Seq<ExpV>)
    ensures
        unparse_seq(seq![e] + es) == unparse_exp(e) + unparse_seq(es),
{
    assert((seq![e] + es)[0] == e);
    assert((seq![e] + es).drop_first() =~= es);
    assert((seq![e] + es).len() > 0);
}

/// The round trip: a token stream the parser accepts is exactly the
/// canonical rendering of the tree it returns, so parsing that canonical
/// rendering gives the same tree back.
pub proof fn lemma_parse_roundtrip(t: Seq<TokenV>)
    requires
        spec_to_ast(t) is Ok,
    ensures
        unparse_seq(spec_to_ast(t)->Ok_0) == t,
        spec_to_ast(unparse_seq(spec_to_ast(t)->Ok_0)) == spec_to_ast(t),
{
    lemma_build_unparse(t, 0, Seq::empty());
    match spec_build(t, 0, Seq::empty()) {
        PS::Done(es, p, s) => {
            if s.len() > 0 {
                assert(is_marker(s[s.len() - 1]));
                assert(s.last() is LBracket || s.last() is To);
                assert(false);
            }
            assert(unparse_seq(es) == t.subrange(0, p as int));
            assert(t.subrange(0, t.len() as int) =~= t);
        },
        PS::Bad(..) => {
            assert(false);
        },
    }
}

} // verus!
