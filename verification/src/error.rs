//! The closed error taxonomy. Every error is fatal to the run: the first
//! one anywhere aborts evaluation and propagates unchanged to the caller.

use vstd::prelude::*;
use crate::tokens::{tokens_view, Token, TokenV};

verus! {

/// An interpretation error.
#[derive(Clone, Debug, PartialEq)]
pub enum LogoError {
    /// A node appeared where only a numeric-evaluable node is expected,
    /// or a procedure call named an unknown procedure.
    UndefinedExpression(String),
    /// An arithmetic operator slot held an unexpected node.
    NoSuchOperator(String),
    /// A variable reference resolved against an environment lacking it.
    UndefinedParameter(String),
    /// Malformed token stream; carries the unconsumed token context.
    SyntaxError { err: String, tokens: Vec<Token> },
    /// The command log would exceed the configured ceiling.
    RuntimeBudgetExceeded(usize),
    /// Call depth exceeded the fixed ceiling.
    RecursionBudgetExceeded(usize),
}

/// The mathematical image of a [`LogoError`].
pub ghost enum ErrV {
    UndefinedExpression(Seq<char>),
    NoSuchOperator(Seq<char>),
    UndefinedParameter(Seq<char>),
    Syntax(Seq<char>, Seq<TokenV>),
    RuntimeBudget(int),
    RecursionBudget(int),
}

/// Does the error value realize the spec-level error?
pub open spec fn err_matches(e: LogoError, v: ErrV) -> bool {
    match (e, v) {
        (LogoError::UndefinedExpression(s), ErrV::UndefinedExpression(t)) => s@ == t,
        (LogoError::NoSuchOperator(s), ErrV::NoSuchOperator(t)) => s@ == t,
        (LogoError::UndefinedParameter(s), ErrV::UndefinedParameter(t)) => s@ == t,
        (LogoError::SyntaxError { err, tokens }, ErrV::Syntax(m, ts)) => err@ == m && tokens_view(
            tokens@,
        ) == ts,
        (LogoError::RuntimeBudgetExceeded(n), ErrV::RuntimeBudget(m)) => n as int == m,
        (LogoError::RecursionBudgetExceeded(n), ErrV::RecursionBudget(m)) => n as int == m,
        _ => false,
    }
}

/// Does an executable result realize the spec-level result?
pub open spec fn res_matches(r: Result<(), LogoError>, v: Result<(), ErrV>) -> bool {
    match (r, v) {
        (Ok(()), Ok(())) => true,
        (Err(e), Err(ev)) => err_matches(e, ev),
        _ => false,
    }
}

} // verus!
