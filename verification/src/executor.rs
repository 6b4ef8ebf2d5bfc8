//! The executor: walks the expression tree, keeps the table of user-defined
//! procedures, evaluates numeric and boolean expressions, drives control
//! flow, and invokes turtle operations.
//!
//! The whole walk is specified by the spec-level interpreter (`exec_seq`,
//! `exec_step`, `exec_repeat`): the executable walker is proved to return
//! exactly its result and leave turtle and procedure table in exactly its
//! state. Call depth is bounded by a fixed recursion ceiling; iteration
//! (`repeat`) does not count toward it.

use vstd::prelude::*;
use vstd::string::StringExecFns;
use crate::ast::{
    exp_view, exps_dup, exps_view, lemma_exps_view, strs_dup, strs_view, Expression, ExpV,
};
use crate::error::{err_matches, res_matches, ErrV, LogoError};
use crate::num::{fx_add, fx_div, fx_mul, fx_sub, fx_neg, num, tdiv, Num};
use crate::turtle::{
    spec_arc, spec_circle, spec_clear, spec_forward, spec_pensize, spec_position, spec_right,
    spec_setcolor, turtle_wf, Turtle, TurtleV,
};

verus! {

/// A user-defined procedure: ordered parameter names and a body.
#[derive(Debug)]
pub struct Function {
    pub args: Vec<String>,
    pub exps: Vec<Expression>,
}

/// The mathematical image of a [`Function`].
pub ghost struct FuncV {
    pub params: Seq<Seq<char>>,
    pub body: Seq<ExpV>,
}

pub open spec fn func_view(f: Function) -> FuncV {
    FuncV { params: strs_view(f.args@), body: exps_view(f.exps@) }
}

/// The procedure table as a map; a later definition of a name replaces an
/// earlier one.
pub open spec fn table_view(s: Seq<(String, Function)>) -> Map<Seq<char>, FuncV>
    decreases s.len(),
{
    if s.len() == 0 {
        Map::empty()
    } else {
        table_view(s.drop_last()).insert(s.last().0@, func_view(s.last().1))
    }
}

/// A call-local argument environment as a map; a later binding of a name
/// replaces an earlier one.
pub open spec fn env_view(s: Seq<(String, Num)>) -> Map<Seq<char>, Num>
    decreases s.len(),
{
    if s.len() == 0 {
        Map::empty()
    } else {
        env_view(s.drop_last()).insert(s.last().0@, s.last().1)
    }
}

pub open spec fn env_opt_view(a: Option<Vec<(String, Num)>>) -> Option<Map<Seq<char>, Num>> {
    match a {
        None => None,
        Some(v) => Some(env_view(v@)),
    }
}

/// Spec-level interpreter state: the turtle and the procedure table.
#[verifier::ext_equal]
pub ghost struct EState {
    pub turtle: TurtleV,
    pub funcs: Map<Seq<char>, FuncV>,
}

// ---------------------------------------------------------------------------
// Expression evaluation (spec)
// ---------------------------------------------------------------------------

/// The variant name of a node, used in diagnostics.
pub open spec fn tag_of(e: ExpV) -> Seq<char> {
    match e {
        ExpV::Clear => "Clear"@,
        ExpV::Setpos(..) => "Setpos"@,
        ExpV::Penup => "Penup"@,
        ExpV::Pendown => "Pendown"@,
        ExpV::Setcolor(..) => "Setcolor"@,
        ExpV::Setpensize(..) => "Setpensize"@,
        ExpV::Forward(..) => "Forward"@,
        ExpV::Back(..) => "Back"@,
        ExpV::Right(..) => "Right"@,
        ExpV::Left(..) => "Left"@,
        ExpV::Arc(..) => "Arc"@,
        ExpV::Circle(..) => "Circle"@,
        ExpV::Repeat(..) => "Repeat"@,
        ExpV::To(..) => "To"@,
        ExpV::Call(..) => "Call"@,
        ExpV::Number(..) => "Number"@,
        ExpV::Var(..) => "Var"@,
        ExpV::If(..) => "If"@,
        ExpV::Condition(..) => "Condition"@,
        ExpV::Less => "Less"@,
        ExpV::Gtr => "Gtr"@,
        ExpV::Eq => "Eq"@,
        ExpV::Neq => "Neq"@,
        ExpV::Math(..) => "Math"@,
        ExpV::Add => "Add"@,
        ExpV::Sub => "Sub"@,
        ExpV::Mul => "Mul"@,
        ExpV::Div => "Div"@,
    }
}

/// Value of an arithmetic node: both operands are evaluated first (in
/// order), then the operator is applied; a non-operator in the operator
/// slot is reported after operand errors.
pub open spec fn spec_math(l: ExpV, op: ExpV, r: ExpV, env: Option<Map<Seq<char>, Num>>) -> Result<
    Num,
    ErrV,
> {
    match spec_eval(l, env) {
        Err(e) => Err(e),
        Ok(a) => match spec_eval(r, env) {
            Err(e) => Err(e),
            Ok(b) => match op {
                ExpV::Add => Ok(num(fx_add(a@, b@))),
                ExpV::Sub => Ok(num(fx_sub(a@, b@))),
                ExpV::Mul => Ok(num(fx_mul(a@, b@))),
                ExpV::Div => Ok(num(fx_div(a@, b@))),
                other => Err(ErrV::NoSuchOperator(tag_of(other))),
            },
        },
    }
}

/// Value of a numeric-evaluable node: a literal, a variable resolved in the
/// call-local environment, or one level of binary arithmetic. Anything else
/// is an undefined expression.
pub open spec fn spec_eval(e: ExpV, env: Option<Map<Seq<char>, Num>>) -> Result<Num, ErrV>
    decreases e,
{
    match e {
        ExpV::Number(n) => Ok(num(n)),
        ExpV::Var(id) => match env {
            None => Err(ErrV::UndefinedParameter(id)),
            Some(m) => if m.contains_key(id) {
                Ok(m[id])
            } else {
                Err(ErrV::UndefinedParameter(id))
            },
        },
        ExpV::Math(l, op, r) => match spec_eval(*l, env) {
            Err(e1) => Err(e1),
            Ok(a) => match spec_eval(*r, env) {
                Err(e1) => Err(e1),
                Ok(b) => match *op {
                    ExpV::Add => Ok(num(fx_add(a@, b@))),
                    ExpV::Sub => Ok(num(fx_sub(a@, b@))),
                    ExpV::Mul => Ok(num(fx_mul(a@, b@))),
                    ExpV::Div => Ok(num(fx_div(a@, b@))),
                    other => Err(ErrV::NoSuchOperator(tag_of(other))),
                },
            },
        },
        other => Err(ErrV::UndefinedExpression(tag_of(other))),
    }
}

/// Value of a comparison node: both operands are evaluated first (in
/// order), then the operator is applied; a non-comparison node in the
/// operator slot is a no-such-operator error. A node that is no comparison
/// at all is simply false.
pub open spec fn spec_cond(c: ExpV, env: Option<Map<Seq<char>, Num>>) -> Result<bool, ErrV> {
    match c {
        ExpV::Condition(l, op, r) => match spec_eval(*l, env) {
            Err(e) => Err(e),
            Ok(a) => match spec_eval(*r, env) {
                Err(e) => Err(e),
                Ok(b) => match *op {
                    ExpV::Less => Ok(a@ < b@),
                    ExpV::Gtr => Ok(a@ > b@),
                    ExpV::Eq => Ok(a@ == b@),
                    ExpV::Neq => Ok(a@ != b@),
                    other => Err(ErrV::NoSuchOperator(tag_of(other))),
                },
            },
        },
        _ => Ok(false),
    }
}

/// Clamp-then-truncate conversion of a color channel to a byte: whole units
/// rounded toward zero, saturated into `[0, 255]`.
pub open spec fn byte_of(v: int) -> int {
    let u = tdiv(v, 10000);
    if u < 0 {
        0
    } else if u > 255 {
        255
    } else {
        u
    }
}

/// The three channels of a color statement, evaluated in order.
pub open spec fn spec_color(r: ExpV, g: ExpV, b: ExpV, env: Option<Map<Seq<char>, Num>>) -> Result<
    (u8, u8, u8),
    ErrV,
> {
    match spec_eval(r, env) {
        Err(e) => Err(e),
        Ok(rv) => match spec_eval(g, env) {
            Err(e) => Err(e),
            Ok(gv) => match spec_eval(b, env) {
                Err(e) => Err(e),
                Ok(bv) => Ok(
                    (byte_of(rv@) as u8, byte_of(gv@) as u8, byte_of(bv@) as u8),
                ),
            },
        },
    }
}

/// Repetition count of an evaluated value: whole units rounded toward zero,
/// negative values giving zero.
pub open spec fn count_of(v: int) -> nat {
    let u = tdiv(v, 10000);
    if u <= 0 {
        0
    } else {
        u as nat
    }
}

/// The fresh argument environment of a call: evaluated call-site arguments
/// zipped positionally against parameter names (the shorter side wins).
pub open spec fn spec_bind(
    params: Seq<Seq<char>>,
    argexps: Seq<ExpV>,
    env: Option<Map<Seq<char>, Num>>,
    acc: Map<Seq<char>, Num>,
) -> Result<Map<Seq<char>, Num>, ErrV>
    decreases argexps.len(),
{
    if argexps.len() == 0 || params.len() == 0 {
        Ok(acc)
    } else {
        match spec_eval(argexps[0], env) {
            Err(e) => Err(e),
            Ok(v) => spec_bind(
                params.drop_first(),
                argexps.drop_first(),
                env,
                acc.insert(params[0], v),
            ),
        }
    }
}

// ---------------------------------------------------------------------------
// Sizes for termination
// ---------------------------------------------------------------------------

pub open spec fn exp_size(e: ExpV) -> nat
    decreases e,
{
    match e {
        ExpV::Repeat(_, body) => 1 + seq_size(body),
        ExpV::If(_, body) => 1 + seq_size(body),
        ExpV::To(_, _, body) => 1 + seq_size(body),
        _ => 1,
    }
}

pub open spec fn seq_size(s: Seq<ExpV>) -> nat
    decreases s,
{
    if s.len() == 0 {
        0
    } else {
        exp_size(s[0]) + seq_size(s.drop_first())
    }
}

pub proof fn lemma_seq_size_elem(s: Seq<ExpV>, i: int)
    requires
        0 <= i < s.len(),
    ensures
        seq_size(s) >= exp_size(s[i]),
    decreases s,
{
    if i > 0 {
        lemma_seq_size_elem(s.drop_first(), i - 1);
    }
}

// ---------------------------------------------------------------------------
// The spec-level interpreter
// ---------------------------------------------------------------------------

/// Execute a statement sequence: statements in order, the first error
/// aborting with the state reached so far. A call depth beyond the ceiling
/// is rejected on entry.
pub open spec fn exec_seq(
    ast: Seq<ExpV>,
    st: EState,
    env: Option<Map<Seq<char>, Num>>,
    depth: int,
    rb: int,
) -> (Result<(), ErrV>, EState)
    decreases rb + 1 - depth, seq_size(ast), 1int,
{
    if depth > rb {
        (Err(ErrV::RecursionBudget(rb)), st)
    } else if ast.len() == 0 {
        (Ok(()), st)
    } else {
        let stepped = exec_step(ast[0], st, env, depth, rb);
        match stepped.0 {
            Err(e) => (Err(e), stepped.1),
            Ok(()) => exec_seq(ast.drop_first(), stepped.1, env, depth, rb),
        }
    }
}

/// Execute one statement. Nodes that are no statement (bare values and
/// operators) are ignored.
pub open spec fn exec_step(
    e: ExpV,
    st: EState,
    env: Option<Map<Seq<char>, Num>>,
    depth: int,
    rb: int,
) -> (Result<(), ErrV>, EState)
    decreases rb + 1 - depth, exp_size(e), 0int,
{
    if depth > rb {
        (Err(ErrV::RecursionBudget(rb)), st)
    } else {
        match e {
            ExpV::Clear => (Ok(()), EState { turtle: spec_clear(st.turtle), ..st }),
            ExpV::Penup => (
                Ok(()),
                EState { turtle: TurtleV { pendown: false, ..st.turtle }, ..st },
            ),
            ExpV::Pendown => (
                Ok(()),
                EState { turtle: TurtleV { pendown: true, ..st.turtle }, ..st },
            ),
            ExpV::Setpos(x, y) => match spec_eval(*x, env) {
                Err(e1) => (Err(e1), st),
                Ok(a) => match spec_eval(*y, env) {
                    Err(e1) => (Err(e1), st),
                    Ok(b) => lift(spec_position(st.turtle, a, b), st),
                },
            },
            ExpV::Setcolor(r, g, b) => match spec_color(*r, *g, *b, env) {
                Err(e1) => (Err(e1), st),
                Ok(c) => (Ok(()), EState { turtle: spec_setcolor(st.turtle, c), ..st }),
            },
            ExpV::Forward(arg) => match spec_eval(*arg, env) {
                Err(e1) => (Err(e1), st),
                Ok(v) => lift(spec_forward(st.turtle, v), st),
            },
            ExpV::Back(arg) => match spec_eval(*arg, env) {
                Err(e1) => (Err(e1), st),
                Ok(v) => lift(spec_forward(st.turtle, num(fx_neg(v@))), st),
            },
            ExpV::Right(arg) => match spec_eval(*arg, env) {
                Err(e1) => (Err(e1), st),
                Ok(v) => lift(spec_right(st.turtle, v), st),
            },
            ExpV::Left(arg) => match spec_eval(*arg, env) {
                Err(e1) => (Err(e1), st),
                Ok(v) => lift(spec_right(st.turtle, num(fx_neg(v@))), st),
            },
            ExpV::Arc(x, y) => match spec_eval(*x, env) {
                Err(e1) => (Err(e1), st),
                Ok(a) => match spec_eval(*y, env) {
                    Err(e1) => (Err(e1), st),
                    Ok(b) => lift(spec_arc(st.turtle, a, b), st),
                },
            },
            ExpV::Circle(x) => match spec_eval(*x, env) {
                Err(e1) => (Err(e1), st),
                Ok(v) => lift(spec_circle(st.turtle, v), st),
            },
            ExpV::Setpensize(x) => match spec_eval(*x, env) {
                Err(e1) => (Err(e1), st),
                Ok(v) => lift(spec_pensize(st.turtle, v), st),
            },
            ExpV::Repeat(count, body) => match spec_eval(*count, env) {
                Err(e1) => (Err(e1), st),
                Ok(v) => exec_repeat(body, count_of(v@), st, env, depth, rb),
            },
            ExpV::If(cond, body) => match spec_cond(*cond, env) {
                Err(e1) => (Err(e1), st),
                Ok(true) => exec_seq(body, st, env, depth, rb),
                Ok(false) => (Ok(()), st),
            },
            ExpV::To(name, params, body) => (
                Ok(()),
                EState { funcs: st.funcs.insert(name, FuncV { params, body }), ..st },
            ),
            ExpV::Call(name, argexps) => if !st.funcs.contains_key(name) {
                (Err(ErrV::UndefinedExpression(name)), st)
            } else {
                let f = st.funcs[name];
                match spec_bind(f.params, argexps, env, Map::empty()) {
                    Err(e1) => (Err(e1), st),
                    Ok(newenv) => exec_seq(f.body, st, Some(newenv), depth + 1, rb),
                }
            },
            _ => (Ok(()), st),
        }
    }
}

/// Execute a repetition body `k` times, each iteration against the state
/// left by the previous one.
pub open spec fn exec_repeat(
    body: Seq<ExpV>,
    k: nat,
    st: EState,
    env: Option<Map<Seq<char>, Num>>,
    depth: int,
    rb: int,
) -> (Result<(), ErrV>, EState)
    decreases rb + 1 - depth, seq_size(body), k + 2,
{
    if k == 0 {
        (Ok(()), st)
    } else {
        let once = exec_seq(body, st, env, depth, rb);
        match once.0 {
            Err(e) => (Err(e), once.1),
            Ok(()) => exec_repeat(body, (k - 1) as nat, once.1, env, depth, rb),
        }
    }
}

/// Put a turtle-operation result back into interpreter state.
pub open spec fn lift(r: (Result<(), ErrV>, TurtleV), st: EState) -> (Result<(), ErrV>, EState) {
    (r.0, EState { turtle: r.1, ..st })
}

/// The effect of one procedure call: name lookup, argument binding, then
/// the body one level deeper.
pub open spec fn spec_call(
    name: Seq<char>,
    argexps: Seq<ExpV>,
    st: EState,
    env: Option<Map<Seq<char>, Num>>,
    depth: int,
    rb: int,
) -> (Result<(), ErrV>, EState) {
    if !st.funcs.contains_key(name) {
        (Err(ErrV::UndefinedExpression(name)), st)
    } else {
        let f = st.funcs[name];
        match spec_bind(f.params, argexps, env, Map::empty()) {
            Err(e1) => (Err(e1), st),
            Ok(newenv) => exec_seq(f.body, st, Some(newenv), depth + 1, rb),
        }
    }
}

// ---------------------------------------------------------------------------
// Result matching
// ---------------------------------------------------------------------------

pub open spec fn eval_matches(r: Result<Num, LogoError>, v: Result<Num, ErrV>) -> bool {
    match (r, v) {
        (Ok(a), Ok(b)) => a == b,
        (Err(e), Err(ev)) => err_matches(e, ev),
        _ => false,
    }
}

pub open spec fn bool_matches(r: Result<bool, LogoError>, v: Result<bool, ErrV>) -> bool {
    match (r, v) {
        (Ok(a), Ok(b)) => a == b,
        (Err(e), Err(ev)) => err_matches(e, ev),
        _ => false,
    }
}

pub open spec fn color_matches(r: Result<(u8, u8, u8), LogoError>, v: Result<
    (u8, u8, u8),
    ErrV,
>) -> bool {
    match (r, v) {
        (Ok(a), Ok(b)) => a == b,
        (Err(e), Err(ev)) => err_matches(e, ev),
        _ => false,
    }
}

// ---------------------------------------------------------------------------
// The executable executor
// ---------------------------------------------------------------------------

/// Walks the tree and owns the procedure table.
pub struct Executor {
    functions: Vec<(String, Function)>,
    recursion_budget: usize,
}

/// The mathematical image of an [`Executor`].
pub ghost struct ExecV {
    pub functions: Map<Seq<char>, FuncV>,
    pub recursion_budget: int,
}

impl View for Executor {
    type V = ExecV;

    closed spec fn view(&self) -> ExecV {
        ExecV {
            functions: table_view(self.functions@),
            recursion_budget: self.recursion_budget as int,
        }
    }
}

/// The variant name of a node, for diagnostics.
fn expr_tag(e: &Expression) -> (r: String)
    ensures
        r@ == tag_of(exp_view(*e)),
{
    match e {
        Expression::Clear => String::from_str("Clear"),
        Expression::Setpos(..) => String::from_str("Setpos"),
        Expression::Penup => String::from_str("Penup"),
        Expression::Pendown => String::from_str("Pendown"),
        Expression::Setcolor(..) => String::from_str("Setcolor"),
        Expression::Setpensize(..) => String::from_str("Setpensize"),
        Expression::Forward(..) => String::from_str("Forward"),
        Expression::Back(..) => String::from_str("Back"),
        Expression::Right(..) => String::from_str("Right"),
        Expression::Left(..) => String::from_str("Left"),
        Expression::Arc(..) => String::from_str("Arc"),
        Expression::Circle(..) => String::from_str("Circle"),
        Expression::Repeat(..) => String::from_str("Repeat"),
        Expression::To(..) => String::from_str("To"),
        Expression::Call(..) => String::from_str("Call"),
        Expression::Number(..) => String::from_str("Number"),
        Expression::Var(..) => String::from_str("Var"),
        Expression::If(..) => String::from_str("If"),
        Expression::Condition(..) => String::from_str("Condition"),
        Expression::Less => String::from_str("Less"),
        Expression::Gtr => String::from_str("Gtr"),
        Expression::Eq => String::from_str("Eq"),
        Expression::Neq => String::from_str("Neq"),
        Expression::Math(..) => String::from_str("Math"),
        Expression::Add => String::from_str("Add"),
        Expression::Sub => String::from_str("Sub"),
        Expression::Mul => String::from_str("Mul"),
        Expression::Div => String::from_str("Div"),
    }
}

/// Resolve a variable in the current argument environment, last binding
/// first.
fn env_lookup(id: &String, env: &Vec<(String, Num)>) -> (r: Option<Num>)
    ensures
        match r {
            Some(v) => env_view(env@).contains_key(id@) && env_view(env@)[id@] == v,
            None => !env_view(env@).contains_key(id@),
        },
{
    proof {
        assert(env@.take(env@.len() as int) =~= env@);
    }
    let mut i: usize = env.len();
    while i > 0
        invariant
            i <= env@.len(),
            env_view(env@).contains_key(id@) == env_view(env@.take(i as int)).contains_key(id@),
            env_view(env@).contains_key(id@) ==> env_view(env@)[id@] == env_view(
                env@.take(i as int),
            )[id@],
        decreases i,
    {
        proof {
            assert(env@.take(i as int).drop_last() =~= env@.take(i - 1));
            assert(env@.take(i as int).last() == env@[i - 1]);
        }
        if env[i - 1].0 == *id {
            return Some(env[i - 1].1);
        }
        i -= 1;
    }
    proof {
        assert(env@.take(0) =~= Seq::<(String, Num)>::empty());
    }
    None
}

impl Function {
    fn new(args: Vec<String>, exps: Vec<Expression>) -> (r: Function)
        ensures
            func_view(r) == func_view(Function { args, exps }),
    {
        Function { args, exps }
    }
}

impl Executor {
    /// A fresh executor: no procedures, recursion ceiling 1000.
    pub fn new() -> (r: Executor)
        ensures
            r@.functions == Map::<Seq<char>, FuncV>::empty(),
            r@.recursion_budget == 1000,
    {
        Executor { functions: Vec::new(), recursion_budget: 1000 }
    }

    /// Define (or redefine) a procedure.
    fn add_function(&mut self, ident: String, function: Function)
        ensures
            final(self)@.functions == old(self)@.functions.insert(ident@, func_view(function)),
            final(self)@.recursion_budget == old(self)@.recursion_budget,
    {
        let ghost pre = self.functions@;
        let ghost fv = func_view(function);
        let ghost idv = ident@;
        self.functions.push((ident, function));
        proof {
            assert(self.functions@.drop_last() =~= pre);
            assert(table_view(self.functions@) == table_view(pre).insert(idv, fv));
        }
    }

    /// Look a procedure up, returning copies of its parameter list and body.
    fn find_function(&self, ident: &String) -> (r: Option<(Vec<String>, Vec<Expression>)>)
        ensures
            match r {
                Some((ps, body)) => self@.functions.contains_key(ident@) && strs_view(ps@)
                    == self@.functions[ident@].params && exps_view(body@)
                    == self@.functions[ident@].body,
                None => !self@.functions.contains_key(ident@),
            },
    {
        let ghost fv = self.functions@;
        proof {
            assert(fv.take(fv.len() as int) =~= fv);
        }
        let mut i: usize = self.functions.len();
        while i > 0
            invariant
                i <= fv.len(),
                fv == self.functions@,
                table_view(fv).contains_key(ident@) == table_view(
                    fv.take(i as int),
                ).contains_key(ident@),
                table_view(fv).contains_key(ident@) ==> table_view(fv)[ident@] == table_view(
                    fv.take(i as int),
                )[ident@],
            decreases i,
        {
            proof {
                assert(fv.take(i as int).drop_last() =~= fv.take(i - 1));
                assert(fv.take(i as int).last() == fv[i - 1]);
            }
            if self.functions[i - 1].0 == *ident {
                let ps = strs_dup(&self.functions[i - 1].1.args);
                let body = exps_dup(&self.functions[i - 1].1.exps);
                proof {
                    assert(table_view(fv.take(i as int)) == table_view(fv.take(i - 1)).insert(
                        fv[i - 1].0@,
                        func_view(fv[i - 1].1),
                    ));
                    assert(fv[i - 1].0@ == ident@);
                    assert(self@.functions[ident@] == func_view(fv[i - 1].1));
                }
                return Some((ps, body));
            }
            i -= 1;
        }
        proof {
            assert(fv.take(0) =~= Seq::<(String, Function)>::empty());
        }
        None
    }

    /// Resolve a variable reference.
    fn eval_var(id: &String, args: &Option<Vec<(String, Num)>>) -> (r: Result<Num, LogoError>)
        ensures
            eval_matches(r, spec_eval(ExpV::Var(id@), env_opt_view(*args))),
    {
        match args {
            None => Err(LogoError::UndefinedParameter(id.clone())),
            Some(env) => match env_lookup(id, env) {
                Some(v) => Ok(v),
                None => Err(LogoError::UndefinedParameter(id.clone())),
            },
        }
    }

    /// Evaluate a numeric-evaluable node.
    pub fn eval_arg(&self, arg: &Expression, args: &Option<Vec<(String, Num)>>) -> (r: Result<
        Num,
        LogoError,
    >)
        ensures
            eval_matches(r, spec_eval(exp_view(*arg), env_opt_view(*args))),
        decreases *arg,
    {
        match arg {
            Expression::Number(n) => {
                proof {
                    assert(num((*n)@) == *n);
                }
                Ok(*n)
            },
            Expression::Var(id) => Self::eval_var(id, args),
            Expression::Math(l, op, r) => {
                proof {
                    assert(exp_view(*arg) == ExpV::Math(
                        Box::new(exp_view(**l)),
                        Box::new(exp_view(**op)),
                        Box::new(exp_view(**r)),
                    ));
                }
                let a = match self.eval_arg(l, args) {
                    Ok(v) => v,
                    Err(e) => {
                        return Err(e);
                    },
                };
                let b = match self.eval_arg(r, args) {
                    Ok(v) => v,
                    Err(e) => {
                        return Err(e);
                    },
                };
                match &**op {
                    Expression::Add => Ok(a.add(b)),
                    Expression::Sub => Ok(a.sub(b)),
                    Expression::Mul => Ok(a.mul(b)),
                    Expression::Div => Ok(a.div(b)),
                    other => Err(LogoError::NoSuchOperator(expr_tag(other))),
                }
            },
            exp => Err(LogoError::UndefinedExpression(expr_tag(exp))),
        }
    }

    /// Evaluate one level of binary arithmetic.
    pub fn eval_math(
        &self,
        lhs: &Expression,
        op: &Expression,
        rhs: &Expression,
        args: &Option<Vec<(String, Num)>>,
    ) -> (r: Result<Num, LogoError>)
        ensures
            eval_matches(
                r,
                spec_math(exp_view(*lhs), exp_view(*op), exp_view(*rhs), env_opt_view(*args)),
            ),
    {
        let a = match self.eval_arg(lhs, args) {
            Ok(v) => v,
            Err(e) => {
                return Err(e);
            },
        };
        let b = match self.eval_arg(rhs, args) {
            Ok(v) => v,
            Err(e) => {
                return Err(e);
            },
        };
        match op {
            Expression::Add => Ok(a.add(b)),
            Expression::Sub => Ok(a.sub(b)),
            Expression::Mul => Ok(a.mul(b)),
            Expression::Div => Ok(a.div(b)),
            other => Err(LogoError::NoSuchOperator(expr_tag(other))),
        }
    }

    /// Evaluate a comparison.
    fn eval_condition(&self, condition: &Expression, args: &Option<Vec<(String, Num)>>) -> (r:
        Result<bool, LogoError>)
        ensures
            bool_matches(r, spec_cond(exp_view(*condition), env_opt_view(*args))),
    {
        match condition {
            Expression::Condition(l, op, r) => {
                proof {
                    assert(exp_view(*condition) == ExpV::Condition(
                        Box::new(exp_view(**l)),
                        Box::new(exp_view(**op)),
                        Box::new(exp_view(**r)),
                    ));
                }
                let a = match self.eval_arg(l, args) {
                    Ok(v) => v,
                    Err(e) => {
                        return Err(e);
                    },
                };
                let b = match self.eval_arg(r, args) {
                    Ok(v) => v,
                    Err(e) => {
                        return Err(e);
                    },
                };
                match &**op {
                    Expression::Less => Ok(a.raw < b.raw),
                    Expression::Gtr => Ok(a.raw > b.raw),
                    Expression::Eq => Ok(a.raw == b.raw),
                    Expression::Neq => Ok(a.raw != b.raw),
                    other => Err(LogoError::NoSuchOperator(expr_tag(other))),
                }
            },
            _ => Ok(false),
        }
    }

    /// Evaluate the three color channels.
    fn eval_color(
        &self,
        r: &Expression,
        g: &Expression,
        b: &Expression,
        args: &Option<Vec<(String, Num)>>,
    ) -> (res: Result<(u8, u8, u8), LogoError>)
        ensures
            color_matches(
                res,
                spec_color(exp_view(*r), exp_view(*g), exp_view(*b), env_opt_view(*args)),
            ),
    {
        let rv = match self.eval_arg(r, args) {
            Ok(v) => v,
            Err(e) => {
                return Err(e);
            },
        };
        let gv = match self.eval_arg(g, args) {
            Ok(v) => v,
            Err(e) => {
                return Err(e);
            },
        };
        let bv = match self.eval_arg(b, args) {
            Ok(v) => v,
            Err(e) => {
                return Err(e);
            },
        };
        Ok((to_byte(rv), to_byte(gv), to_byte(bv)))
    }
}

impl Executor {
    /// Walk a statement sequence against the turtle: the executable walker
    /// returns exactly what the spec-level interpreter returns and leaves
    /// turtle and procedure table in exactly its state.
    #[verifier::rlimit(100)]
    #[verifier::loop_isolation(false)]
    fn run_ast(
        &mut self,
        ast: &Vec<Expression>,
        turtle: &mut Turtle,
        args: &Option<Vec<(String, Num)>>,
        depth: usize,
    ) -> (r: Result<(), LogoError>)
        requires
            turtle_wf(old(turtle)@),
        ensures
            ({
                let pre = EState { turtle: old(turtle)@, funcs: old(self)@.functions };
                let post = exec_seq(
                    exps_view(ast@),
                    pre,
                    env_opt_view(*args),
                    depth as int,
                    old(self)@.recursion_budget,
                );
                &&& res_matches(r, post.0)
                &&& final(turtle)@ == post.1.turtle
                &&& final(self)@.functions == post.1.funcs
            }),
            final(self)@.recursion_budget == old(self)@.recursion_budget,
            turtle_wf(final(turtle)@),
        decreases self@.recursion_budget + 1 - depth, seq_size(exps_view(ast@)) + 1,
    {
        let ghost pre = EState { turtle: turtle@, funcs: self@.functions };
        let ghost env = env_opt_view(*args);
        let ghost rb = self@.recursion_budget;
        let ghost astv = exps_view(ast@);
        let ghost dd = depth as int;
        proof {
            lemma_exps_view(ast@);
        }
        if depth > self.recursion_budget {
            return Err(LogoError::RecursionBudgetExceeded(self.recursion_budget));
        }
        let n = ast.len();
        let mut i: usize = 0;
        proof {
            assert(astv.skip(0) =~= astv);
        }
        while i < n
            invariant
                i <= n,
                n == ast@.len(),
                astv == exps_view(ast@),
                astv.len() == n,
                turtle_wf(turtle@),
                self@.recursion_budget == rb,
                depth <= rb,
                dd == depth as int,
                env == env_opt_view(*args),
                exec_seq(
                    astv.skip(i as int),
                    EState { turtle: turtle@, funcs: self@.functions },
                    env,
                    dd,
                    rb,
                ) == exec_seq(astv, pre, env, dd, rb),
            decreases n - i,
        {
            let ghost cur = EState { turtle: turtle@, funcs: self@.functions };
            let ghost restv = astv.skip(i as int);
            let ghost e0 = restv[0];
            proof {
                lemma_exps_view(ast@);
                assert(restv[0] == exp_view(ast@[i as int]));
                assert(restv.drop_first() =~= astv.skip(i + 1));
                lemma_seq_size_elem(astv, i as int);
                assert(seq_size(astv.skip(i as int)) >= exp_size(restv[0])) by {
                    lemma_seq_size_elem(astv.skip(i as int), 0);
                }
                let stepped = exec_step(e0, cur, env, dd, rb);
                if stepped.0 is Err {
                    assert(exec_seq(restv, cur, env, dd, rb) == (stepped.0, stepped.1));
                } else {
                    assert(exec_seq(restv, cur, env, dd, rb) == exec_seq(
                        astv.skip(i + 1),
                        stepped.1,
                        env,
                        dd,
                        rb,
                    ));
                }
            }
            match &ast[i] {
                Expression::Clear => {
                    turtle.clear();
                    proof {
                        assert(exec_step(e0, cur, env, dd, rb) == (
                            Result::<(), ErrV>::Ok(()),
                            EState { turtle: turtle@, funcs: self@.functions },
                        ));
                    }
                },
                Expression::Penup => {
                    turtle.pendown = false;
                    proof {
                        assert(EState { turtle: turtle@, funcs: self@.functions } =~= exec_step(
                            e0,
                            cur,
                            env,
                            dd,
                            rb,
                        ).1);
                    }
                },
                Expression::Pendown => {
                    turtle.pendown = true;
                    proof {
                        assert(EState { turtle: turtle@, funcs: self@.functions } =~= exec_step(
                            e0,
                            cur,
                            env,
                            dd,
                            rb,
                        ).1);
                    }
                },
                Expression::Setpos(x, y) => {
                    let a = match self.eval_arg(x, args) {
                        Ok(v) => v,
                        Err(e) => {
                            return Err(e);
                        },
                    };
                    let b = match self.eval_arg(y, args) {
                        Ok(v) => v,
                        Err(e) => {
                            return Err(e);
                        },
                    };
                    match turtle.position(a, b) {
                        Ok(()) => {},
                        Err(e) => {
                            return Err(e);
                        },
                    }
                },
                Expression::Setcolor(cr, cg, cb) => {
                    let c = match self.eval_color(cr, cg, cb, args) {
                        Ok(v) => v,
                        Err(e) => {
                            return Err(e);
                        },
                    };
                    turtle.setcolor(c);
                    proof {
                        assert(EState { turtle: turtle@, funcs: self@.functions } =~= exec_step(
                            e0,
                            cur,
                            env,
                            dd,
                            rb,
                        ).1);
                    }
                },
                Expression::Forward(arg) => {
                    let v = match self.eval_arg(arg, args) {
                        Ok(v) => v,
                        Err(e) => {
                            return Err(e);
                        },
                    };
                    match turtle.forward(v) {
                        Ok(()) => {},
                        Err(e) => {
                            return Err(e);
                        },
                    }
                },
                Expression::Back(arg) => {
                    let v = match self.eval_arg(arg, args) {
                        Ok(v) => v,
                        Err(e) => {
                            return Err(e);
                        },
                    };
                    match turtle.back(v) {
                        Ok(()) => {},
                        Err(e) => {
                            return Err(e);
                        },
                    }
                },
                Expression::Right(arg) => {
                    let v = match self.eval_arg(arg, args) {
                        Ok(v) => v,
                        Err(e) => {
                            return Err(e);
                        },
                    };
                    match turtle.right(v) {
                        Ok(()) => {},
                        Err(e) => {
                            return Err(e);
                        },
                    }
                },
                Expression::Left(arg) => {
                    let v = match self.eval_arg(arg, args) {
                        Ok(v) => v,
                        Err(e) => {
                            return Err(e);
                        },
                    };
                    match turtle.left(v) {
                        Ok(()) => {},
                        Err(e) => {
                            return Err(e);
                        },
                    }
                },
                Expression::Arc(x, y) => {
                    let a = match self.eval_arg(x, args) {
                        Ok(v) => v,
                        Err(e) => {
                            return Err(e);
                        },
                    };
                    let b = match self.eval_arg(y, args) {
                        Ok(v) => v,
                        Err(e) => {
                            return Err(e);
                        },
                    };
                    match turtle.arc(a, b) {
                        Ok(()) => {},
                        Err(e) => {
                            return Err(e);
                        },
                    }
                },
                Expression::Circle(x) => {
                    let v = match self.eval_arg(x, args) {
                        Ok(v) => v,
                        Err(e) => {
                            return Err(e);
                        },
                    };
                    match turtle.circle(v) {
                        Ok(()) => {},
                        Err(e) => {
                            return Err(e);
                        },
                    }
                },
                Expression::Setpensize(x) => {
                    let v = match self.eval_arg(x, args) {
                        Ok(v) => v,
                        Err(e) => {
                            return Err(e);
                        },
                    };
                    match turtle.pensize(v) {
                        Ok(()) => {},
                        Err(e) => {
                            return Err(e);
                        },
                    }
                },
                Expression::Repeat(count, body) => {
                    let cv = match self.eval_arg(count, args) {
                        Ok(v) => v,
                        Err(e) => {
                            return Err(e);
                        },
                    };
                    let k = count_units(cv);
                    let ghost kk = count_of(cv@);
                    let ghost repeat_pre = EState { turtle: turtle@, funcs: self@.functions };
                    proof {
                        assert(exp_size(e0) == 1 + seq_size(exps_view(body@)));
                    }
                    let mut j: u64 = 0;
                    while j < k
                        invariant
                            j <= k,
                            k as nat == kk,
                            turtle_wf(turtle@),
                            self@.recursion_budget == rb,
                            depth <= rb,
                            dd == depth as int,
                            env == env_opt_view(*args),
                            astv == exps_view(ast@),
                            seq_size(exps_view(body@)) < seq_size(astv),
                            exec_repeat(
                                exps_view(body@),
                                (k - j) as nat,
                                EState { turtle: turtle@, funcs: self@.functions },
                                env,
                                dd,
                                rb,
                            ) == exec_repeat(exps_view(body@), kk, repeat_pre, env, dd, rb),
                        decreases k - j,
                    {
                        let ghost cur2 = EState { turtle: turtle@, funcs: self@.functions };
                        match self.run_ast(body, turtle, args, depth) {
                            Ok(()) => {},
                            Err(e) => {
                                proof {
                                    assert(exec_repeat(
                                        exps_view(body@),
                                        (k - j) as nat,
                                        cur2,
                                        env,
                                        dd,
                                        rb,
                                    ).0 == exec_seq(exps_view(body@), cur2, env, dd, rb).0);
                                    assert(exec_step(e0, cur, env, dd, rb) == exec_repeat(
                                        exps_view(body@),
                                        kk,
                                        repeat_pre,
                                        env,
                                        dd,
                                        rb,
                                    ));
                                }
                                return Err(e);
                            },
                        }
                        j += 1;
                    }
                    proof {
                        assert(exec_repeat(
                            exps_view(body@),
                            0nat,
                            EState { turtle: turtle@, funcs: self@.functions },
                            env,
                            dd,
                            rb,
                        ).1 == EState { turtle: turtle@, funcs: self@.functions });
                        assert(exec_step(e0, cur, env, dd, rb) == exec_repeat(
                            exps_view(body@),
                            kk,
                            repeat_pre,
                            env,
                            dd,
                            rb,
                        ));
                    }
                },
                Expression::If(cond, body) => {
                    let c = match self.eval_condition(&**cond, args) {
                        Ok(v) => v,
                        Err(e) => {
                            return Err(e);
                        },
                    };
                    proof {
                        assert(exp_size(e0) == 1 + seq_size(exps_view(body@)));
                    }
                    if c {
                        match self.run_ast(body, turtle, args, depth) {
                            Ok(()) => {},
                            Err(e) => {
                                return Err(e);
                            },
                        }
                    }
                },
                Expression::To(id, params, body) => {
                    self.add_function(
                        id.clone(),
                        Function { args: strs_dup(params), exps: exps_dup(body) },
                    );
                    proof {
                        assert(EState { turtle: turtle@, funcs: self@.functions } =~= exec_step(
                            e0,
                            cur,
                            env,
                            dd,
                            rb,
                        ).1);
                    }
                },
                Expression::Call(id, argexps) => {
                    match self.call_function(turtle, id, argexps, args, depth) {
                        Ok(()) => {},
                        Err(e) => {
                            return Err(e);
                        },
                    }
                },
                _ => {},
            }
            proof {
                assert(exec_seq(restv, cur, env, dd, rb) == exec_seq(
                    astv.skip(i + 1),
                    EState { turtle: turtle@, funcs: self@.functions },
                    env,
                    dd,
                    rb,
                ));
            }
            i += 1;
        }
        proof {
            assert(astv.skip(n as int) =~= Seq::<ExpV>::empty());
        }
        Ok(())
    }

    /// Execute one procedure call: look the name up, bind arguments
    /// positionally into a fresh environment, run the body one level deeper.
    #[verifier::loop_isolation(false)]
    fn call_function(
        &mut self,
        turtle: &mut Turtle,
        ident: &String,
        params: &Vec<Expression>,
        args: &Option<Vec<(String, Num)>>,
        depth: usize,
    ) -> (r: Result<(), LogoError>)
        requires
            turtle_wf(old(turtle)@),
            depth <= old(self)@.recursion_budget,
        ensures
            ({
                let pre = EState { turtle: old(turtle)@, funcs: old(self)@.functions };
                let post = spec_call(
                    ident@,
                    exps_view(params@),
                    pre,
                    env_opt_view(*args),
                    depth as int,
                    old(self)@.recursion_budget,
                );
                &&& res_matches(r, post.0)
                &&& final(turtle)@ == post.1.turtle
                &&& final(self)@.functions == post.1.funcs
            }),
            final(self)@.recursion_budget == old(self)@.recursion_budget,
            turtle_wf(final(turtle)@),
        decreases self@.recursion_budget + 1 - depth, 0int,
    {
        let ghost pre = EState { turtle: turtle@, funcs: self@.functions };
        let ghost env = env_opt_view(*args);
        let ghost rb = self@.recursion_budget;
        let found = self.find_function(ident);
        let (ps, body) = match found {
            Some(pair) => pair,
            None => {
                return Err(LogoError::UndefinedExpression(ident.clone()));
            },
        };
        let ghost psv = strs_view(ps@);
        let ghost argv = exps_view(params@);
        proof {
            lemma_exps_view(params@);
        }
        let m: usize = if params.len() < ps.len() {
            params.len()
        } else {
            ps.len()
        };
        let mut new_args: Vec<(String, Num)> = Vec::new();
        let mut j: usize = 0;
        proof {
            assert(psv.skip(0) =~= psv);
            assert(argv.skip(0) =~= argv);
            assert(env_view(new_args@) =~= Map::<Seq<char>, Num>::empty());
        }
        while j < m
            invariant
                j <= m,
                m <= ps@.len(),
                m <= params@.len(),
                m == if params@.len() < ps@.len() {
                    params@.len() as int
                } else {
                    ps@.len() as int
                },
                psv == strs_view(ps@),
                argv == exps_view(params@),
                psv.len() == ps@.len(),
                argv.len() == params@.len(),
                env == env_opt_view(*args),
                spec_bind(psv.skip(j as int), argv.skip(j as int), env, env_view(new_args@))
                    == spec_bind(psv, argv, env, Map::empty()),
            decreases m - j,
        {
            proof {
                lemma_exps_view(params@);
                assert(argv.skip(j as int)[0] == exp_view(params@[j as int]));
                assert(psv.skip(j as int)[0] == ps@[j as int]@);
                assert(psv.skip(j as int).drop_first() =~= psv.skip(j + 1));
                assert(argv.skip(j as int).drop_first() =~= argv.skip(j + 1));
            }
            let v = match self.eval_arg(&params[j], args) {
                Ok(v) => v,
                Err(e) => {
                    proof {
                        let skj = spec_bind(
                            psv.skip(j as int),
                            argv.skip(j as int),
                            env,
                            env_view(new_args@),
                        );
                        assert(skj is Err);
                        assert(spec_bind(psv, argv, env, Map::empty()) == skj);
                    }
                    return Err(e);
                },
            };
            let ghost env_pre = new_args@;
            new_args.push((ps[j].clone(), v));
            proof {
                assert(new_args@.drop_last() =~= env_pre);
                assert(env_view(new_args@) == env_view(env_pre).insert(ps@[j as int]@, v));
            }
            j += 1;
        }
        proof {
            if psv.len() <= m {
                assert(psv.skip(m as int).len() == 0);
            } else {
                assert(argv.skip(m as int).len() == 0);
            }
            assert(spec_bind(psv.skip(m as int), argv.skip(m as int), env, env_view(new_args@))
                == Result::<Map<Seq<char>, Num>, ErrV>::Ok(env_view(new_args@)));
        }
        let call_args: Option<Vec<(String, Num)>> = Some(new_args);
        if depth >= self.recursion_budget {
            // One level deeper would exceed the ceiling; the body is not entered.
            return Err(LogoError::RecursionBudgetExceeded(self.recursion_budget));
        }
        self.run_ast(&body, turtle, &call_args, depth + 1)
    }
}

impl Executor {
    /// Interpret a whole script against the turtle: parse, then walk.
    pub fn run(&mut self, turtle: &mut Turtle, logo: &str) -> (r: Result<(), LogoError>)
        requires
            turtle_wf(old(turtle)@),
        ensures
            ({
                let post = spec_run(logo@, old(turtle)@, old(self)@);
                &&& res_matches(r, post.0)
                &&& final(turtle)@ == post.1.turtle
                &&& final(self)@.functions == post.1.funcs
            }),
            final(self)@.recursion_budget == old(self)@.recursion_budget,
            turtle_wf(final(turtle)@),
    {
        let ast = match crate::parser::parse(logo) {
            Ok(a) => a,
            Err(e) => {
                return Err(e);
            },
        };
        let no_args: Option<Vec<(String, Num)>> = None;
        self.run_ast(&ast, turtle, &no_args, 0)
    }
}

/// What a whole run returns and leaves behind: a parse error with the
/// state untouched, or the spec-level interpretation of the tree from
/// depth zero with no argument environment.
pub open spec fn spec_run(code: Seq<char>, t: TurtleV, ex: ExecV) -> (Result<(), ErrV>, EState) {
    match crate::parser::spec_parse(code) {
        Err(e) => (Err(e), EState { turtle: t, funcs: ex.functions }),
        Ok(ast) => exec_seq(
            ast,
            EState { turtle: t, funcs: ex.functions },
            None,
            0,
            ex.recursion_budget,
        ),
    }
}

/// Clamp-then-truncate a channel value to a byte.
fn to_byte(n: Num) -> (r: u8)
    ensures
        r as int == byte_of(n@),
{
    if n.raw < 0 {
        0
    } else {
        let q: u64 = (n.raw as u64) / 10000;
        if q > 255 {
            255
        } else {
            q as u8
        }
    }
}

/// Whole repetitions of an evaluated count.
fn count_units(n: Num) -> (r: u64)
    ensures
        r as nat == count_of(n@),
{
    if n.raw <= 0 {
        0
    } else {
        (n.raw as u64) / 10000
    }
}

} // verus!
