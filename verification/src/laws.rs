//! Laws of the interpreter, stated and proved over the spec-level models
//! that the executable code is verified against.

use vstd::prelude::*;
use crate::error::ErrV;
use crate::executor::{count_of, exec_repeat, exec_seq, exec_step, EState};
use crate::num::{floor_units, fx_add, num, Num};
use crate::turtle::{disp_x, disp_y, new_heading, spec_forward, spec_right, TurtleV};
use crate::ast::ExpV;

verus! {

// ---------------------------------------------------------------------------
// Straight-line motion
// ---------------------------------------------------------------------------

/// The turtle state after a sequence of forward moves, the first failure
/// stopping the run.
pub open spec fn apply_forwards(t: TurtleV, ns: Seq<Num>) -> (Result<(), ErrV>, TurtleV)
    decreases ns.len(),
{
    if ns.len() == 0 {
        (Ok(()), t)
    } else {
        let r = spec_forward(t, ns[0]);
        match r.0 {
            Err(e) => (Err(e), r.1),
            Ok(()) => apply_forwards(r.1, ns.drop_first()),
        }
    }
}

/// The vector sum of the displacements of each move, accumulated in
/// sequence from the starting position.
pub open spec fn motion_sum(p: (Num, Num), angle: int, ns: Seq<Num>) -> (Num, Num)
    decreases ns.len(),
{
    if ns.len() == 0 {
        p
    } else {
        motion_sum(
            (
                num(fx_add(p.0@, disp_x(angle, ns[0]@))),
                num(fx_add(p.1@, disp_y(angle, ns[0]@))),
            ),
            angle,
            ns.drop_first(),
        )
    }
}

/// For a script of straight-line motion alone, the final position equals
/// the vector sum of the displacements computed from the (unchanged)
/// heading and each distance in sequence, starting at the initial position.
pub proof fn lemma_straight_line_motion(t: TurtleV, ns: Seq<Num>)
    requires
        apply_forwards(t, ns).0 is Ok,
    ensures
        apply_forwards(t, ns).1.position == motion_sum(t.position, t.angle, ns),
        apply_forwards(t, ns).1.angle == t.angle,
    decreases ns.len(),
{
    if ns.len() > 0 {
        let r = spec_forward(t, ns[0]);
        lemma_straight_line_motion(r.1, ns.drop_first());
    }
}

// ---------------------------------------------------------------------------
// Turning
// ---------------------------------------------------------------------------

/// The turtle state after a sequence of clockwise turns.
pub open spec fn apply_rights(t: TurtleV, ns: Seq<Num>) -> (Result<(), ErrV>, TurtleV)
    decreases ns.len(),
{
    if ns.len() == 0 {
        (Ok(()), t)
    } else {
        let r = spec_right(t, ns[0]);
        match r.0 {
            Err(e) => (Err(e), r.1),
            Ok(()) => apply_rights(r.1, ns.drop_first()),
        }
    }
}

/// The algebraic sum of the turn amounts, each floored to a whole degree.
pub open spec fn turn_sum(ns: Seq<Num>) -> int
    decreases ns.len(),
{
    if ns.len() == 0 {
        0
    } else {
        floor_units(ns[0]@) + turn_sum(ns.drop_first())
    }
}

/// After any sequence of turns the heading is congruent mod 360 to the
/// starting heading plus the algebraic sum of the floored turn amounts.
/// (The bound on each amount keeps the wrap-to-32-bits clamp of a single
/// turn out of play; an astronomically large single turn saturates and
/// breaks the congruence, as it does in the executable operation.)
pub proof fn lemma_turn_sum(t: TurtleV, ns: Seq<Num>)
    requires
        apply_rights(t, ns).0 is Ok,
        -360 < t.angle < 360,
        forall|i: int|
            0 <= i < ns.len() ==> -2147483000 <= #[trigger] floor_units(ns[i]@) <= 2147483000,
    ensures
        apply_rights(t, ns).1.angle % 360 == (t.angle + turn_sum(ns)) % 360,
    decreases ns.len(),
{
    if ns.len() > 0 {
        let fu = floor_units(ns[0]@);
        let r = spec_right(t, ns[0]);
        let a1 = new_heading(t.angle, ns[0]@);
        assert((t.angle * 10000 + ns[0]@) / 10000 == t.angle + fu) by {
            crate::num::lemma_floor_units_shift(t.angle, ns[0]@);
        }
        assert(a1 % 360 == (t.angle + fu) % 360) by {
            let f = t.angle + fu;
            if f >= 0 {
                assert(a1 == f % 360);
                assert((f % 360) % 360 == f % 360);
            } else {
                let m = (-f) % 360;
                assert(a1 == -m);
                crate::num::lemma_neg_mod(f);
            }
        }
        assert(-360 < a1 < 360);
        lemma_turn_sum(r.1, ns.drop_first());
        assert(r.1.angle == a1);
        let rest = turn_sum(ns.drop_first());
        assert(apply_rights(t, ns).1.angle % 360 == (a1 + rest) % 360);
        crate::num::lemma_mod_add_congruent(a1, t.angle + fu, rest);
        assert((t.angle + fu) + rest == t.angle + turn_sum(ns));
    }
}

// ---------------------------------------------------------------------------
// Repetition, calls, budgets
// ---------------------------------------------------------------------------

/// A repetition whose count comes out at or below zero leaves the state
/// exactly as omitting the block would.
pub proof fn lemma_repeat_nonpositive(
    count: ExpV,
    body: Seq<ExpV>,
    st: EState,
    env: Option<Map<Seq<char>, Num>>,
    depth: int,
    rb: int,
)
    requires
        depth <= rb,
        crate::executor::spec_eval(count, env) is Ok,
        count_of(crate::executor::spec_eval(count, env)->Ok_0@) == 0,
    ensures
        exec_step(ExpV::Repeat(Box::new(count), body), st, env, depth, rb) == (
            Result::<(), ErrV>::Ok(()),
            st,
        ),
{
}

/// A repetition with a positive count runs the body once and then repeats
/// it one time fewer, against the state the first pass left behind.
pub proof fn lemma_repeat_unroll(
    body: Seq<ExpV>,
    k: nat,
    st: EState,
    env: Option<Map<Seq<char>, Num>>,
    depth: int,
    rb: int,
)
    requires
        k > 0,
    ensures
        exec_repeat(body, k, st, env, depth, rb) == ({
            let once = exec_seq(body, st, env, depth, rb);
            match once.0 {
                Err(e) => (Result::<(), ErrV>::Err(e), once.1),
                Ok(()) => exec_repeat(body, (k - 1) as nat, once.1, env, depth, rb),
            }
        }),
{
}

/// Calling a name with no definition yields the undefined-expression
/// error carrying that name, and changes nothing.
pub proof fn lemma_undefined_call(
    name: Seq<char>,
    argexps: Seq<ExpV>,
    st: EState,
    env: Option<Map<Seq<char>, Num>>,
    depth: int,
    rb: int,
)
    requires
        depth <= rb,
        !st.funcs.contains_key(name),
    ensures
        exec_step(ExpV::Call(name, argexps), st, env, depth, rb) == (
            Result::<(), ErrV>::Err(ErrV::UndefinedExpression(name)),
            st,
        ),
{
}

/// The command budget cuts a run off on exactly the operation that would
/// cross it: a guarded operation fails if and only if the log has already
/// reached the ceiling (so the log never grows beyond it), and a failing
/// operation changes nothing.
pub proof fn lemma_budget_gate(t: TurtleV, n: Num)
    ensures
        spec_forward(t, n).0 is Err <==> t.commands.len() >= t.budget,
        spec_forward(t, n).0 is Err ==> spec_forward(t, n) == (
            Result::<(), ErrV>::Err(ErrV::RuntimeBudget(t.budget)),
            t,
        ),
        spec_forward(t, n).0 is Ok ==> spec_forward(t, n).1.commands.len() == t.commands.len()
            + 1,
        spec_right(t, n).0 is Err <==> t.commands.len() >= t.budget,
        spec_right(t, n).0 is Err ==> spec_right(t, n) == (
            Result::<(), ErrV>::Err(ErrV::RuntimeBudget(t.budget)),
            t,
        ),
        spec_right(t, n).0 is Ok ==> spec_right(t, n).1.commands.len() == t.commands.len() + 1,
{
}

/// Entering a statement sequence beyond the recursion ceiling yields the
/// recursion-budget error, and changes nothing.
pub proof fn lemma_recursion_ceiling(
    ast: Seq<ExpV>,
    st: EState,
    env: Option<Map<Seq<char>, Num>>,
    depth: int,
    rb: int,
)
    requires
        depth > rb,
    ensures
        exec_seq(ast, st, env, depth, rb) == (
            Result::<(), ErrV>::Err(ErrV::RecursionBudget(rb)),
            st,
        ),
{
}

} // verus!
