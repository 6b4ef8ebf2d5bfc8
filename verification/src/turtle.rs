//! The turtle: drawing state plus an append-only command log.
//!
//! Every operation both reads and updates the shared state and appends at
//! most one command. All but `clear` and `setcolor` first check the log
//! length against the command budget and fail once the ceiling has been
//! reached; the check happens before appending, so a run is cut off on the
//! operation that would cross the ceiling and the log never grows beyond
//! it.
//!
//! Headings are whole degrees: turn amounts are floored to an integer and
//! wrapped into `(-360, 360)` with a truncating remainder. Displacements
//! use a fixed-point integer sine (an exact rational approximation that is
//! precise at multiples of 90 degrees), with heading 0 pointing "up"
//! (negative second coordinate) and growing clockwise.

use vstd::prelude::*;
use crate::error::{ErrV, LogoError};
use crate::num::{fx_add, fx_mul, num, Num};

verus! {

/// One drawing instruction. The ordered command stream is the sole output
/// of a run; insertion order is draw order.
#[derive(Clone, Copy, Debug, PartialEq)]
pub enum Command {
    Clear,
    Color((u8, u8, u8)),
    Heading(i32),
    Circle(Num),
    Arc(Num, Num),
    Pensize(Num),
    Line((Num, Num), (Num, Num)),
    Move((Num, Num), (Num, Num)),
}

/// The drawing cursor and its accumulated command log.
pub struct Turtle {
    pub commands: Vec<Command>,
    pub position: (Num, Num),
    pub angle: i32,
    pub pendown: bool,
    pub budget: usize,
}

/// The mathematical image of a [`Turtle`].
#[verifier::ext_equal]
pub ghost struct TurtleV {
    pub commands: Seq<Command>,
    pub position: (Num, Num),
    pub angle: int,
    pub pendown: bool,
    pub budget: int,
}

impl View for Turtle {
    type V = TurtleV;

    open spec fn view(&self) -> TurtleV {
        TurtleV {
            commands: self.commands@,
            position: self.position,
            angle: self.angle as int,
            pendown: self.pendown,
            budget: self.budget as int,
        }
    }
}

/// Headings stay in whole degrees, strictly between -360 and 360.
pub open spec fn turtle_wf(t: TurtleV) -> bool {
    -360 < t.angle < 360
}

// ---------------------------------------------------------------------------
// Integer-degree trigonometry (scaled by 10000)
// ---------------------------------------------------------------------------

/// Sine on `[0, 180]` degrees, scaled by 10000: an exact rational
/// approximation, exact at 0, 30, 90, 150 and 180 degrees.
pub open spec fn sin_half(d: int) -> int
    recommends
        0 <= d <= 180,
{
    let t = d * (180 - d);
    4 * t * 10000 / (40500 - t)
}

/// Sine of a whole-degree heading, scaled by 10000.
pub open spec fn sin_fx(h: int) -> int {
    let d = h % 360;
    if d <= 180 {
        sin_half(d)
    } else {
        -sin_half(d - 180)
    }
}

/// Cosine of a whole-degree heading, scaled by 10000.
pub open spec fn cos_fx(h: int) -> int {
    sin_fx(h + 90)
}

/// Displacement along the first coordinate for one forward step.
pub open spec fn disp_x(angle: int, n: int) -> int {
    fx_mul(sin_fx(angle), n)
}

/// Displacement along the second coordinate for one forward step
/// (heading 0 decreases it; the negation saturates like every operation
/// of the numeric model).
pub open spec fn disp_y(angle: int, n: int) -> int {
    fx_mul(cos_fx(angle), crate::num::fx_neg(n))
}

/// The heading after turning by `raw` fixed-point degrees from whole-degree
/// heading `h`: the sum is floored to a whole degree, clamped into the
/// 32-bit range, and wrapped with a truncating remainder.
pub open spec fn new_heading(h: int, raw: int) -> int {
    let f = (h * 10000 + raw) / 10000;
    let fc = if f > 2147483647 {
        2147483647
    } else if f < -2147483648 {
        -2147483648
    } else {
        f
    };
    if fc >= 0 {
        fc % 360
    } else {
        -((-fc) % 360)
    }
}

fn sin_half_x(d: i64) -> (r: i64)
    requires
        0 <= d <= 180,
    ensures
        r == sin_half(d as int),
        0 <= r <= 10000,
{
    proof {
        assert(0 <= d * (180 - d) <= 8100) by (nonlinear_arith)
            requires
                0 <= d <= 180,
        ;
    }
    let t: i64 = d * (180 - d);
    let numr: u64 = (4 * t * 10000) as u64;
    let den: u64 = (40500 - t) as u64;
    proof {
        assert(numr as int / den as int <= 10000) by (nonlinear_arith)
            requires
                0 < den as int,
                numr as int <= 10000 * den as int,
        ;
    }
    (numr / den) as i64
}

/// Scaled sine of a well-formed heading.
fn sin_deg(h: i32) -> (r: i64)
    requires
        -360 < h < 360,
    ensures
        r == sin_fx(h as int),
{
    let d: i64 = if h < 0 {
        h as i64 + 360
    } else {
        h as i64
    };
    proof {
        assert(h as int % 360 == d as int) by {
            if h < 0 {
                assert((h as int % 360) == (h + 360) % 360);
            }
            assert(0 <= d < 360);
        }
    }
    if d <= 180 {
        sin_half_x(d)
    } else {
        -sin_half_x(d - 180)
    }
}

/// Scaled cosine of a well-formed heading.
fn cos_deg(h: i32) -> (r: i64)
    requires
        -360 < h < 360,
    ensures
        r == cos_fx(h as int),
{
    let h2: i32 = if h + 90 >= 360 {
        h + 90 - 360
    } else {
        h + 90
    };
    proof {
        assert((h + 90) % 360 == h2 as int % 360) by {
            if h + 90 >= 360 {
                assert(((h2 + 360) as int) % 360 == h2 as int % 360);
            }
        }
    }
    sin_deg(h2)
}

// ---------------------------------------------------------------------------
// Spec-level operations
// ---------------------------------------------------------------------------

/// What a freshly created turtle looks like: the command log is pre-seeded
/// with a move to the starting position, which counts toward the budget.
pub open spec fn spec_new_turtle(position: (Num, Num), budget: int) -> TurtleV {
    TurtleV {
        commands: seq![Command::Move((num(0), num(0)), position)],
        position,
        angle: 0,
        pendown: true,
        budget,
    }
}

/// The budget gate: an operation fails once the log has reached the
/// configured ceiling, so the log never grows beyond it.
pub open spec fn over_budget(t: TurtleV) -> bool {
    t.commands.len() >= t.budget
}

pub open spec fn spec_forward(t: TurtleV, n: Num) -> (Result<(), ErrV>, TurtleV) {
    if over_budget(t) {
        (Err(ErrV::RuntimeBudget(t.budget)), t)
    } else {
        let x = num(fx_add(t.position.0@, disp_x(t.angle, n@)));
        let y = num(fx_add(t.position.1@, disp_y(t.angle, n@)));
        let cmd = if t.pendown {
            Command::Line(t.position, (x, y))
        } else {
            Command::Move(t.position, (x, y))
        };
        (Ok(()), TurtleV { commands: t.commands.push(cmd), position: (x, y), ..t })
    }
}

pub open spec fn spec_right(t: TurtleV, n: Num) -> (Result<(), ErrV>, TurtleV) {
    if over_budget(t) {
        (Err(ErrV::RuntimeBudget(t.budget)), t)
    } else {
        let a = new_heading(t.angle, n@);
        (
            Ok(()),
            TurtleV { commands: t.commands.push(Command::Heading(a as i32)), angle: a, ..t },
        )
    }
}

/// Repositioning moves the turtle to `(x, y)` and emits a non-drawing move
/// there from the prior position, whatever the pen state.
pub open spec fn spec_position(t: TurtleV, x: Num, y: Num) -> (Result<(), ErrV>, TurtleV) {
    if over_budget(t) {
        (Err(ErrV::RuntimeBudget(t.budget)), t)
    } else {
        (
            Ok(()),
            TurtleV {
                commands: t.commands.push(Command::Move(t.position, (x, y))),
                position: (x, y),
                ..t
            },
        )
    }
}

pub open spec fn spec_arc(t: TurtleV, angle: Num, radius: Num) -> (Result<(), ErrV>, TurtleV) {
    if over_budget(t) {
        (Err(ErrV::RuntimeBudget(t.budget)), t)
    } else {
        (Ok(()), TurtleV { commands: t.commands.push(Command::Arc(angle, radius)), ..t })
    }
}

pub open spec fn spec_circle(t: TurtleV, radius: Num) -> (Result<(), ErrV>, TurtleV) {
    if over_budget(t) {
        (Err(ErrV::RuntimeBudget(t.budget)), t)
    } else {
        (Ok(()), TurtleV { commands: t.commands.push(Command::Circle(radius)), ..t })
    }
}

pub open spec fn spec_pensize(t: TurtleV, s: Num) -> (Result<(), ErrV>, TurtleV) {
    if over_budget(t) {
        (Err(ErrV::RuntimeBudget(t.budget)), t)
    } else {
        (Ok(()), TurtleV { commands: t.commands.push(Command::Pensize(s)), ..t })
    }
}

pub open spec fn spec_clear(t: TurtleV) -> TurtleV {
    TurtleV { commands: t.commands.push(Command::Clear), ..t }
}

pub open spec fn spec_setcolor(t: TurtleV, c: (u8, u8, u8)) -> TurtleV {
    TurtleV { commands: t.commands.push(Command::Color(c)), ..t }
}

// ---------------------------------------------------------------------------
// Executable operations
// ---------------------------------------------------------------------------

impl Turtle {
    /// A turtle at `position` with full budget; the pre-seeded move to the
    /// starting position is already in the log.
    pub fn new(position: (Num, Num), budget: usize) -> (r: Turtle)
        ensures
            r@ == spec_new_turtle(position, budget as int),
            turtle_wf(r@),
    {
        let mut commands: Vec<Command> = Vec::new();
        commands.push(Command::Move((Num { raw: 0 }, Num { raw: 0 }), position));
        proof {
            assert(commands@ =~= seq![Command::Move((num(0), num(0)), position)]);
        }
        let r = Turtle { commands, position, angle: 0, pendown: true, budget };
        proof {
            assert(r@ =~= spec_new_turtle(position, budget as int));
        }
        r
    }

    fn guard_budget(&self) -> (r: Result<(), LogoError>)
        ensures
            match r {
                Ok(()) => !over_budget(self@),
                Err(e) => over_budget(self@) && crate::error::err_matches(
                    e,
                    ErrV::RuntimeBudget(self@.budget),
                ),
            },
    {
        if self.commands.len() >= self.budget {
            return Err(LogoError::RuntimeBudgetExceeded(self.budget));
        }
        Ok(())
    }

    /// Unconditionally log a clear-screen command.
    pub fn clear(&mut self)
        ensures
            final(self)@ == spec_clear(old(self)@),
    {
        self.commands.push(Command::Clear);
        proof {
            assert(self@ =~= spec_clear(old(self)@));
        }
    }

    /// Unconditionally log a pen-color command.
    pub fn setcolor(&mut self, c: (u8, u8, u8))
        ensures
            final(self)@ == spec_setcolor(old(self)@, c),
    {
        self.commands.push(Command::Color(c));
        proof {
            assert(self@ =~= spec_setcolor(old(self)@, c));
        }
    }

    /// Move along the current heading by `n`, drawing when the pen is down.
    pub fn forward(&mut self, n: Num) -> (r: Result<(), LogoError>)
        requires
            turtle_wf(old(self)@),
        ensures
            crate::error::res_matches(r, spec_forward(old(self)@, n).0),
            final(self)@ == spec_forward(old(self)@, n).1,
            turtle_wf(final(self)@),
    {
        let g = self.guard_budget();
        if let Err(e) = g {
            proof {
                assert(self@ =~= spec_forward(old(self)@, n).1);
            }
            return Err(e);
        }
        let sv = sin_deg(self.angle);
        let cv = cos_deg(self.angle);
        let dx = Num { raw: sv }.mul(n);
        let dy = Num { raw: cv }.mul(n.neg());
        proof {
            assert(dx@ == disp_x(old(self)@.angle, n@));
            assert(dy@ == disp_y(old(self)@.angle, n@));
        }
        let x = self.position.0.add(dx);
        let y = self.position.1.add(dy);
        let cmd = if self.pendown {
            Command::Line(self.position, (x, y))
        } else {
            Command::Move(self.position, (x, y))
        };
        self.commands.push(cmd);
        self.position = (x, y);
        proof {
            assert(self@ =~= spec_forward(old(self)@, n).1);
        }
        Ok(())
    }

    /// Move backward: the same command and state as `forward` of the
    /// negated amount.
    pub fn back(&mut self, n: Num) -> (r: Result<(), LogoError>)
        requires
            turtle_wf(old(self)@),
        ensures
            crate::error::res_matches(r, spec_forward(old(self)@, num(crate::num::fx_neg(n@))).0),
            final(self)@ == spec_forward(old(self)@, num(crate::num::fx_neg(n@))).1,
            turtle_wf(final(self)@),
    {
        self.forward(n.neg())
    }

    /// Turn clockwise by `n` degrees (floored to a whole degree).
    pub fn right(&mut self, n: Num) -> (r: Result<(), LogoError>)
        requires
            turtle_wf(old(self)@),
        ensures
            crate::error::res_matches(r, spec_right(old(self)@, n).0),
            final(self)@ == spec_right(old(self)@, n).1,
            turtle_wf(final(self)@),
    {
        let g = self.guard_budget();
        if let Err(e) = g {
            proof {
                assert(self@ =~= spec_right(old(self)@, n).1);
            }
            return Err(e);
        }
        let w: i128 = (self.angle as i128) * 10000 + (n.raw as i128);
        let f: i128 = if w >= 0 {
            ((w as u128) / 10000) as i128
        } else {
            let q: u128 = (((-w) as u128) + 9999) / 10000;
            -(q as i128)
        };
        proof {
            assert(f == (old(self)@.angle * 10000 + n@) / 10000) by {
                let ww = old(self)@.angle * 10000 + n@;
                if ww < 0 {
                    let mag = -ww;
                    assert((mag + 9999) / 10000 == -(ww / 10000)) by (nonlinear_arith)
                        requires
                            mag == -ww,
                            ww < 0,
                    ;
                }
            }
        }
        let fc: i128 = if f > 2147483647 {
            2147483647
        } else if f < -2147483648 {
            -2147483648
        } else {
            f
        };
        let a: i32 = if fc >= 0 {
            ((fc as u128) % 360) as i32
        } else {
            let m: u128 = ((-fc) as u128) % 360;
            -(m as i32)
        };
        proof {
            assert(a as int == new_heading(old(self)@.angle, n@));
        }
        self.angle = a;
        self.commands.push(Command::Heading(a));
        proof {
            assert(self@ =~= spec_right(old(self)@, n).1);
        }
        Ok(())
    }

    /// Turn counterclockwise: the same command and state as `right` of the
    /// negated amount.
    pub fn left(&mut self, n: Num) -> (r: Result<(), LogoError>)
        requires
            turtle_wf(old(self)@),
        ensures
            crate::error::res_matches(r, spec_right(old(self)@, num(crate::num::fx_neg(n@))).0),
            final(self)@ == spec_right(old(self)@, num(crate::num::fx_neg(n@))).1,
            turtle_wf(final(self)@),
    {
        self.right(n.neg())
    }

    /// A copy of the accumulated command stream.
    pub fn commands(&self) -> (r: Vec<Command>)
        ensures
            r@ == self@.commands,
    {
        let mut r: Vec<Command> = Vec::new();
        let mut i: usize = 0;
        while i < self.commands.len()
            invariant
                i <= self.commands@.len(),
                r@ == self.commands@.take(i as int),
            decreases self.commands@.len() - i,
        {
            r.push(self.commands[i]);
            proof {
                assert(self.commands@.take(i as int).push(self.commands@[i as int])
                    =~= self.commands@.take(i + 1));
            }
            i += 1;
        }
        proof {
            assert(self.commands@.take(self.commands@.len() as int) =~= self.commands@);
        }
        r
    }

    /// Reposition to `(x, y)`: log the move there without drawing.
    pub(crate) fn position(&mut self, x: Num, y: Num) -> (r: Result<(), LogoError>)
        ensures
            crate::error::res_matches(r, spec_position(old(self)@, x, y).0),
            final(self)@ == spec_position(old(self)@, x, y).1,
    {
        let g = self.guard_budget();
        if let Err(e) = g {
            proof {
                assert(self@ =~= spec_position(old(self)@, x, y).1);
            }
            return Err(e);
        }
        self.commands.push(Command::Move(self.position, (x, y)));
        self.position = (x, y);
        proof {
            assert(self@ =~= spec_position(old(self)@, x, y).1);
        }
        Ok(())
    }

    /// Log an arc of the given angle and radius.
    pub(crate) fn arc(&mut self, angle: Num, radius: Num) -> (r: Result<(), LogoError>)
        ensures
            crate::error::res_matches(r, spec_arc(old(self)@, angle, radius).0),
            final(self)@ == spec_arc(old(self)@, angle, radius).1,
    {
        let g = self.guard_budget();
        if let Err(e) = g {
            proof {
                assert(self@ =~= spec_arc(old(self)@, angle, radius).1);
            }
            return Err(e);
        }
        self.commands.push(Command::Arc(angle, radius));
        proof {
            assert(self@ =~= spec_arc(old(self)@, angle, radius).1);
        }
        Ok(())
    }

    /// Log a circle of the given radius.
    pub(crate) fn circle(&mut self, rad: Num) -> (r: Result<(), LogoError>)
        ensures
            crate::error::res_matches(r, spec_circle(old(self)@, rad).0),
            final(self)@ == spec_circle(old(self)@, rad).1,
    {
        let g = self.guard_budget();
        if let Err(e) = g {
            proof {
                assert(self@ =~= spec_circle(old(self)@, rad).1);
            }
            return Err(e);
        }
        self.commands.push(Command::Circle(rad));
        proof {
            assert(self@ =~= spec_circle(old(self)@, rad).1);
        }
        Ok(())
    }

    /// Log a pen-width change.
    pub(crate) fn pensize(&mut self, s: Num) -> (r: Result<(), LogoError>)
        ensures
            crate::error::res_matches(r, spec_pensize(old(self)@, s).0),
            final(self)@ == spec_pensize(old(self)@, s).1,
    {
        let g = self.guard_budget();
        if let Err(e) = g {
            proof {
                assert(self@ =~= spec_pensize(old(self)@, s).1);
            }
            return Err(e);
        }
        self.commands.push(Command::Pensize(s));
        proof {
            assert(self@ =~= spec_pensize(old(self)@, s).1);
        }
        Ok(())
    }
}

} // verus!
