//! Fixed-point numbers: the interpreter's numeric domain.
//!
//! A [`Num`] holds a signed value scaled by `SCALE` (10000), giving four
//! decimal digits of resolution. Results of every operation are clipped to
//! the symmetric range `[-RAW_MAX, RAW_MAX]`, so all operations are total:
//! overflow saturates instead of wrapping, division by zero saturates to the
//! extreme of the dividend's sign, and negation never overflows.

use vstd::prelude::*;

verus! {

/// Number of raw units per whole unit: four decimal digits of resolution.
pub const SCALE: i64 = 10000;

/// Largest raw magnitude a `Num` may hold (the range is symmetric).
pub const RAW_MAX: i64 = 9223372036854775807;

/// Clip an unbounded value into the representable raw range.
pub open spec fn clip(v: int) -> int {
    if v > RAW_MAX as int {
        RAW_MAX as int
    } else if v < -(RAW_MAX as int) {
        -(RAW_MAX as int)
    } else {
        v
    }
}

/// Truncating division (rounds toward zero), defined for a nonzero divisor.
pub open spec fn tdiv(a: int, b: int) -> int
    recommends
        b != 0,
{
    let ma = if a >= 0 {
        a
    } else {
        -a
    };
    let mb = if b >= 0 {
        b
    } else {
        -b
    };
    let q = ma / mb;
    if (a >= 0) == (b >= 0) {
        q
    } else {
        -q
    }
}

/// Raw-level saturating addition.
pub open spec fn fx_add(a: int, b: int) -> int {
    clip(a + b)
}

/// Raw-level saturating subtraction.
pub open spec fn fx_sub(a: int, b: int) -> int {
    clip(a - b)
}

/// Raw-level saturating negation.
pub open spec fn fx_neg(a: int) -> int {
    clip(-a)
}

/// Raw-level fixed-point multiplication: scale-corrected, truncated, clipped.
pub open spec fn fx_mul(a: int, b: int) -> int {
    clip(tdiv(a * b, SCALE as int))
}

/// Raw-level fixed-point division. A zero divisor saturates to the extreme
/// of the dividend's sign (zero stays zero).
pub open spec fn fx_div(a: int, b: int) -> int {
    if b == 0 {
        if a > 0 {
            RAW_MAX as int
        } else if a < 0 {
            -(RAW_MAX as int)
        } else {
            0
        }
    } else {
        clip(tdiv(a * SCALE as int, b))
    }
}

/// Whole units below a raw value (floor).
pub open spec fn floor_units(a: int) -> int {
    a / (SCALE as int)
}

/// Whole units of a raw value, rounded toward zero.
pub open spec fn trunc_units(a: int) -> int {
    tdiv(a, SCALE as int)
}

/// Adding a whole number of units shifts the floored unit count by as much.
pub proof fn lemma_floor_units_shift(h: int, raw: int)
    ensures
        (h * 10000 + raw) / 10000 == h + floor_units(raw),
{
    vstd::arithmetic::div_mod::lemma_hoist_over_denominator(raw, h, 10000nat);
}

/// The truncating remainder of a negative number is congruent to it.
pub proof fn lemma_neg_mod(f: int)
    requires
        f < 0,
    ensures
        (-((-f) % 360)) % 360 == f % 360,
{
    let m = (-f) % 360;
    let q = (-f) / 360;
    vstd::arithmetic::div_mod::lemma_fundamental_div_mod(-f, 360);
    assert(f == 360 * (-q) + (-m));
    vstd::arithmetic::div_mod::lemma_mod_multiples_vanish(-q, -m, 360);
}

/// Congruence mod 360 is preserved by adding the same amount to both sides.
pub proof fn lemma_mod_add_congruent(a1: int, a2: int, r: int)
    requires
        a1 % 360 == a2 % 360,
    ensures
        (a1 + r) % 360 == (a2 + r) % 360,
{
    vstd::arithmetic::div_mod::lemma_add_mod_noop(a1, r, 360);
    vstd::arithmetic::div_mod::lemma_add_mod_noop(a2, r, 360);
}

/// A fixed-point number: `raw` counts units of `1 / SCALE`.
#[derive(Clone, Copy, Debug, PartialEq, Eq)]
pub struct Num {
    pub raw: i64,
}

impl View for Num {
    type V = int;

    open spec fn view(&self) -> int {
        self.raw as int
    }
}

/// The `Num` with the given raw value (spec-level constructor).
pub open spec fn num(v: int) -> Num
    recommends
        -(RAW_MAX as int) <= v <= RAW_MAX as int,
{
    Num { raw: v as i64 }
}

/// Clamp a wide intermediate result back into the raw range.
pub(crate) fn clamp_raw(w: i128) -> (r: i64)
    ensures
        r as int == clip(w as int),
{
    if w > RAW_MAX as i128 {
        RAW_MAX
    } else if w < -(RAW_MAX as i128) {
        -RAW_MAX
    } else {
        w as i64
    }
}

/// Truncating division on wide intermediates, divisor nonzero.
fn tdiv_wide(a: i128, b: i128) -> (r: i128)
    requires
        b != 0,
        -170141183460469231731687303715884105727i128 <= a,
        -170141183460469231731687303715884105727i128 <= b,
    ensures
        r as int == tdiv(a as int, b as int),
{
    let ma: i128 = if a >= 0 {
        a
    } else {
        -a
    };
    let mb: i128 = if b >= 0 {
        b
    } else {
        -b
    };
    let q: i128 = ma / mb;
    if (a >= 0) == (b >= 0) {
        q
    } else {
        -q
    }
}

impl Num {
    /// The number representing `u` whole units.
    pub fn from_units(u: i64) -> (r: Num)
        ensures
            r@ == clip(u * SCALE as int),
    {
        Num { raw: clamp_raw(u as i128 * SCALE as i128) }
    }

    /// Saturating addition.
    pub fn add(self, other: Num) -> (r: Num)
        ensures
            r@ == fx_add(self@, other@),
    {
        Num { raw: clamp_raw(self.raw as i128 + other.raw as i128) }
    }

    /// Saturating subtraction.
    pub fn sub(self, other: Num) -> (r: Num)
        ensures
            r@ == fx_sub(self@, other@),
    {
        Num { raw: clamp_raw(self.raw as i128 - other.raw as i128) }
    }

    /// Saturating negation.
    pub fn neg(self) -> (r: Num)
        ensures
            r@ == fx_neg(self@),
    {
        Num { raw: clamp_raw(-(self.raw as i128)) }
    }

    /// Fixed-point multiplication.
    pub fn mul(self, other: Num) -> (r: Num)
        ensures
            r@ == fx_mul(self@, other@),
    {
        proof {
            assert((self.raw as int) * (other.raw as int)
                <= 85070591730234615865843651857942052864
                && (self.raw as int) * (other.raw as int)
                >= -85070591730234615865843651857942052864) by (nonlinear_arith)
                requires
                    -9223372036854775808 <= self.raw as int <= 9223372036854775807,
                    -9223372036854775808 <= other.raw as int <= 9223372036854775807;
        }
        let w: i128 = self.raw as i128 * other.raw as i128;
        let q = tdiv_wide(w, SCALE as i128);
        Num { raw: clamp_raw(q) }
    }

    /// Fixed-point division; a zero divisor saturates.
    pub fn div(self, other: Num) -> (r: Num)
        ensures
            r@ == fx_div(self@, other@),
    {
        if other.raw == 0 {
            if self.raw > 0 {
                Num { raw: RAW_MAX }
            } else if self.raw < 0 {
                Num { raw: -RAW_MAX }
            } else {
                Num { raw: 0 }
            }
        } else {
            let w: i128 = self.raw as i128 * SCALE as i128;
            let q = tdiv_wide(w, other.raw as i128);
            Num { raw: clamp_raw(q) }
        }
    }
}

} // verus!
