//! Integer trigonometry for the polar projection.
//!
//! Angles arrive as fixed-point micro-radians.  Sine and cosine are
//! computed entirely on integers: the angle is reduced to a quadrant
//! of nano-radians and a Taylor polynomial is evaluated in nano-units,
//! so the result is a mathematical function of the argument with an
//! exact specification ([`spec_sin_micro`], [`spec_cos_micro`]).  The
//! approximation is accurate to a few millionths over a full turn;
//! the round-trip through the reduction constants costs precision only
//! for astronomically large angles.

use vstd::prelude::*;
use crate::fixed::{abs_of, abs_u128, div_towards_zero};

verus! {

/// Nano-units per whole unit: the internal precision of the
/// polynomial evaluation.
pub const TRIG_ONE: u64 = 1_000_000_000;

/// A full turn, in nano-radians.
pub const TWO_PI_NANO: u64 = 6_283_185_307;

/// A quarter turn, in nano-radians.
pub const HALF_PI_NANO: u64 = 1_570_796_327;

/// Taylor polynomial for sine on a quarter turn, nano-radians in and
/// nano-units out.
pub open spec fn poly_sin(x: int) -> int {
    let g = TRIG_ONE as int;
    let x2 = (x * x) / g;
    let x3 = (x2 * x) / g;
    let x5 = (x3 * x2) / g;
    let x7 = (x5 * x2) / g;
    let x9 = (x7 * x2) / g;
    x - x3 / 6 + x5 / 120 - x7 / 5040 + x9 / 362880
}

/// Taylor polynomial for cosine on a quarter turn.
pub open spec fn poly_cos(x: int) -> int {
    let g = TRIG_ONE as int;
    let x2 = (x * x) / g;
    let x4 = (x2 * x2) / g;
    let x6 = (x4 * x2) / g;
    let x8 = (x6 * x2) / g;
    let x10 = (x8 * x2) / g;
    g - x2 / 2 + x4 / 24 - x6 / 720 + x8 / 40320 - x10 / 3628800
}

/// A value clamped to the unit range `[0, TRIG_ONE]`, absorbing the
/// polynomial's overshoot of a few nano-units at the ends of the
/// quadrant.
pub open spec fn clamp_unit(v: int) -> int {
    if v < 0 {
        0
    } else if v > TRIG_ONE as int {
        TRIG_ONE as int
    } else {
        v
    }
}

/// The angle `a` (micro-radians), reduced: its magnitude in
/// nano-radians modulo a full turn.
pub open spec fn reduced(a: int) -> int {
    (abs_of(a) * 1000) % (TWO_PI_NANO as int)
}

/// The quadrant of the reduced angle, `0` through `3`.
pub open spec fn quadrant(a: int) -> int {
    reduced(a) / (HALF_PI_NANO as int)
}

/// The position within the quadrant, in nano-radians.
pub open spec fn in_quadrant(a: int) -> int {
    reduced(a) % (HALF_PI_NANO as int)
}

/// Sine of the magnitude of `a`, in nano-units.
pub open spec fn sin_mag_nano(a: int) -> int {
    let q = quadrant(a);
    let r = in_quadrant(a);
    if q == 0 {
        clamp_unit(poly_sin(r))
    } else if q == 1 {
        clamp_unit(poly_cos(r))
    } else if q == 2 {
        -clamp_unit(poly_sin(r))
    } else {
        -clamp_unit(poly_cos(r))
    }
}

/// Cosine of the magnitude of `a`, in nano-units.
pub open spec fn cos_mag_nano(a: int) -> int {
    let q = quadrant(a);
    let r = in_quadrant(a);
    if q == 0 {
        clamp_unit(poly_cos(r))
    } else if q == 1 {
        -clamp_unit(poly_sin(r))
    } else if q == 2 {
        -clamp_unit(poly_cos(r))
    } else {
        clamp_unit(poly_sin(r))
    }
}

/// Sine of a fixed-point angle, micro-radians to micro-units.
pub open spec fn spec_sin_micro(a: int) -> int {
    let s = if a < 0 {
        -sin_mag_nano(a)
    } else {
        sin_mag_nano(a)
    };
    div_towards_zero(s, 1000)
}

/// Cosine of a fixed-point angle, micro-radians to micro-units.
pub open spec fn spec_cos_micro(a: int) -> int {
    div_towards_zero(cos_mag_nano(a), 1000)
}

proof fn lemma_mul_le(a: int, b: int, am: int, bm: int)
    requires
        0 <= a <= am,
        0 <= b <= bm,
    ensures
        a * b <= am * bm,
{
    assert(a * b <= am * bm) by (nonlinear_arith)
        requires
            0 <= a <= am,
            0 <= b <= bm,
    ;
}

/// Both Taylor polynomials, evaluated exactly as specified, for a
/// position inside one quadrant.  Returns `(sine, cosine)` clamped to
/// the unit range, in nano-units.
fn poly_both(x: u64) -> (r: (u64, u64))
    requires
        x <= HALF_PI_NANO,
    ensures
        r.0 == clamp_unit(poly_sin(x as int)),
        r.1 == clamp_unit(poly_cos(x as int)),
        r.0 <= TRIG_ONE,
        r.1 <= TRIG_ONE,
{
    let g: u128 = TRIG_ONE as u128;
    let xw: u128 = x as u128;
    proof {
        lemma_mul_le(x as int, x as int, 1_600_000_000, 1_600_000_000);
    }
    let x2: u128 = (xw * xw) / g;
    proof {
        assert(x2 <= 2_600_000_000);
        lemma_mul_le(x2 as int, x as int, 2_600_000_000, 1_600_000_000);
    }
    let x3: u128 = (x2 * xw) / g;
    proof {
        assert(x3 <= 4_200_000_000);
        lemma_mul_le(x3 as int, x2 as int, 4_200_000_000, 2_600_000_000);
        lemma_mul_le(x2 as int, x2 as int, 2_600_000_000, 2_600_000_000);
    }
    let x4: u128 = (x2 * x2) / g;
    let x5: u128 = (x3 * x2) / g;
    proof {
        assert(x4 <= 6_800_000_000);
        assert(x5 <= 11_000_000_000);
        lemma_mul_le(x4 as int, x2 as int, 6_800_000_000, 2_600_000_000);
        lemma_mul_le(x5 as int, x2 as int, 11_000_000_000, 2_600_000_000);
    }
    let x6: u128 = (x4 * x2) / g;
    let x7: u128 = (x5 * x2) / g;
    proof {
        assert(x6 <= 18_000_000_000);
        assert(x7 <= 29_000_000_000);
        lemma_mul_le(x6 as int, x2 as int, 18_000_000_000, 2_600_000_000);
        lemma_mul_le(x7 as int, x2 as int, 29_000_000_000, 2_600_000_000);
    }
    let x8: u128 = (x6 * x2) / g;
    let x9: u128 = (x7 * x2) / g;
    proof {
        assert(x8 <= 47_000_000_000);
        assert(x9 <= 76_000_000_000);
        lemma_mul_le(x8 as int, x2 as int, 47_000_000_000, 2_600_000_000);
    }
    let x10: u128 = (x8 * x2) / g;
    proof {
        assert(x10 <= 123_000_000_000);
    }

    // sine: x - x3/6 + x5/120 - x7/5040 + x9/362880
    let sin_pos: u128 = xw + x5 / 120 + x9 / 362880;
    let sin_neg: u128 = x3 / 6 + x7 / 5040;
    let sv: i64 = if sin_pos >= sin_neg {
        (sin_pos - sin_neg) as i64
    } else {
        -((sin_neg - sin_pos) as i64)
    };
    // cosine: g - x2/2 + x4/24 - x6/720 + x8/40320 - x10/3628800
    let cos_pos: u128 = g + x4 / 24 + x8 / 40320;
    let cos_neg: u128 = x2 / 2 + x6 / 720 + x10 / 3628800;
    let cv: i64 = if cos_pos >= cos_neg {
        (cos_pos - cos_neg) as i64
    } else {
        -((cos_neg - cos_pos) as i64)
    };
    proof {
        assert(sv == poly_sin(x as int));
        assert(cv == poly_cos(x as int));
    }
    let sc: u64 = if sv < 0 {
        0
    } else if sv > TRIG_ONE as i64 {
        TRIG_ONE
    } else {
        sv as u64
    };
    let cc: u64 = if cv < 0 {
        0
    } else if cv > TRIG_ONE as i64 {
        TRIG_ONE
    } else {
        cv as u64
    };
    (sc, cc)
}

/// Reduces a micro-radian angle to its quadrant and offset.
fn reduce(a: i64) -> (r: (u64, u64))
    ensures
        r.0 == quadrant(a as int),
        r.1 == in_quadrant(a as int),
        r.0 <= 3,
        r.1 <= HALF_PI_NANO,
{
    let aa: u128 = abs_u128(a) * 1000;
    let m: u64 = (aa % (TWO_PI_NANO as u128)) as u64;
    let q: u64 = m / HALF_PI_NANO;
    let r0: u64 = m % HALF_PI_NANO;
    proof {
        assert(aa == abs_of(a as int) * 1000);
        assert(m == reduced(a as int));
        assert(4 * (HALF_PI_NANO as int) > TWO_PI_NANO as int);
    }
    (q, r0)
}

/// Sine of a fixed-point angle in micro-radians, in micro-units; the
/// exact value of [`spec_sin_micro`], always within the unit range.
pub fn sin_micro(a: i64) -> (r: i64)
    ensures
        r == spec_sin_micro(a as int),
        -1_000_000 <= r <= 1_000_000,
{
    let (q, r0) = reduce(a);
    let (ps, pc) = poly_both(r0);
    let mag: u64 = if q == 0 || q == 1 {
        if q == 0 {
            ps
        } else {
            pc
        }
    } else {
        if q == 2 {
            ps
        } else {
            pc
        }
    };
    let neg_quad: bool = q >= 2;
    let neg: bool = neg_quad != (a < 0);
    let micro: u64 = mag / 1000;
    if neg {
        -(micro as i64)
    } else {
        micro as i64
    }
}

/// Cosine of a fixed-point angle in micro-radians, in micro-units;
/// the exact value of [`spec_cos_micro`], always within the unit
/// range.
pub fn cos_micro(a: i64) -> (r: i64)
    ensures
        r == spec_cos_micro(a as int),
        -1_000_000 <= r <= 1_000_000,
{
    let (q, r0) = reduce(a);
    let (ps, pc) = poly_both(r0);
    let mag: u64 = if q == 0 || q == 3 {
        if q == 0 {
            pc
        } else {
            ps
        }
    } else {
        if q == 1 {
            ps
        } else {
            pc
        }
    };
    let neg: bool = q == 1 || q == 2;
    let micro: u64 = mag / 1000;
    if neg {
        -(micro as i64)
    } else {
        micro as i64
    }
}

} // verus!
