//! Fixed-point trigonometry.
//!
//! Cosine and sine are computed from a truncated Taylor polynomial on one
//! quarter wave, after reducing the angle modulo `2*pi` and folding it into
//! the first quadrant. The polynomial value is clamped into `[0, FX_ONE]`, so
//! the results always lie in `[-FX_ONE, FX_ONE]`. The contracts pin the exact
//! integer each function returns; the polynomial tracks the real cosine to
//! about one part in a thousand, which the renderer's geometry absorbs.

use vstd::prelude::*;

use crate::fixed::FX_HALF_PI;
use crate::fixed::FX_ONE;
use crate::fixed::FX_PI;
use crate::fixed::FX_TWO_PI;

verus! {

/// One quarter wave of the cosine approximation on `[0, FX_HALF_PI]`:
/// `1 - x^2/2 + x^4/24 - x^6/720` in fixed point, clamped into `[0, FX_ONE]`.
pub open spec fn cos_quarter(x: int) -> int {
    let one = FX_ONE as int;
    let x2 = (x * x) / one;
    let x4 = (x2 * x2) / one;
    let x6 = (x4 * x2) / one;
    let up = one + x4 / 24;
    let down = x2 / 2 + x6 / 720;
    if down >= up {
        0
    } else if up - down > one {
        one
    } else {
        up - down
    }
}

/// The angle folded into `[0, FX_TWO_PI)` (`%` on `int` is the Euclidean
/// remainder, nonnegative for a positive modulus).
pub open spec fn wrap_angle_spec(a: int) -> int {
    a % (FX_TWO_PI as int)
}

/// Cosine of a fixed-point angle, by quadrant folding of the quarter wave.
pub open spec fn cos_fixed_spec(a: int) -> int {
    let r = wrap_angle_spec(a);
    if r < FX_HALF_PI {
        cos_quarter(r)
    } else if r < FX_PI {
        -cos_quarter(FX_PI - r)
    } else if r < FX_PI + FX_HALF_PI {
        -cos_quarter(r - FX_PI)
    } else {
        cos_quarter(FX_TWO_PI - r)
    }
}

/// Sine of a fixed-point angle: the cosine shifted by a quarter turn.
pub open spec fn sin_fixed_spec(a: int) -> int {
    cos_fixed_spec(a - FX_HALF_PI)
}

/// Evaluates the quarter-wave polynomial.
fn cos_quarter_eval(x: u64) -> (r: i64)
    requires
        x <= FX_HALF_PI,
    ensures
        r == cos_quarter(x as int),
        0 <= r <= FX_ONE,
{
    let one: u64 = FX_ONE as u64;
    proof {
        assert(x * x <= 102944int * 102944) by (nonlinear_arith)
            requires
                x <= 102944,
        ;
    }
    let x2: u64 = (x * x) / one;
    proof {
        vstd::arithmetic::div_mod::lemma_div_is_ordered(
            (x as int) * (x as int),
            102944int * 102944,
            one as int,
        );
        assert(x2 <= 161705);
        assert(x2 * x2 <= 161705int * 161705) by (nonlinear_arith)
            requires
                x2 <= 161705,
        ;
    }
    let x4: u64 = (x2 * x2) / one;
    proof {
        vstd::arithmetic::div_mod::lemma_div_is_ordered(
            (x2 as int) * (x2 as int),
            161705int * 161705,
            one as int,
        );
        assert(x4 <= 398994);
        assert(x4 * x2 <= 398994int * 161705) by (nonlinear_arith)
            requires
                x4 <= 398994,
                x2 <= 161705,
        ;
    }
    let x6: u64 = (x4 * x2) / one;
    let up: u64 = one + x4 / 24;
    let down: u64 = x2 / 2 + x6 / 720;
    if down >= up {
        0
    } else if up - down > one {
        FX_ONE
    } else {
        (up - down) as i64
    }
}

/// Folds a fixed-point angle into `[0, FX_TWO_PI)`.
pub fn wrap_angle(a: i64) -> (r: i64)
    requires
        a > i64::MIN,
    ensures
        r == wrap_angle_spec(a as int),
        0 <= r < FX_TWO_PI,
{
    let m: u64 = FX_TWO_PI as u64;
    if a >= 0 {
        let r: u64 = (a as u64) % m;
        proof {
            vstd::arithmetic::div_mod::lemma_mod_division_less_than_divisor(a as int, m as int);
        }
        r as i64
    } else {
        let n: u64 = ((-a) as u64) % m;
        proof {
            vstd::arithmetic::div_mod::lemma_mod_division_less_than_divisor((-a) as int, m as int);
        }
        let r: i64 = if n == 0 {
            0
        } else {
            (m - n) as i64
        };
        proof {
            let ai = a as int;
            let mi = m as int;
            let ni = (-ai) % mi;
            vstd::arithmetic::div_mod::lemma_fundamental_div_mod(-ai, mi);
            let q = (-ai) / mi;
            // -a == q * m + n, so a == (-q) * m - n; shift by one multiple when n != 0
            if ni == 0 {
                assert(ai == (-q) * mi + 0) by (nonlinear_arith)
                    requires
                        -ai == q * mi + 0,
                ;
                vstd::arithmetic::div_mod::lemma_fundamental_div_mod_converse_mod(ai, mi, -q, 0);
            } else {
                assert(ai == (-q - 1) * mi + (mi - ni)) by (nonlinear_arith)
                    requires
                        -ai == q * mi + ni,
                ;
                vstd::arithmetic::div_mod::lemma_fundamental_div_mod_converse_mod(
                    ai,
                    mi,
                    -q - 1,
                    mi - ni,
                );
            }
        }
        r
    }
}

/// Cosine of a fixed-point angle.
pub fn cos_fixed(a: i64) -> (r: i64)
    requires
        a > i64::MIN,
    ensures
        r == cos_fixed_spec(a as int),
        -FX_ONE <= r <= FX_ONE,
{
    let w: i64 = wrap_angle(a);
    if w < FX_HALF_PI {
        cos_quarter_eval(w as u64)
    } else if w < FX_PI {
        -cos_quarter_eval((FX_PI - w) as u64)
    } else if w < FX_PI + FX_HALF_PI {
        -cos_quarter_eval((w - FX_PI) as u64)
    } else {
        cos_quarter_eval((FX_TWO_PI - w) as u64)
    }
}

/// Sine of a fixed-point angle.
pub fn sin_fixed(a: i64) -> (r: i64)
    requires
        a > i64::MIN + FX_HALF_PI,
    ensures
        r == sin_fixed_spec(a as int),
        -FX_ONE <= r <= FX_ONE,
{
    cos_fixed(a - FX_HALF_PI)
}

} // verus!
