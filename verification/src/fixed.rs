//! Fixed-point arithmetic.
//!
//! A value of one world unit (one grid cell, or one radian for angles) is
//! represented by the integer `FX_ONE`; a fixed-point number is an `i64`
//! holding the real value times `FX_ONE`, rounded. Products and quotients
//! round toward zero, like hardware integer division, so that negating an
//! operand exactly negates the result.

use vstd::prelude::*;

verus! {

/// The scaling factor of the fixed-point representation.
pub const FX_ONE: i64 = 65536;

/// The angle pi in fixed-point radians, rounded to nearest.
pub const FX_PI: i64 = 205887;

/// The angle 2*pi in fixed-point radians, rounded to nearest.
pub const FX_TWO_PI: i64 = 411775;

/// The angle pi/2 in fixed-point radians, rounded to nearest.
pub const FX_HALF_PI: i64 = 102944;

/// Absolute value of a mathematical integer.
pub open spec fn abs_int(a: int) -> int {
    if a >= 0 {
        a
    } else {
        -a
    }
}

/// Quotient of `a` by `b`, rounded toward zero (the rounding rule of Rust's
/// `/` on machine integers, stated over mathematical integers).
pub open spec fn quot_trunc(a: int, b: int) -> int {
    if (a >= 0) == (b >= 0) {
        abs_int(a) / abs_int(b)
    } else {
        -(abs_int(a) / abs_int(b))
    }
}

/// Fixed-point product: `(a * b) / FX_ONE`, rounded toward zero.
pub open spec fn fx_mul(a: int, b: int) -> int {
    quot_trunc(a * b, FX_ONE as int)
}

/// Fixed-point quotient: `(a * FX_ONE) / b`, rounded toward zero.
pub open spec fn fx_div(a: int, b: int) -> int {
    quot_trunc(a * FX_ONE, b)
}

/// Largest multiple of `FX_ONE` that is at most `a` (`/` on `int` is
/// Euclidean division, which rounds toward negative infinity).
pub open spec fn fx_floor(a: int) -> int {
    (a / (FX_ONE as int)) * FX_ONE
}

/// Smallest multiple of `FX_ONE` that is at least `a`.
pub open spec fn fx_ceil(a: int) -> int {
    -fx_floor(-a)
}

/// Quotient rounded toward zero, computed through unsigned division.
pub fn div_toward_zero(a: i64, b: i64) -> (r: i64)
    requires
        b != 0,
        a > i64::MIN,
        b > i64::MIN,
    ensures
        r == quot_trunc(a as int, b as int),
        abs_int(r as int) <= abs_int(a as int),
{
    let ua: u64 = if a >= 0 {
        a as u64
    } else {
        (-a) as u64
    };
    let ub: u64 = if b >= 0 {
        b as u64
    } else {
        (-b) as u64
    };
    let q: u64 = ua / ub;
    proof {
        assert(ua == abs_int(a as int));
        assert(ub == abs_int(b as int));
        assert(q == abs_int(a as int) / abs_int(b as int));
        assert(q <= ua) by {
            vstd::arithmetic::div_mod::lemma_div_is_ordered_by_denominator(ua as int, 1, ub as int);
        }
    }
    if (a < 0) != (b < 0) {
        -(q as i64)
    } else {
        q as i64
    }
}

/// Fixed-point product, rounded toward zero.
pub fn mul_fixed(a: i64, b: i64) -> (r: i64)
    requires
        -0x7fff_ffff_ffff_ffff <= a * b <= 0x7fff_ffff_ffff_ffff,
    ensures
        r == fx_mul(a as int, b as int),
{
    let p: i64 = a * b;
    div_toward_zero(p, FX_ONE)
}

/// Fixed-point quotient, rounded toward zero.
pub fn div_fixed(a: i64, b: i64) -> (r: i64)
    requires
        b != 0,
        b > i64::MIN,
        -0x4000_0000_0000 <= a <= 0x4000_0000_0000,
    ensures
        r == fx_div(a as int, b as int),
{
    let p: i64 = a * FX_ONE;
    div_toward_zero(p, b)
}

/// Largest multiple of `FX_ONE` at most `a`.
pub fn floor_fixed(a: i64) -> (r: i64)
    requires
        -0x4000_0000_0000_0000 <= a <= 0x4000_0000_0000_0000,
    ensures
        r == fx_floor(a as int),
        a - FX_ONE < r <= a,
{
    let s: i64 = FX_ONE;
    let r: i64 = if a >= 0 {
        let q: u64 = (a as u64) / (s as u64);
        (q * (s as u64)) as i64
    } else {
        let m: u64 = (-a) as u64;
        let q: u64 = (m + (s as u64) - 1) / (s as u64);
        -((q * (s as u64)) as i64)
    };
    proof {
        let ai = a as int;
        let si = s as int;
        if a >= 0 {
            vstd::arithmetic::div_mod::lemma_fundamental_div_mod(ai, si);
            vstd::arithmetic::div_mod::lemma_mod_division_less_than_divisor(ai, si);
            assert(r == (ai / si) * si);
        } else {
            let m = (-ai);
            let q = (m + si - 1) / si;
            vstd::arithmetic::div_mod::lemma_fundamental_div_mod(m + si - 1, si);
            vstd::arithmetic::div_mod::lemma_mod_division_less_than_divisor(m + si - 1, si);
            // q * si is the smallest multiple of si that is >= m
            assert(m <= q * si < m + si);
            assert(r == -(q * si));
            assert(r <= ai < r + si);
            // hence -q is exactly ai / si
            vstd::arithmetic::div_mod::lemma_fundamental_div_mod_converse_div(ai, si, -q, ai - r);
            assert(ai / si == -q);
        }
        assert(r == fx_floor(ai));
        vstd::arithmetic::div_mod::lemma_fundamental_div_mod(ai, si);
        vstd::arithmetic::div_mod::lemma_mod_division_less_than_divisor(ai, si);
    }
    r
}

/// Smallest multiple of `FX_ONE` at least `a`.
pub fn ceil_fixed(a: i64) -> (r: i64)
    requires
        -0x4000_0000_0000_0000 <= a <= 0x4000_0000_0000_0000,
    ensures
        r == fx_ceil(a as int),
        a <= r < a + FX_ONE,
{
    let r: i64 = floor_fixed(-a);
    -r
}

/// Truncating toward zero commutes with negating the dividend. This is the
/// arithmetic heart of the move round trip: stepping backward undoes exactly
/// what stepping forward added.
pub proof fn lemma_quot_trunc_neg(a: int, b: int)
    requires
        b != 0,
    ensures
        quot_trunc(-a, b) == -quot_trunc(a, b),
{
}

/// Negating one factor negates a fixed-point product exactly.
pub proof fn lemma_fx_mul_neg(a: int, b: int)
    ensures
        fx_mul(-a, b) == -fx_mul(a, b),
{
    assert((-a) * b == -(a * b)) by (nonlinear_arith);
    lemma_quot_trunc_neg(a * b, FX_ONE as int);
}

/// A fixed-point product with a factor bounded by one whole unit is no larger
/// in magnitude than the other factor.
pub proof fn lemma_fx_mul_bound(a: int, b: int)
    requires
        abs_int(b) <= FX_ONE,
    ensures
        abs_int(fx_mul(a, b)) <= abs_int(a),
{
    let p = a * b;
    assert(abs_int(p) == abs_int(a) * abs_int(b)) by {
        if a >= 0 && b >= 0 {
            assert(a * b >= 0) by (nonlinear_arith)
                requires
                    a >= 0,
                    b >= 0,
            ;
        } else if a < 0 && b < 0 {
            assert(a * b >= 0 && (-a) * (-b) == a * b) by (nonlinear_arith)
                requires
                    a < 0,
                    b < 0,
            ;
        } else if a >= 0 {
            assert(a * b <= 0 && a * (-b) == -(a * b)) by (nonlinear_arith)
                requires
                    a >= 0,
                    b < 0,
            ;
        } else {
            assert(a * b <= 0 && (-a) * b == -(a * b)) by (nonlinear_arith)
                requires
                    a < 0,
                    b >= 0,
            ;
        }
    }
    assert(abs_int(a) * abs_int(b) <= abs_int(a) * (FX_ONE as int)) by (nonlinear_arith)
        requires
            abs_int(b) <= FX_ONE,
            abs_int(a) >= 0,
    ;
    assert(abs_int(p) / (FX_ONE as int) <= (abs_int(a) * (FX_ONE as int)) / (FX_ONE as int)) by {
        vstd::arithmetic::div_mod::lemma_div_is_ordered(
            abs_int(p),
            abs_int(a) * (FX_ONE as int),
            FX_ONE as int,
        );
    }
    assert((abs_int(a) * (FX_ONE as int)) / (FX_ONE as int) == abs_int(a)) by {
        vstd::arithmetic::div_mod::lemma_div_by_multiple(abs_int(a), FX_ONE as int);
    }
}

/// A quotient by a nonzero divisor is no larger in magnitude than the
/// dividend.
pub proof fn lemma_quot_trunc_bound(a: int, b: int)
    requires
        b != 0,
    ensures
        abs_int(quot_trunc(a, b)) <= abs_int(a),
{
    vstd::arithmetic::div_mod::lemma_div_is_ordered_by_denominator(abs_int(a), 1, abs_int(b));
}

/// The nonnegative integer square root, as the unique value whose square
/// brackets `n`. For negative `n` no value satisfies the property, so the
/// result is unspecified there.
pub open spec fn sqrt_floor(n: int) -> int {
    choose|r: int| r >= 0 && #[trigger] (r * r) <= n && n < (r + 1) * (r + 1)
}

/// Any value whose square brackets `n` is the integer square root of `n`.
pub proof fn lemma_sqrt_floor_unique(n: int, r: int)
    requires
        r >= 0,
        r * r <= n,
        n < (r + 1) * (r + 1),
    ensures
        sqrt_floor(n) == r,
{
    assert(r >= 0 && #[trigger] (r * r) <= n && n < (r + 1) * (r + 1));
    let s = sqrt_floor(n);
    assert(s >= 0 && s * s <= n && n < (s + 1) * (s + 1));
    if s < r {
        assert((s + 1) * (s + 1) <= r * r) by (nonlinear_arith)
            requires
                0 <= s,
                s < r,
        ;
    }
    if r < s {
        assert((r + 1) * (r + 1) <= s * s) by (nonlinear_arith)
            requires
                0 <= r,
                r < s,
        ;
    }
}

/// Integer square root of a 128-bit value, by binary search.
pub fn isqrt128(n: u128) -> (r: u64)
    requires
        n < 0x1000_0000_0000_0000_0000_0000,  // 2^92
    ensures
        (r as int) * (r as int) <= n as int,
        n < ((r as int) + 1) * ((r as int) + 1),
        r < 0x4000_0000_0000,
        r as int == sqrt_floor(n as int),
{
    let mut lo: u128 = 0;
    let mut hi: u128 = 0x4000_0000_0000;  // 2^46
    proof {
        assert((0x4000_0000_0000 as int) * (0x4000_0000_0000 as int)
            == 0x1000_0000_0000_0000_0000_0000);
    }
    while lo + 1 < hi
        invariant
            lo < hi <= 0x4000_0000_0000,
            (lo as int) * (lo as int) <= n as int,
            (n as int) < (hi as int) * (hi as int),
        decreases hi - lo,
    {
        let mid: u128 = lo + (hi - lo) / 2;
        proof {
            assert(lo < mid < hi);
            assert((mid as int) * (mid as int) < 0x1000_0000_0000_0000_0000_0000)
                by (nonlinear_arith)
                requires
                    mid < 0x4000_0000_0000u128,
            ;
        }
        if mid * mid <= n {
            lo = mid;
        } else {
            hi = mid;
        }
    }
    proof {
        assert(hi == lo + 1);
        lemma_sqrt_floor_unique(n as int, lo as int);
    }
    lo as u64
}

} // verus!
