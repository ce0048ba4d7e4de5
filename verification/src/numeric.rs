//! Exact integer arithmetic for the projection engine.
//!
//! Positions are carried in micro-AU and the view scale as a rational number,
//! so the geometry needs division that rounds to the nearest integer (halves
//! away from zero) and a fixed-point sine on a whole-turn angle of 65536
//! units, with amplitude 65536. The sine is a rational half-wave
//! approximation, exact in integer arithmetic, so every screen coordinate is
//! a pure function of the inputs.

use vstd::prelude::*;
use vstd::arithmetic::div_mod::{lemma_div_pos_is_pos, lemma_multiply_divide_lt};

verus! {

/// Half a turn, in angle units: the angle scale is 65536 units per turn.
pub const HALF_TURN: i64 = 32768;

/// A quarter turn in angle units.
pub const QUARTER_TURN: i64 = 16384;

/// The fixed-point amplitude standing for 1.0 in sine and cosine values.
pub const SIN_ONE: i64 = 65536;

/// Division rounded to the nearest integer, halves away from zero.
pub open spec fn round_div(n: int, d: int) -> int
    recommends
        0 < d,
{
    if n >= 0 {
        (2 * n + d) / (2 * d)
    } else {
        -((2 * (-n) + d) / (2 * d))
    }
}

/// Nearest-integer division on machine words; the quotient never grows past
/// the numerator in magnitude.
pub fn round_div_i128(n: i128, d: i128) -> (q: i128)
    requires
        0 < d,
        -0x4000_0000_0000_0000_0000_0000_0000_0000 <= n
            <= 0x4000_0000_0000_0000_0000_0000_0000_0000,
        d <= 0x4000_0000_0000_0000_0000_0000_0000_0000,
    ensures
        q == round_div(n as int, d as int),
        n >= 0 ==> 0 <= q <= n,
        n <= 0 ==> n <= q <= 0,
{
    let neg = n < 0;
    let m: u128 = if neg {
        (-n) as u128
    } else {
        n as u128
    };
    let du: u128 = d as u128;
    let qu: u128 = (2 * m + du) / (2 * du);
    proof {
        let mi = m as int;
        let di = du as int;
        lemma_div_pos_is_pos(2 * mi + di, 2 * di);
        assert(2 * mi + di < 2 * di * (mi + 1)) by (nonlinear_arith)
            requires
                0 <= mi,
                1 <= di,
        ;
        lemma_multiply_divide_lt(2 * mi + di, 2 * di, mi + 1);
    }
    let qi = qu as i128;
    if neg {
        -qi
    } else {
        qi
    }
}

/// Nearest-integer value of the product `a * b` divided by `d`.
pub fn mul_div_round(a: i128, b: i128, d: i128) -> (q: i128)
    requires
        0 < d <= 0x4000_0000_0000_0000_0000_0000_0000_0000,
        -0x8000_0000_0000_0000 <= a <= 0x8000_0000_0000_0000,
        -0x8000_0000_0000_0000 <= b <= 0x8000_0000_0000_0000,
    ensures
        q == round_div(a * b, d as int),
        -0x4000_0000_0000_0000_0000_0000_0000_0000 <= q
            <= 0x4000_0000_0000_0000_0000_0000_0000_0000,
{
    proof {
        lemma_product_bound(a as int, b as int, 0x8000_0000_0000_0000);
    }
    let n = a * b;
    round_div_i128(n, d)
}

/// The product of two factors within `k` in magnitude is within `k * k`.
proof fn lemma_product_bound(a: int, b: int, k: int)
    requires
        0 <= k,
        -k <= a <= k,
        -k <= b <= k,
    ensures
        -(k * k) <= a * b <= k * k,
{
    assert(-(k * k) <= a * b <= k * k) by (nonlinear_arith)
        requires
            0 <= k,
            -k <= a <= k,
            -k <= b <= k,
    ;
}

/// The rising half-wave of the fixed-point sine: a rational approximation on
/// angles from zero to half a turn, scaled by `SIN_ONE` and capped there.
pub open spec fn sin_half_wave(a: int) -> int
    recommends
        0 <= a <= HALF_TURN,
{
    let m = a * (HALF_TURN - a);
    let raw = round_div(16 * m * SIN_ONE, 5 * HALF_TURN * HALF_TURN - 4 * m);
    if raw > SIN_ONE {
        SIN_ONE as int
    } else {
        raw
    }
}

/// The fixed-point sine over a whole turn: the half-wave, negated on the
/// second half.
pub open spec fn sin_fixed(a: int) -> int
    recommends
        0 <= a < 2 * HALF_TURN,
{
    if a <= HALF_TURN {
        sin_half_wave(a)
    } else {
        -sin_half_wave(a - HALF_TURN)
    }
}

/// The fixed-point cosine: the sine a quarter turn ahead.
pub open spec fn cos_fixed(a: int) -> int
    recommends
        0 <= a < 2 * HALF_TURN,
{
    if a + QUARTER_TURN < 2 * HALF_TURN {
        sin_fixed(a + QUARTER_TURN)
    } else {
        sin_fixed(a + QUARTER_TURN - 2 * HALF_TURN)
    }
}

/// Nearest-integer division sits within one of the floored quotient.
pub proof fn lemma_round_div_close(n: int, d: int)
    requires
        0 <= n,
        0 < d,
    ensures
        n / d <= round_div(n, d) <= n / d + 1,
        0 <= round_div(n, d),
{
    let k = n / d;
    vstd::arithmetic::div_mod::lemma_fundamental_div_mod(n, d);
    let r0 = n % d;
    assert(0 <= r0 < d) by {
        vstd::arithmetic::div_mod::lemma_mod_division_less_than_divisor(n, d);
    }
    if 2 * r0 + d < 2 * d {
        assert(2 * n + d == (2 * d) * k + (2 * r0 + d)) by (nonlinear_arith)
            requires
                n == d * k + r0,
        ;
        vstd::arithmetic::div_mod::lemma_div_multiples_vanish_fancy(k, 2 * r0 + d, 2 * d);
    } else {
        assert(2 * n + d == (2 * d) * (k + 1) + (2 * r0 - d)) by (nonlinear_arith)
            requires
                n == d * k + r0,
        ;
        vstd::arithmetic::div_mod::lemma_div_multiples_vanish_fancy(k + 1, 2 * r0 - d, 2 * d);
    }
    vstd::arithmetic::div_mod::lemma_div_pos_is_pos(n, d);
}

/// The rising half-wave stays within the fixed-point amplitude.
proof fn lemma_sin_half_range(a: int)
    requires
        0 <= a <= HALF_TURN,
    ensures
        0 <= sin_half_wave(a) <= SIN_ONE,
{
    let m = a * (HALF_TURN - a);
    assert(0 <= m <= 0x10000000) by (nonlinear_arith)
        requires
            0 <= a <= 32768,
            m == a * (32768 - a),
    ;
    let den = 5 * HALF_TURN * HALF_TURN - 4 * m;
    assert(den > 0);
    lemma_round_div_close(16 * m * SIN_ONE, den);
}

/// The fixed-point sine stays within its amplitude.
pub proof fn lemma_sin_fixed_range(a: int)
    requires
        0 <= a < 2 * HALF_TURN,
    ensures
        -SIN_ONE <= sin_fixed(a) <= SIN_ONE,
{
    if a <= HALF_TURN {
        lemma_sin_half_range(a);
    } else {
        lemma_sin_half_range(a - HALF_TURN);
    }
}

/// The fixed-point cosine stays within its amplitude.
pub proof fn lemma_cos_fixed_range(a: int)
    requires
        0 <= a < 2 * HALF_TURN,
    ensures
        -SIN_ONE <= cos_fixed(a) <= SIN_ONE,
{
    if a + QUARTER_TURN < 2 * HALF_TURN {
        lemma_sin_fixed_range(a + QUARTER_TURN);
    } else {
        lemma_sin_fixed_range(a + QUARTER_TURN - 2 * HALF_TURN);
    }
}

fn sin_half_exec(a: i64) -> (s: i64)
    requires
        0 <= a <= HALF_TURN,
    ensures
        s == sin_half_wave(a as int),
        0 <= s <= SIN_ONE,
{
    proof {
        lemma_product_bound(a as int, (HALF_TURN - a) as int, HALF_TURN as int);
    }
    let m: i64 = a * (HALF_TURN - a);
    proof {
        assert(0 <= m <= 0x4000_0000) by (nonlinear_arith)
            requires
                0 <= a <= 32768,
                m == a * (32768 - a),
        ;
    }
    let den: i64 = 5 * (HALF_TURN * HALF_TURN) - 4 * m;
    let num: i64 = 16 * m * SIN_ONE;
    let raw = round_div_i128(num as i128, den as i128) as i64;
    if raw > SIN_ONE {
        SIN_ONE
    } else {
        raw
    }
}

/// The fixed-point sine of an angle within one turn.
pub fn sin_exec(a: i64) -> (s: i64)
    requires
        0 <= a < 2 * HALF_TURN,
    ensures
        s == sin_fixed(a as int),
        -SIN_ONE <= s <= SIN_ONE,
{
    if a <= HALF_TURN {
        sin_half_exec(a)
    } else {
        -sin_half_exec(a - HALF_TURN)
    }
}

/// The fixed-point cosine of an angle within one turn.
pub fn cos_exec(a: i64) -> (c: i64)
    requires
        0 <= a < 2 * HALF_TURN,
    ensures
        c == cos_fixed(a as int),
        -SIN_ONE <= c <= SIN_ONE,
{
    let b = a + QUARTER_TURN;
    if b < 2 * HALF_TURN {
        sin_exec(b)
    } else {
        sin_exec(b - 2 * HALF_TURN)
    }
}

} // verus!
