//! The cooling model itself: a fixed-point approximation of
//! `T(t) = T_env + (T_0 - T_env) * e^(-k * t * 60)` with
//! `k = (h * A) / (rho * V * c_p)`.
//!
//! The exponential factor is computed on a scale of `FRAC_ONE` (2^30):
//! the argument `x` stands for `x / FRAC_ONE`, and the result `r` stands
//! for `r / FRAC_ONE`.  The approximation is the classical limit form
//! `e^(-x) ~ (1 - x/n)^n` with `n = 2^20`: the base `1 - x/2^20` is
//! formed once and then squared twenty times.  Every step is floor
//! division, so the computed factor never exceeds `FRAC_ONE`, is exactly
//! `FRAC_ONE` at `x = 0`, never increases as `x` grows, and is exactly
//! `0` once `x` reaches `EXP_ARG_CAP` (2^50).

use vstd::prelude::*;

verus! {

use vstd::arithmetic::div_mod::{
    lemma_div_is_ordered,
    lemma_div_pos_is_pos,
    lemma_div_by_multiple,
    lemma_multiply_divide_lt,
    lemma_hoist_over_denominator,
    lemma_fundamental_div_mod,
};
use vstd::arithmetic::mul::{
    lemma_mul_inequality,
    lemma_mul_strict_inequality,
    lemma_mul_left_inequality,
    lemma_mul_upper_bound,
    lemma_mul_nonnegative,
    lemma_mul_strictly_positive,
    lemma_mul_is_distributive_add_other_way,
    lemma_mul_is_associative,
    lemma_mul_is_commutative,
};

/// Fixed-point one: the scale of the exponential factor, 2^30.
pub const FRAC_ONE: u64 = 0x4000_0000;

/// The range-reduction divisor, 2^20: the base of the limit form is
/// `FRAC_ONE - x / REDUCE`.
pub const REDUCE: u64 = 0x10_0000;

/// How many times the reduced base is squared: twenty squarings raise
/// it to the power 2^20, matching the range reduction by `REDUCE`.
pub const SQUARINGS: u64 = 20;

/// Arguments at or above this value (2^50) give an exponential factor of
/// exactly zero: the reduced base `FRAC_ONE - x / REDUCE` is no longer
/// positive.
pub const EXP_ARG_CAP: u64 = 0x4_0000_0000_0000;

/// One squaring step on the fixed-point scale: `y^2 / FRAC_ONE`.
pub open spec fn sq_scaled(y: int) -> int {
    (y * y) / (FRAC_ONE as int)
}

/// `n` squaring steps applied to `y`.
pub open spec fn iter_sq(y: int, n: nat) -> int
    decreases n,
{
    if n == 0 {
        y
    } else {
        iter_sq(sq_scaled(y), (n - 1) as nat)
    }
}

/// The fixed-point exponential factor: what `exp_neg_fixed` returns,
/// as a function of the mathematical argument.
pub open spec fn spec_exp_neg(x: int) -> int {
    let base = FRAC_ONE as int - x / (REDUCE as int);
    if base <= 0 {
        0
    } else {
        iter_sq(base, SQUARINGS as nat)
    }
}

proof fn lemma_sq_scaled_bounds(y: int)
    requires
        0 <= y <= FRAC_ONE as int,
    ensures
        0 <= sq_scaled(y) <= FRAC_ONE as int,
{
    lemma_mul_nonnegative(y, y);
    lemma_mul_upper_bound(y, FRAC_ONE as int, y, FRAC_ONE as int);
    lemma_div_is_ordered(y * y, (FRAC_ONE as int) * (FRAC_ONE as int), FRAC_ONE as int);
    lemma_div_by_multiple(FRAC_ONE as int, FRAC_ONE as int);
    if y * y > 0 {
        lemma_div_pos_is_pos(y * y, FRAC_ONE as int);
    }
}

proof fn lemma_sq_scaled_mono(y1: int, y2: int)
    requires
        0 <= y1 <= y2,
    ensures
        sq_scaled(y1) <= sq_scaled(y2),
{
    lemma_mul_upper_bound(y1, y2, y1, y2);
    lemma_div_is_ordered(y1 * y1, y2 * y2, FRAC_ONE as int);
}

proof fn lemma_iter_sq_bounds(y: int, n: nat)
    requires
        0 <= y <= FRAC_ONE as int,
    ensures
        0 <= iter_sq(y, n) <= FRAC_ONE as int,
    decreases n,
{
    if n > 0 {
        lemma_sq_scaled_bounds(y);
        lemma_iter_sq_bounds(sq_scaled(y), (n - 1) as nat);
    }
}

proof fn lemma_iter_sq_mono(y1: int, y2: int, n: nat)
    requires
        0 <= y1 <= y2 <= FRAC_ONE as int,
    ensures
        iter_sq(y1, n) <= iter_sq(y2, n),
    decreases n,
{
    if n > 0 {
        lemma_sq_scaled_mono(y1, y2);
        lemma_sq_scaled_bounds(y1);
        lemma_sq_scaled_bounds(y2);
        lemma_iter_sq_mono(sq_scaled(y1), sq_scaled(y2), (n - 1) as nat);
    }
}

proof fn lemma_iter_sq_of_one(n: nat)
    ensures
        iter_sq(FRAC_ONE as int, n) == FRAC_ONE as int,
    decreases n,
{
    if n > 0 {
        lemma_div_by_multiple(FRAC_ONE as int, FRAC_ONE as int);
        assert(sq_scaled(FRAC_ONE as int) == FRAC_ONE as int);
        lemma_iter_sq_of_one((n - 1) as nat);
    }
}

/// At argument zero the exponential factor is exactly one.
pub proof fn lemma_exp_neg_at_zero()
    ensures
        spec_exp_neg(0) == FRAC_ONE as int,
{
    lemma_iter_sq_of_one(SQUARINGS as nat);
}

/// The exponential factor always lies between zero and one.
pub proof fn lemma_exp_neg_bounds(x: int)
    requires
        x >= 0,
    ensures
        0 <= spec_exp_neg(x) <= FRAC_ONE as int,
{
    let u = x / (REDUCE as int);
    lemma_div_is_ordered(0, x, REDUCE as int);
    let base = FRAC_ONE as int - u;
    if base > 0 {
        lemma_iter_sq_bounds(base, SQUARINGS as nat);
    }
}

/// The exponential factor never increases as the argument grows.
pub proof fn lemma_exp_neg_antitone(x1: int, x2: int)
    requires
        0 <= x1 <= x2,
    ensures
        spec_exp_neg(x2) <= spec_exp_neg(x1),
{
    lemma_div_is_ordered(0, x1, REDUCE as int);
    lemma_div_is_ordered(x1, x2, REDUCE as int);
    let base1 = FRAC_ONE as int - x1 / (REDUCE as int);
    let base2 = FRAC_ONE as int - x2 / (REDUCE as int);
    if base2 > 0 {
        lemma_iter_sq_mono(base2, base1, SQUARINGS as nat);
    } else if base1 > 0 {
        lemma_iter_sq_bounds(base1, SQUARINGS as nat);
    }
}

/// At or beyond `EXP_ARG_CAP` the exponential factor is exactly zero.
pub proof fn lemma_exp_neg_vanishes(x: int)
    requires
        x >= EXP_ARG_CAP as int,
    ensures
        spec_exp_neg(x) == 0,
{
    lemma_div_is_ordered(EXP_ARG_CAP as int, x, REDUCE as int);
}

/// The fixed-point exponential factor, scaled by `FRAC_ONE`.
pub fn exp_neg_fixed(x: u64) -> (r: u64)
    ensures
        r == spec_exp_neg(x as int),
        r <= FRAC_ONE,
{
    let u = x / REDUCE;
    if u >= FRAC_ONE {
        return 0;
    }
    let mut y: u64 = FRAC_ONE - u;
    let ghost base: int = y as int;
    let mut i: u64 = 0;
    while i < SQUARINGS
        invariant
            i <= SQUARINGS,
            y <= FRAC_ONE,
            iter_sq(base, SQUARINGS as nat) == iter_sq(y as int, (SQUARINGS - i) as nat),
            spec_exp_neg(x as int) == iter_sq(base, SQUARINGS as nat),
        decreases SQUARINGS - i,
    {
        proof {
            lemma_mul_upper_bound(y as int, FRAC_ONE as int, y as int, FRAC_ONE as int);
            lemma_sq_scaled_bounds(y as int);
        }
        y = (y * y) / FRAC_ONE;
        i = i + 1;
    }
    y
}

/// Bound on the heat-transfer coefficient `h`, micro-W/(m^2*K): 2^40.
pub const H_MAX: u64 = 0x100_0000_0000;

/// Bound on the exposed surface area `A`, micro-m^2: 2^40.
pub const AREA_MAX: u64 = 0x100_0000_0000;

/// Bound on the density `rho`, micro-kg/m^3: 2^32.
pub const RHO_MAX: u64 = 0x1_0000_0000;

/// Bound on the volume `V`, micro-m^3: 2^32.
pub const VOL_MAX: u64 = 0x1_0000_0000;

/// Bound on the specific heat capacity `c_p`, micro-J/(kg*K): 2^34.
pub const CP_MAX: u64 = 0x4_0000_0000;

/// Bound on the elapsed time `t`, micro-minutes: 2^41, about four years.
pub const TIME_MAX: u64 = 0x200_0000_0000;

/// Bound on the magnitude of a temperature, micro-degrees Celsius: 2^31,
/// about 2147 degrees either side of zero.
pub const TEMP_MAX: i64 = 0x8000_0000;

/// The physical parameters the model accepts: positive coefficients
/// within the machine bounds, temperatures within `TEMP_MAX`.
pub open spec fn valid_params(
    t_env: int,
    t_0: int,
    h: int,
    a: int,
    rho: int,
    v: int,
    cp: int,
) -> bool {
    &&& -(TEMP_MAX as int) <= t_env <= TEMP_MAX as int
    &&& -(TEMP_MAX as int) <= t_0 <= TEMP_MAX as int
    &&& 0 < h <= H_MAX as int
    &&& 0 < a <= AREA_MAX as int
    &&& 0 < rho <= RHO_MAX as int
    &&& 0 < v <= VOL_MAX as int
    &&& 0 < cp <= CP_MAX as int
}

/// The argument of the exponential, scaled by `FRAC_ONE` and capped at
/// `EXP_ARG_CAP`: the fixed-point form of `k * t * 60` with
/// `k = (h * A) / (rho * V * c_p)` and `t` in minutes.  All inputs are
/// in micro-units, which cancel: the micro-scales of `h`, `A` and `t`
/// against those of `rho`, `V` and `c_p`, the remaining 10^6 of `t`
/// against the seconds-per-minute factor applied to `k`'s per-second
/// units... the quotient below is the dimensionless exponent itself.
pub open spec fn spec_exponent(t: int, h: int, a: int, rho: int, v: int, cp: int) -> int {
    let x = (h * a * 60 * t * (FRAC_ONE as int)) / (rho * v * cp);
    if x > EXP_ARG_CAP as int {
        EXP_ARG_CAP as int
    } else {
        x
    }
}

/// At time zero the exponent is zero.
pub proof fn lemma_exponent_at_zero(h: int, a: int, rho: int, v: int, cp: int)
    requires
        0 < h,
        0 < a,
        0 < rho,
        0 < v,
        0 < cp,
    ensures
        spec_exponent(0, h, a, rho, v, cp) == 0,
{
    lemma_mul_strictly_positive(rho, v);
    lemma_mul_strictly_positive(rho * v, cp);
    assert(h * a * 60 * 0 * (FRAC_ONE as int) == 0);
}

/// The exponent grows (never shrinks) with time, and is never negative.
pub proof fn lemma_exponent_mono(t1: int, t2: int, h: int, a: int, rho: int, v: int, cp: int)
    requires
        0 <= t1 <= t2,
        0 < h,
        0 < a,
        0 < rho,
        0 < v,
        0 < cp,
    ensures
        0 <= spec_exponent(t1, h, a, rho, v, cp) <= spec_exponent(t2, h, a, rho, v, cp),
        spec_exponent(t1, h, a, rho, v, cp) <= EXP_ARG_CAP as int,
{
    lemma_mul_strictly_positive(h, a);
    lemma_mul_strictly_positive(rho, v);
    lemma_mul_strictly_positive(rho * v, cp);
    let den = rho * v * cp;
    let c = h * a * 60;
    lemma_mul_left_inequality(c, t1, t2);
    lemma_mul_nonnegative(c, t1);
    lemma_mul_inequality(c * t1, c * t2, FRAC_ONE as int);
    lemma_mul_nonnegative(c * t1, FRAC_ONE as int);
    lemma_div_is_ordered(0, c * t1 * (FRAC_ONE as int), den);
    lemma_div_is_ordered(c * t1 * (FRAC_ONE as int), c * t2 * (FRAC_ONE as int), den);
}

/// The exponent, computed exactly: the quotient is split as
/// `q * FRAC_ONE + (rem * FRAC_ONE) / den` so that every intermediate
/// value fits in 128 bits.
pub fn cooling_exponent(t: u64, h: u64, a: u64, rho: u64, v: u64, cp: u64) -> (x: u64)
    requires
        0 < h <= H_MAX,
        0 < a <= AREA_MAX,
        0 < rho <= RHO_MAX,
        0 < v <= VOL_MAX,
        0 < cp <= CP_MAX,
        t <= TIME_MAX,
    ensures
        x == spec_exponent(t as int, h as int, a as int, rho as int, v as int, cp as int),
        x <= EXP_ARG_CAP,
{
    proof {
        lemma_mul_upper_bound(h as int, H_MAX as int, a as int, AREA_MAX as int);
        lemma_mul_inequality((h as int) * (a as int), (H_MAX as int) * (AREA_MAX as int), 60);
        lemma_mul_nonnegative(h as int, a as int);
        lemma_mul_nonnegative((h as int) * (a as int), 60);
        lemma_mul_upper_bound(
            (h as int) * (a as int) * 60,
            (H_MAX as int) * (AREA_MAX as int) * 60,
            t as int,
            TIME_MAX as int,
        );
        lemma_mul_strictly_positive(rho as int, v as int);
        lemma_mul_strictly_positive((rho as int) * (v as int), cp as int);
        lemma_mul_upper_bound(rho as int, RHO_MAX as int, v as int, VOL_MAX as int);
        lemma_mul_upper_bound(
            (rho as int) * (v as int),
            (RHO_MAX as int) * (VOL_MAX as int),
            cp as int,
            CP_MAX as int,
        );
    }
    let num: u128 = (h as u128) * (a as u128) * 60 * (t as u128);
    let den: u128 = (rho as u128) * (v as u128) * (cp as u128);
    let q: u128 = num / den;
    let rem: u128 = num % den;
    proof {
        lemma_fundamental_div_mod(num as int, den as int);
        lemma_hoist_over_denominator(
            (rem as int) * (FRAC_ONE as int),
            (q as int) * (FRAC_ONE as int),
            den as nat,
        );
        assert((num as int) * (FRAC_ONE as int)
            == (rem as int) * (FRAC_ONE as int) + ((q as int) * (FRAC_ONE as int)) * (den as int)) by {
            assert(num as int == (den as int) * (q as int) + rem as int);
            assert((num as int) * (FRAC_ONE as int)
                == ((den as int) * (q as int)) * (FRAC_ONE as int) + (rem as int) * (FRAC_ONE as int)) by {
                lemma_mul_is_distributive_add_other_way(
                    FRAC_ONE as int,
                    (den as int) * (q as int),
                    rem as int,
                );
            }
            assert(((den as int) * (q as int)) * (FRAC_ONE as int)
                == ((q as int) * (FRAC_ONE as int)) * (den as int)) by {
                lemma_mul_is_commutative(den as int, q as int);
                lemma_mul_is_associative(q as int, den as int, FRAC_ONE as int);
                lemma_mul_is_commutative(den as int, FRAC_ONE as int);
                lemma_mul_is_associative(q as int, FRAC_ONE as int, den as int);
            }
        }
        // hence the exact quotient splits:
        assert(((num as int) * (FRAC_ONE as int)) / (den as int)
            == ((rem as int) * (FRAC_ONE as int)) / (den as int) + (q as int) * (FRAC_ONE as int));
        lemma_mul_nonnegative(rem as int, FRAC_ONE as int);
        lemma_div_pos_is_pos((rem as int) * (FRAC_ONE as int), den as int);
        lemma_div_is_ordered(0, (rem as int) * (FRAC_ONE as int), den as int);
        lemma_mul_strict_inequality(rem as int, den as int, FRAC_ONE as int);
        lemma_multiply_divide_lt((rem as int) * (FRAC_ONE as int), den as int, FRAC_ONE as int);
    }
    if q >= REDUCE as u128 {
        proof {
            lemma_mul_inequality(REDUCE as int, q as int, FRAC_ONE as int);
        }
        EXP_ARG_CAP
    } else {
        let lo: u128 = rem * (FRAC_ONE as u128) / den;
        proof {
            lemma_mul_inequality(q as int, REDUCE as int - 1, FRAC_ONE as int);
        }
        (q as u64) * FRAC_ONE + (lo as u64)
    }
}

/// The temperature the model reports, micro-degrees Celsius: the
/// ambient temperature plus the initial excess scaled by the
/// exponential factor.  The two sign cases keep every division
/// non-negative, so each is a plain floor.
pub open spec fn spec_soda_temp(
    t: int,
    t_env: int,
    t_0: int,
    h: int,
    a: int,
    rho: int,
    v: int,
    cp: int,
) -> int {
    let f = spec_exp_neg(spec_exponent(t, h, a, rho, v, cp));
    if t_0 >= t_env {
        t_env + ((t_0 - t_env) * f) / (FRAC_ONE as int)
    } else {
        t_env - ((t_env - t_0) * f) / (FRAC_ONE as int)
    }
}

/// The instantaneous temperature of the drink after `t` micro-minutes,
/// for parameters in micro-units.
pub fn soda_temp(
    t: u64,
    t_env: i64,
    t_0: i64,
    h: u64,
    a: u64,
    rho: u64,
    v: u64,
    cp: u64,
) -> (r: i64)
    requires
        valid_params(t_env as int, t_0 as int, h as int, a as int, rho as int, v as int, cp as int),
        t <= TIME_MAX,
    ensures
        r == spec_soda_temp(
            t as int,
            t_env as int,
            t_0 as int,
            h as int,
            a as int,
            rho as int,
            v as int,
            cp as int,
        ),
{
    let x = cooling_exponent(t, h, a, rho, v, cp);
    let f = exp_neg_fixed(x);
    if t_0 >= t_env {
        let d: u64 = (t_0 - t_env) as u64;
        proof {
            lemma_mul_upper_bound(d as int, 2 * (TEMP_MAX as int), f as int, FRAC_ONE as int);
            lemma_mul_nonnegative(d as int, f as int);
            lemma_div_is_ordered(0, (d as int) * (f as int), FRAC_ONE as int);
            lemma_mul_upper_bound(d as int, d as int, f as int, FRAC_ONE as int);
            lemma_mul_is_commutative(d as int, FRAC_ONE as int);
            lemma_div_by_multiple(d as int, FRAC_ONE as int);
            lemma_div_is_ordered(
                (d as int) * (f as int),
                (d as int) * (FRAC_ONE as int),
                FRAC_ONE as int,
            );
        }
        let scaled: u64 = d * f / FRAC_ONE;
        t_env + (scaled as i64)
    } else {
        let d: u64 = (t_env - t_0) as u64;
        proof {
            lemma_mul_upper_bound(d as int, 2 * (TEMP_MAX as int), f as int, FRAC_ONE as int);
            lemma_mul_nonnegative(d as int, f as int);
            lemma_div_is_ordered(0, (d as int) * (f as int), FRAC_ONE as int);
            lemma_mul_upper_bound(d as int, d as int, f as int, FRAC_ONE as int);
            lemma_mul_is_commutative(d as int, FRAC_ONE as int);
            lemma_div_by_multiple(d as int, FRAC_ONE as int);
            lemma_div_is_ordered(
                (d as int) * (f as int),
                (d as int) * (FRAC_ONE as int),
                FRAC_ONE as int,
            );
        }
        let scaled: u64 = d * f / FRAC_ONE;
        t_env - (scaled as i64)
    }
}

/// At time zero the model reports the initial temperature exactly.
pub proof fn lemma_initial_temperature(
    t_env: int,
    t_0: int,
    h: int,
    a: int,
    rho: int,
    v: int,
    cp: int,
)
    requires
        valid_params(t_env, t_0, h, a, rho, v, cp),
    ensures
        spec_soda_temp(0, t_env, t_0, h, a, rho, v, cp) == t_0,
{
    lemma_exponent_at_zero(h, a, rho, v, cp);
    lemma_exp_neg_at_zero();
    if t_0 >= t_env {
        lemma_mul_is_commutative(t_0 - t_env, FRAC_ONE as int);
        lemma_div_by_multiple(t_0 - t_env, FRAC_ONE as int);
    } else {
        lemma_mul_is_commutative(t_env - t_0, FRAC_ONE as int);
        lemma_div_by_multiple(t_env - t_0, FRAC_ONE as int);
    }
}

/// As time increases the reported temperature moves toward the ambient
/// temperature and never crosses it: it stays between `t_env` and `t_0`,
/// and later readings are never farther from `t_env` than earlier ones.
/// When the drink starts at ambient temperature the model reports the
/// ambient temperature at every time.
pub proof fn lemma_monotone_toward_ambient(
    t1: int,
    t2: int,
    t_env: int,
    t_0: int,
    h: int,
    a: int,
    rho: int,
    v: int,
    cp: int,
)
    requires
        valid_params(t_env, t_0, h, a, rho, v, cp),
        0 <= t1 <= t2,
    ensures
        t_0 >= t_env ==> t_env
            <= spec_soda_temp(t2, t_env, t_0, h, a, rho, v, cp)
            <= spec_soda_temp(t1, t_env, t_0, h, a, rho, v, cp)
            <= t_0,
        t_0 <= t_env ==> t_0
            <= spec_soda_temp(t1, t_env, t_0, h, a, rho, v, cp)
            <= spec_soda_temp(t2, t_env, t_0, h, a, rho, v, cp)
            <= t_env,
        t_0 == t_env ==> spec_soda_temp(t1, t_env, t_0, h, a, rho, v, cp) == t_env,
{
    lemma_exponent_mono(t1, t2, h, a, rho, v, cp);
    let x1 = spec_exponent(t1, h, a, rho, v, cp);
    let x2 = spec_exponent(t2, h, a, rho, v, cp);
    lemma_exp_neg_bounds(x1);
    lemma_exp_neg_bounds(x2);
    lemma_exp_neg_antitone(x1, x2);
    let f1 = spec_exp_neg(x1);
    let f2 = spec_exp_neg(x2);
    let d = if t_0 >= t_env { t_0 - t_env } else { t_env - t_0 };
    lemma_mul_left_bounds(d, f2, f1);
    lemma_div_is_ordered(0, d * f2, FRAC_ONE as int);
    lemma_div_is_ordered(d * f2, d * f1, FRAC_ONE as int);
    lemma_div_is_ordered(d * f1, d * (FRAC_ONE as int), FRAC_ONE as int);
    lemma_mul_is_commutative(d, FRAC_ONE as int);
    lemma_div_by_multiple(d, FRAC_ONE as int);
}

/// For non-negative `d` and ordered non-negative factors, the products
/// with `d` are ordered and bounded by `d * FRAC_ONE`.
proof fn lemma_mul_left_bounds(d: int, f2: int, f1: int)
    requires
        0 <= d,
        0 <= f2 <= f1 <= FRAC_ONE as int,
    ensures
        0 <= d * f2 <= d * f1 <= d * (FRAC_ONE as int),
{
    lemma_mul_nonnegative(d, f2);
    lemma_mul_upper_bound(d, d, f2, f1);
    lemma_mul_upper_bound(d, d, f1, FRAC_ONE as int);
}

/// Once the elapsed time is large enough that the scaled exponent
/// reaches its cap, the model reports the ambient temperature exactly,
/// and by `lemma_monotone_toward_ambient` it stays there: the reported
/// temperature converges to `t_env`.
pub proof fn lemma_ambient_limit(
    t: int,
    t_env: int,
    t_0: int,
    h: int,
    a: int,
    rho: int,
    v: int,
    cp: int,
)
    requires
        valid_params(t_env, t_0, h, a, rho, v, cp),
        h * a * 60 * t >= (REDUCE as int) * (rho * v * cp),
    ensures
        spec_soda_temp(t, t_env, t_0, h, a, rho, v, cp) == t_env,
{
    let num = h * a * 60 * t;
    let den = rho * v * cp;
    lemma_mul_strictly_positive(rho, v);
    lemma_mul_strictly_positive(rho * v, cp);
    lemma_mul_inequality((REDUCE as int) * den, num, FRAC_ONE as int);
    assert(((REDUCE as int) * den) * (FRAC_ONE as int) == ((EXP_ARG_CAP as int) * den)) by {
        lemma_mul_is_commutative(REDUCE as int, den);
        lemma_mul_is_associative(den, REDUCE as int, FRAC_ONE as int);
        lemma_mul_is_commutative(den, (REDUCE as int) * (FRAC_ONE as int));
    }
    lemma_mul_is_commutative(EXP_ARG_CAP as int, den);
    lemma_div_by_multiple(EXP_ARG_CAP as int, den);
    lemma_div_is_ordered((EXP_ARG_CAP as int) * den, num * (FRAC_ONE as int), den);
    assert(((EXP_ARG_CAP as int) * den) / den == EXP_ARG_CAP as int);
    lemma_exp_neg_vanishes(spec_exponent(t, h, a, rho, v, cp));
    let d = if t_0 >= t_env { t_0 - t_env } else { t_env - t_0 };
    assert(d * 0 == 0);
    assert(0int / (FRAC_ONE as int) == 0);
}

} // verus!
