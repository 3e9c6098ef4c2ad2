//! Fixed-point arithmetic shared by the order-book and evaluator code.
//!
//! An amount of an asset, a price, or a percentage is stored as an integer
//! count of ticks of `1 / SCALE`, so `0.01` is the integer `1_000_000`.

use vstd::prelude::*;

verus! {

/// Number of fixed-point ticks in one unit: eight decimal places.
pub const SCALE: u64 = 100_000_000;

/// Largest multiple of `s` that is at most `q`.
pub open spec fn spec_floor_to_step(q: int, s: int) -> int {
    q / s * s
}

/// [`spec_floor_to_step`] over machine words.
pub open spec fn spec_floor_u64(q: u64, s: u64) -> u64 {
    spec_floor_to_step(q as int, s as int) as u64
}

/// The step floor stays within the word, is a multiple of the step, and
/// agrees with the unbounded floor.
pub proof fn lemma_floor_u64_props(q: u64, s: u64)
    requires
        s > 0,
    ensures
        spec_floor_u64(q, s) <= q,
        spec_floor_u64(q, s) as int % s as int == 0,
        spec_floor_u64(q, s) as int == spec_floor_to_step(q as int, s as int),
{
    vstd::arithmetic::div_mod::lemma_fundamental_div_mod(q as int, s as int);
    vstd::arithmetic::div_mod::lemma_mod_division_less_than_divisor(q as int, s as int);
    vstd::arithmetic::mul::lemma_mul_is_commutative(q as int / s as int, s as int);
    assert(0 <= spec_floor_to_step(q as int, s as int) <= q as int) by {
        vstd::arithmetic::div_mod::lemma_div_is_ordered(0, q as int, s as int);
        vstd::arithmetic::mul::lemma_mul_nonnegative(q as int / s as int, s as int);
    }
    vstd::arithmetic::div_mod::lemma_mod_multiples_basic(q as int / s as int, s as int);
}

/// Round a quantity down to an integer multiple of the lot step.
pub fn floor_to_step(q: u64, step: u64) -> (r: u64)
    requires
        step > 0,
    ensures
        r == spec_floor_to_step(q as int, step as int),
        r == spec_floor_u64(q, step),
        r <= q,
        r as int % step as int == 0,
{
    proof {
        vstd::arithmetic::div_mod::lemma_fundamental_div_mod(q as int, step as int);
        vstd::arithmetic::div_mod::lemma_mod_division_less_than_divisor(q as int, step as int);
        assert(q as int / step as int * step as int % step as int == 0) by {
            vstd::arithmetic::div_mod::lemma_mod_multiples_basic(
                q as int / step as int,
                step as int,
            );
        }
        assert(q as int / step as int * step as int <= q as int) by {
            vstd::arithmetic::div_mod::lemma_fundamental_div_mod(q as int, step as int);
            vstd::arithmetic::div_mod::lemma_mod_division_less_than_divisor(q as int, step as int);
            vstd::arithmetic::mul::lemma_mul_is_commutative(
                q as int / step as int,
                step as int,
            );
        }
    }
    (q / step) * step
}

/// Flooring a quantity to a step twice gives the same result as doing it once.
pub proof fn lemma_floor_to_step_idempotent(q: int, s: int)
    requires
        s > 0,
        q >= 0,
    ensures
        spec_floor_to_step(spec_floor_to_step(q, s), s) == spec_floor_to_step(q, s),
{
    let d = q / s;
    vstd::arithmetic::div_mod::lemma_div_multiples_vanish(d, s);
    assert(d * s / s == d);
}

/// Fixed-point product, rounded down, capped at the largest representable
/// value.
pub open spec fn spec_fp_mul(a: u64, b: u64) -> u64 {
    if a * b / (SCALE as int) > u64::MAX {
        u64::MAX
    } else {
        (a * b / (SCALE as int)) as u64
    }
}

/// Fixed-point quotient, rounded down, capped at the largest representable
/// value.
pub open spec fn spec_fp_div(a: u64, b: u64) -> u64 {
    if a * (SCALE as int) / (b as int) > u64::MAX {
        u64::MAX
    } else {
        (a * (SCALE as int) / (b as int)) as u64
    }
}

/// Saturating sum.
pub open spec fn spec_add_sat(a: u64, b: u64) -> u64 {
    if a + b > u64::MAX {
        u64::MAX
    } else {
        (a + b) as u64
    }
}

/// Sum of two multiples of `step`, capped at the largest such multiple that
/// is representable.
pub open spec fn spec_add_capped(a: u64, b: u64, step: u64) -> u64 {
    if a + b > u64::MAX {
        spec_floor_to_step(u64::MAX as int, step as int) as u64
    } else {
        (a + b) as u64
    }
}

/// Difference, floored at zero.
pub open spec fn spec_sub_sat(a: u64, b: u64) -> u64 {
    if a >= b {
        (a - b) as u64
    } else {
        0
    }
}

pub fn fp_mul(a: u64, b: u64) -> (r: u64)
    ensures
        r == spec_fp_mul(a, b),
{
    proof {
        vstd::arithmetic::mul::lemma_mul_upper_bound(
            a as int,
            u64::MAX as int,
            b as int,
            u64::MAX as int,
        );
    }
    let p: u128 = (a as u128) * (b as u128);
    let q: u128 = p / (SCALE as u128);
    if q > u64::MAX as u128 {
        u64::MAX
    } else {
        q as u64
    }
}

pub fn fp_div(a: u64, b: u64) -> (r: u64)
    requires
        b > 0,
    ensures
        r == spec_fp_div(a, b),
{
    proof {
        vstd::arithmetic::mul::lemma_mul_upper_bound(
            a as int,
            u64::MAX as int,
            SCALE as int,
            SCALE as int,
        );
    }
    let p: u128 = (a as u128) * (SCALE as u128);
    let q: u128 = p / (b as u128);
    if q > u64::MAX as u128 {
        u64::MAX
    } else {
        q as u64
    }
}

pub fn add_sat(a: u64, b: u64) -> (r: u64)
    ensures
        r == spec_add_sat(a, b),
{
    if a > u64::MAX - b {
        u64::MAX
    } else {
        a + b
    }
}

pub fn add_capped(a: u64, b: u64, step: u64) -> (r: u64)
    requires
        step > 0,
        a as int % step as int == 0,
        b as int % step as int == 0,
    ensures
        r == spec_add_capped(a, b, step),
        r as int % step as int == 0,
{
    if a > u64::MAX - b {
        floor_to_step(u64::MAX, step)
    } else {
        proof {
            vstd::arithmetic::div_mod::lemma_add_mod_noop(a as int, b as int, step as int);
            vstd::arithmetic::div_mod::lemma_small_mod(0, step as nat);
        }
        a + b
    }
}

pub fn sub_sat(a: u64, b: u64) -> (r: u64)
    ensures
        r == spec_sub_sat(a, b),
{
    if a >= b {
        a - b
    } else {
        0
    }
}

/// Signed net return of `gross` over `investment`, in fixed-point ticks:
/// `(gross - investment) / investment`, the magnitude rounded down.
pub open spec fn spec_profit_ratio(gross: u64, investment: u64) -> int {
    if gross >= investment {
        (gross - investment) * (SCALE as int) / (investment as int)
    } else {
        -((investment - gross) * (SCALE as int) / (investment as int))
    }
}

pub fn profit_ratio(gross: u64, investment: u64) -> (r: i128)
    requires
        investment > 0,
    ensures
        r as int == spec_profit_ratio(gross, investment),
{
    if gross >= investment {
        proof {
            vstd::arithmetic::mul::lemma_mul_upper_bound(
                (gross - investment) as int,
                u64::MAX as int,
                SCALE as int,
                SCALE as int,
            );
        }
        let d: u128 = ((gross - investment) as u128) * (SCALE as u128) / (investment as u128);
        d as i128
    } else {
        proof {
            vstd::arithmetic::mul::lemma_mul_upper_bound(
                (investment - gross) as int,
                u64::MAX as int,
                SCALE as int,
                SCALE as int,
            );
        }
        let d: u128 = ((investment - gross) as u128) * (SCALE as u128) / (investment as u128);
        -(d as i128)
    }
}

/// The per-leg fee multiplier `(100 - fee) / 100` applied three times, all in
/// fixed point; `fee` is a percentage in fixed-point ticks.
pub open spec fn spec_fee_multiplier_cubed(fee: u64) -> u64 {
    let m = (((100 * (SCALE as int)) - fee) / 100) as u64;
    spec_fp_mul(spec_fp_mul(m, m), m)
}

pub fn fee_multiplier_cubed(fee: u64) -> (r: u64)
    requires
        fee <= 100 * SCALE,
    ensures
        r == spec_fee_multiplier_cubed(fee),
{
    let m: u64 = (100 * SCALE - fee) / 100;
    fp_mul(fp_mul(m, m), m)
}


/// The rounding unit the executor uses for an order quantity: one tick of the
/// coarsest decimal place at which the lot step is at least one, capped at a
/// whole unit.
pub open spec fn spec_round_unit(step: u64) -> u64 {
    if step >= 100000000 {
        100000000
    } else if step >= 10000000 {
        10000000
    } else if step >= 1000000 {
        1000000
    } else if step >= 100000 {
        100000
    } else if step >= 10000 {
        10000
    } else if step >= 1000 {
        1000
    } else if step >= 100 {
        100
    } else if step >= 10 {
        10
    } else {
        1
    }
}

fn round_unit(step: u64) -> (r: u64)
    ensures
        r == spec_round_unit(step),
        r > 0,
{
    if step >= 100000000 {
        100000000
    } else if step >= 10000000 {
        10000000
    } else if step >= 1000000 {
        1000000
    } else if step >= 100000 {
        100000
    } else if step >= 10000 {
        10000
    } else if step >= 1000 {
        1000
    } else if step >= 100 {
        100
    } else if step >= 10 {
        10
    } else {
        1
    }
}

/// Round half up to the nearest multiple of the unit implied by the lot step,
/// capped at the largest such multiple that is representable.
pub open spec fn spec_custom_round(q: u64, step: u64) -> u64 {
    let unit = spec_round_unit(step) as int;
    let r = (q + unit / 2) / unit * unit;
    if r > u64::MAX {
        (u64::MAX as int / unit * unit) as u64
    } else {
        r as u64
    }
}

/// The executor's quantity rounding: to the number of decimal places the lot
/// step implies, half up.
pub fn custom_round(quantity: u64, step: u64) -> (r: u64)
    requires
        step > 0,
    ensures
        r == spec_custom_round(quantity, step),
{
    let unit = round_unit(step);
    let half: u128 = (unit / 2) as u128;
    let d: u128 = ((quantity as u128) + half) / (unit as u128);
    let r: u128 = d * (unit as u128);
    proof {
        vstd::arithmetic::div_mod::lemma_fundamental_div_mod(
            quantity as int + (unit / 2) as int,
            unit as int,
        );
        vstd::arithmetic::div_mod::lemma_mod_division_less_than_divisor(
            quantity as int + (unit / 2) as int,
            unit as int,
        );
        vstd::arithmetic::mul::lemma_mul_is_commutative(
            (quantity as int + (unit / 2) as int) / unit as int,
            unit as int,
        );
    }
    if r > u64::MAX as u128 {
        floor_to_step(u64::MAX, unit)
    } else {
        r as u64
    }
}
} // verus!
