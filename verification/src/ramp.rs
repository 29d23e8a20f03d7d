//! Smooth transitions between two raw brightness values.

use crate::rounding::{
    exp2, lemma_exp2_inverse, lemma_exp2_monotone, lemma_exp2_step, lemma_exp2_sum,
    lemma_exp2_values, lemma_floor_of_half, lemma_half_up, lemma_nearest_exact,
    lemma_nearest_monotone, lemma_nearest_off, nearest_double, power_of_two, round_ratio, spaced,
    DOUBLE_EMIN, DOUBLE_PRECISION,
};
use vstd::prelude::*;

verus! {

/// How far along a ramp is after `step` of `steps` steps, in double precision.
pub open spec fn fraction(step: int, steps: int) -> real {
    nearest_double((step as real) / (steps as real))
}

/// Where a ramp stands after `step` of `steps` steps, in double precision.
pub open spec fn position(from: int, to: int, step: int, steps: int) -> real {
    nearest_double(
        (from as real) + nearest_double(((to - from) as real) * fraction(step, steps)),
    )
}

/// The raw value written at a step: the position rounded to an integer, ties up.
pub open spec fn ramp_value(from: int, to: int, step: int, steps: int) -> int {
    (position(from, to, step, steps) + 1real / 2real).floor()
}

/// All the values of a ramp.
pub open spec fn ramp_values(from: u32, to: u32, steps: u32) -> Seq<u32> {
    if steps == 0 || from == to {
        seq![to]
    } else {
        Seq::new(
            steps as nat,
            |i: int| ramp_value(from as int, to as int, i + 1, steps as int) as u32,
        )
    }
}

/// Integers that a `u32` holds are double-precision numbers.
proof fn lemma_integer_exact(i: int)
    requires
        -0x1_0000_0000 <= i <= 0x1_0000_0000,
    ensures
        nearest_double(i as real) == i as real,
{
    let m = if i < 0 { -i } else { i };
    lemma_exp2_values();
    lemma_nearest_exact(53, -1074, m, 0);
    assert((m as real) * exp2(0) == m as real);
}

/// Rounding to double precision keeps the order.
proof fn lemma_double_monotone(x: real, y: real)
    requires
        x <= y,
    ensures
        nearest_double(x) <= nearest_double(y),
{
    lemma_nearest_monotone(53, -1074, x, y);
}

/// The fraction grows from just above zero to one.
proof fn lemma_fraction(step: int, steps: int)
    requires
        1 <= step <= steps,
        steps < 0x1_0000_0000,
    ensures
        exp2(-32) <= fraction(step, steps) <= 1real,
        step == steps ==> fraction(step, steps) == 1real,
{
    let x = (step as real) / (steps as real);
    let tiny = exp2(-32);
    lemma_raw_fraction(step, steps);
    lemma_exp2_values();
    lemma_double_monotone(tiny, x);
    lemma_double_monotone(x, 1real);
    lemma_integer_exact(1);
    lemma_nearest_exact(53, -1074, 1, -32);
    assert((1int as real) * tiny == tiny);
}

/// The exact fraction is in that range too.
proof fn lemma_raw_fraction(step: int, steps: int)
    requires
        1 <= step <= steps,
        steps < 0x1_0000_0000,
    ensures
        exp2(-32) <= (step as real) / (steps as real) <= 1real,
        step == steps ==> (step as real) / (steps as real) == 1real,
{
    let x = (step as real) / (steps as real);
    lemma_exp2_values();
    lemma_exp2_inverse(32);
    let tiny = exp2(-32);
    assert(tiny <= x && x <= 1real && (step == steps ==> x == 1real)) by (nonlinear_arith)
        requires
            x == (step as real) / (steps as real),
            1 <= step <= steps,
            steps < 0x1_0000_0000,
            (0x1_0000_0000int as real) * tiny == 1real,
            tiny > 0real,
    ;
}

/// The distance moved is between nothing and the whole span.
proof fn lemma_moved(span: int, f: real)
    requires
        1 <= span <= 0x1_0000_0000,
        exp2(-32) <= f <= 1real,
    ensures
        exp2(-32) <= (span as real) * f <= span as real,
        0real <= nearest_double((span as real) * f) <= span as real,
        nearest_double(((-span) as real) * f) == -nearest_double((span as real) * f),
{
    lemma_exp2_step(-32);
    assert(exp2(-32) <= (span as real) * f && (span as real) * f <= span as real)
        by (nonlinear_arith)
        requires
            1 <= span,
            0real < exp2(-32) <= f <= 1real,
    ;
    assert(((-span) as real) * f == -((span as real) * f)) by (nonlinear_arith);
    lemma_double_monotone((span as real) * f, span as real);
    lemma_double_monotone(0real, (span as real) * f);
    lemma_integer_exact(span);
    lemma_integer_exact(0);
}

/// A ramp stays between its ends, and ends at its target.
pub proof fn lemma_ramp_value_bounds(from: int, to: int, step: int, steps: int)
    requires
        0 <= from < 0x1_0000_0000,
        0 <= to < 0x1_0000_0000,
        from != to,
        1 <= step <= steps,
        steps < 0x1_0000_0000,
    ensures
        from < to ==> from <= ramp_value(from, to, step, steps) <= to,
        to < from ==> to <= ramp_value(from, to, step, steps) <= from,
        step == steps ==> ramp_value(from, to, step, steps) == to,
{
    let f = fraction(step, steps);
    lemma_fraction(step, steps);
    let span = if from < to { to - from } else { from - to };
    lemma_moved(span, f);
    let moved = nearest_double((span as real) * f);
    lemma_integer_exact(from);
    lemma_integer_exact(to);
    lemma_integer_exact(span);
    if from < to {
        let x = (from as real) + moved;
        lemma_double_monotone(from as real, x);
        lemma_double_monotone(x, to as real);
    } else {
        let x = (from as real) - moved;
        lemma_double_monotone(to as real, x);
        lemma_double_monotone(x, from as real);
    }
    if step == steps {
        assert((span as real) * f == span as real) by (nonlinear_arith)
            requires
                f == 1real,
        ;
        lemma_floor_of_half(to as real, to);
    }
}

/// Each step of a ramp moves towards the target or not at all.
pub proof fn lemma_ramp_value_monotone(from: int, to: int, step1: int, step2: int, steps: int)
    requires
        0 <= from < 0x1_0000_0000,
        0 <= to < 0x1_0000_0000,
        from != to,
        1 <= step1 <= step2 <= steps,
        steps < 0x1_0000_0000,
    ensures
        from < to ==> ramp_value(from, to, step1, steps) <= ramp_value(from, to, step2, steps),
        to < from ==> ramp_value(from, to, step2, steps) <= ramp_value(from, to, step1, steps),
{
    let x1 = (step1 as real) / (steps as real);
    let x2 = (step2 as real) / (steps as real);
    assert(x1 <= x2) by (nonlinear_arith)
        requires
            x1 == (step1 as real) / (steps as real),
            x2 == (step2 as real) / (steps as real),
            step1 <= step2,
            steps > 0,
    ;
    lemma_double_monotone(x1, x2);
    let f1 = fraction(step1, steps);
    let f2 = fraction(step2, steps);
    let span = (to - from) as real;
    if from < to {
        assert(span * f1 <= span * f2) by (nonlinear_arith)
            requires
                f1 <= f2,
                span > 0real,
        ;
        lemma_double_monotone(span * f1, span * f2);
        lemma_double_monotone(
            (from as real) + nearest_double(span * f1),
            (from as real) + nearest_double(span * f2),
        );
    } else {
        assert(span * f2 <= span * f1) by (nonlinear_arith)
            requires
                f1 <= f2,
                span < 0real,
        ;
        lemma_double_monotone(span * f2, span * f1);
        lemma_double_monotone(
            (from as real) + nearest_double(span * f2),
            (from as real) + nearest_double(span * f1),
        );
    }
}

/// The exponent of a double-precision number between `2^-32` and `2^32`.
proof fn lemma_exponent_range(x: real, e: int)
    requires
        spaced(53, -1074, x, e),
        exp2(-32) <= x <= 0x1_0000_0000int as real,
    ensures
        -85 < e <= -20,
{
    lemma_exp2_values();
    if e <= -85 {
        lemma_exp2_monotone(53 + e, -32);
    }
    if e > -20 {
        lemma_exp2_monotone(33, 52 + e);
        lemma_exp2_step(32);
    }
}

/// The raw value written at one step of a ramp.
fn value_at(from: u32, to: u32, step: u32, steps: u32) -> (value: u32)
    requires
        from != to,
        1 <= step <= steps,
    ensures
        value == ramp_value(from as int, to as int, step as int, steps as int),
{
    let rising = from < to;
    let span: u32 = if rising { to - from } else { from - to };
    let ghost f = fraction(step as int, steps as int);
    let ghost moved = nearest_double((span as int as real) * f);
    proof {
        lemma_fraction(step as int, steps as int);
        lemma_moved(span as int, f);
        lemma_exp2_values();
        let x = (step as int as real) / (steps as int as real);
        assert(x * exp2(0) == x);
    }
    let (m1, e1) = round_ratio(DOUBLE_PRECISION, DOUBLE_EMIN, step as u128, steps as u128, 0);
    proof {
        assert(f == (m1 as int as real) * exp2(e1 as int));
        let x = (step as int as real) / (steps as int as real);
        lemma_raw_fraction(step as int, steps as int);
        lemma_exponent_range(x, e1 as int);
        assert(span * m1 < 0x1_000000_000000_000000_000000_000000) by (nonlinear_arith)
            requires
                span < 0x1_0000_0000,
                m1 <= 0x20_0000_0000_0000,
        ;
        assert(((span * m1) as real) / 1real * exp2(e1 as int) == (span as int as real) * f)
            by (nonlinear_arith)
            requires
                f == (m1 as int as real) * exp2(e1 as int),
        ;
    }
    let (m2, e2) = round_ratio(
        DOUBLE_PRECISION,
        DOUBLE_EMIN,
        span as u128 * m1 as u128,
        1,
        e1,
    );
    proof {
        assert(moved == (m2 as int as real) * exp2(e2 as int));
        lemma_exponent_range((span as int as real) * f, e2 as int);
    }
    let scale = power_of_two((-e2) as u32);
    let ghost u = exp2(e2 as int);
    let ghost x = (from as int as real) + (if rising { moved } else { -moved });
    proof {
        lemma_exp2_inverse(e2 as int);
        lemma_exp2_step(52);
        assert(exp2(52) == 0x10_0000_0000_0000int as real);
        lemma_exp2_sum(32, 52);
        lemma_exp2_monotone(-e2, 84);
        assert(scale <= 0x10_0000_0000_0000_0000_0000);
        assert(from * scale < 0x10_0000_0000_0000_0000_0000_0000_0000) by (nonlinear_arith)
            requires
                from < 0x1_0000_0000,
                scale <= 0x10_0000_0000_0000_0000_0000,
        ;
        assert(((from * scale) as real) * u == from as int as real) by (nonlinear_arith)
            requires
                u * (scale as int as real) == 1real,
        ;
        if !rising {
            assert(m2 <= from * scale) by (nonlinear_arith)
                requires
                    (m2 as int as real) * u <= ((from * scale) as real) * u,
                    u > 0real,
            ;
        }
    }
    let base = from as u128 * scale;
    let n = if rising { base + m2 as u128 } else { base - m2 as u128 };
    proof {
        assert((n as int as real) / 1real * u == x) by (nonlinear_arith)
            requires
                (base as int as real) * u == from as int as real,
                moved == (m2 as int as real) * u,
                x == (from as int as real) + (if rising { moved } else { -moved }),
                n == (if rising { base + m2 } else { base - m2 }),
        ;
    }
    let (m3, e3) = round_ratio(DOUBLE_PRECISION, DOUBLE_EMIN, n, 1, e2);
    let ghost place = (m3 as int as real) * exp2(e3 as int);
    proof {
        assert(place == position(from as int, to as int, step as int, steps as int));
        lemma_ramp_value_bounds(from as int, to as int, step as int, steps as int);
    }
    if e3 < -54 {
        proof {
            lemma_exp2_sum(53, -55);
            lemma_exp2_monotone(e3 as int, -55);
            lemma_exp2_step(e3 as int);
            lemma_exp2_step(-2);
            lemma_exp2_step(-1);
            assert(0real <= place <= exp2(53) * exp2(-55)) by (nonlinear_arith)
                requires
                    place == (m3 as int as real) * exp2(e3 as int),
                    m3 as int as real <= exp2(53),
                    0real < exp2(e3 as int) <= exp2(-55),
            ;
            lemma_floor_of_half(place, 0);
        }
        return 0;
    }
    proof {
        if e3 >= 0 {
            lemma_exp2_monotone(33, 52 + e3);
            lemma_exp2_step(32);
        }
    }
    let whole = power_of_two((-e3) as u32);
    let half = power_of_two((-e3) as u32 - 1);
    proof {
        lemma_exp2_step(-e3 - 1);
        lemma_exp2_inverse(e3 as int);
        assert(place * ((half * 2) as real) == m3 as int as real) by (nonlinear_arith)
            requires
                place == (m3 as int as real) * exp2(e3 as int),
                exp2(e3 as int) * ((half * 2) as real) == 1real,
        ;
        lemma_half_up(place, m3 as int, half as int);
    }
    ((m3 as u128 + half) / whole) as u32
}

/// The values that lead from `from` to `to` in `steps` steps, the target last.
pub fn ramp(from: u32, to: u32, steps: u32) -> (values: Vec<u32>)
    ensures
        values@ == ramp_values(from, to, steps),
{
    let mut values: Vec<u32> = Vec::new();
    if steps == 0 || from == to {
        values.push(to);
        return values;
    }
    let mut done: u32 = 0;
    while done < steps
        invariant
            done <= steps,
            from != to,
            steps != 0,
            values@ == ramp_values(from, to, steps).take(done as int),
        decreases steps - done,
    {
        done = done + 1;
        values.push(value_at(from, to, done, steps));
    }
    assert(ramp_values(from, to, steps).take(steps as int) == ramp_values(from, to, steps));
    values
}

/// A ramp ends at its target and takes one value per step, or the target alone
/// if there is nothing to do or no step to do it in.
pub proof fn law_ramp_ends_at_target(from: u32, to: u32, steps: u32)
    ensures
        ramp_values(from, to, steps).last() == to,
        ramp_values(from, to, steps).len() == (if steps == 0 || from == to {
            1
        } else {
            steps as nat
        }),
{
    if steps != 0 && from != to {
        lemma_ramp_value_bounds(from as int, to as int, steps as int, steps as int);
    }
}

/// A ramp never turns back: its values rise to a higher target and fall to a
/// lower one.
pub proof fn law_ramp_is_monotone(from: u32, to: u32, steps: u32, i: int, j: int)
    requires
        0 <= i <= j < ramp_values(from, to, steps).len(),
    ensures
        from <= to ==> ramp_values(from, to, steps)[i] <= ramp_values(from, to, steps)[j],
        to <= from ==> ramp_values(from, to, steps)[j] <= ramp_values(from, to, steps)[i],
{
    if steps != 0 && from != to {
        lemma_ramp_value_bounds(from as int, to as int, i + 1, steps as int);
        lemma_ramp_value_bounds(from as int, to as int, j + 1, steps as int);
        lemma_ramp_value_monotone(from as int, to as int, i + 1, j + 1, steps as int);
    }
}

/// A ramp stays between where it starts and its target.
pub proof fn law_ramp_stays_between(from: u32, to: u32, steps: u32, i: int)
    requires
        0 <= i < ramp_values(from, to, steps).len(),
    ensures
        from <= to ==> from <= ramp_values(from, to, steps)[i] <= to,
        to <= from ==> to <= ramp_values(from, to, steps)[i] <= from,
{
    if steps != 0 && from != to {
        lemma_ramp_value_bounds(from as int, to as int, i + 1, steps as int);
    }
}

/// A ramp is even: each value is a whole number nearest to where an exactly even
/// ramp stands, but for two millionths by which a tie may be missed.
pub proof fn law_ramp_is_even(from: u32, to: u32, steps: u32, i: int)
    requires
        0 < steps,
        from != to,
        0 <= i < steps,
    ensures
        ({
            let exact = (from as int as real) + ((to - from) as real) * (((i + 1) as real) / (
            steps as int as real));
            let off = ramp_values(from, to, steps)[i] as int as real - exact;
            -(1real / 2real + 1real / 500000real) <= off <= 1real / 2real + 1real / 500000real
        }),
{
    let n = steps as int;
    let f = from as int;
    let span = to - from;
    lemma_ramp_value_bounds(f, to as int, i + 1, n);
    lemma_raw_fraction(i + 1, n);
    lemma_exp2_values();
    lemma_even_steps();
    let x = ((i + 1) as real) / (n as real);
    let q = fraction(i + 1, n);
    lemma_nearest_off(53, -1074, x, -52);
    lemma_fraction(i + 1, n);
    let s = span as real;
    assert(-4294967296real <= s * q <= 4294967296real) by (nonlinear_arith)
        requires
            -4294967296real <= s <= 4294967296real,
            0real <= q <= 1real,
    ;
    let moved = nearest_double(s * q);
    lemma_nearest_off(53, -1074, s * q, -20);
    let at = (f as real) + moved;
    lemma_nearest_off(53, -1074, at, -19);
    assert(-1real / 2097152real <= s * q - s * x <= 1real / 2097152real) by (nonlinear_arith)
        requires
            -4294967296real <= s <= 4294967296real,
            -1real / 9007199254740992real <= q - x <= 1real / 9007199254740992real,
    ;
}

/// How far rounding moves numbers of the magnitudes in question.
proof fn lemma_even_steps()
    ensures
        exp2(1) == 2real,
        exp2(33) == 8589934592real,
        exp2(34) == 17179869184real,
        exp2(-20) * 1048576real == 1real,
        exp2(-21) * 2097152real == 1real,
        exp2(-53) * 9007199254740992real == 1real,
        0real < exp2(-32),
{
    reveal_with_fuel(exp2, 3);
    lemma_exp2_values();
    lemma_exp2_sum(32, 1);
    lemma_exp2_sum(32, 2);
    lemma_exp2_sum(10, 10);
    lemma_exp2_step(20);
    lemma_exp2_inverse(20);
    lemma_exp2_inverse(21);
    lemma_exp2_inverse(53);
    lemma_exp2_step(-32);
}

}
