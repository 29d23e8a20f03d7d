//! Rounding of real numbers to binary floating-point formats.
//!
//! A format is given by its precision `p` (bits of significand) and by `emin`,
//! the exponent of its smallest positive number. The numbers of the format are
//! the `m * 2^e` with `0 <= m < 2^p` and `emin <= e`; the largest exponent is
//! the business of the types built on top.

use vstd::prelude::*;

verus! {

/// Bits of significand in single precision.
pub const SINGLE_PRECISION: u32 = 24;

/// Exponent of the smallest positive single-precision number.
pub const SINGLE_EMIN: i32 = -149;

/// Bits of significand in double precision.
pub const DOUBLE_PRECISION: u32 = 53;

/// Exponent of the smallest positive double-precision number.
pub const DOUBLE_EMIN: i32 = -1074;

/// `2^e`, for negative exponents too.
pub open spec fn exp2(e: int) -> real
    decreases (if e < 0 { -e } else { e }),
{
    if e == 0 {
        1real
    } else if e > 0 {
        exp2(e - 1) * 2real
    } else {
        exp2(e + 1) / 2real
    }
}

/// The integer nearest to `x`; of two equally near ones the even one.
pub open spec fn nearest_int(x: real) -> int {
    let below = x.floor();
    let twice = (x - (below as real)) * 2real;
    if twice < 1real || (twice == 1real && below % 2 == 0) {
        below
    } else {
        below + 1
    }
}

/// Whether consecutive numbers of the format are `2^e` apart around `x >= 0`.
pub open spec fn spaced(p: int, emin: int, x: real, e: int) -> bool {
    &&& emin <= e
    &&& x < exp2(p + e)
    &&& e == emin || exp2(p - 1 + e) <= x
}

/// The exponent of the distance between numbers of the format around `x >= 0`.
pub open spec fn spacing(p: int, emin: int, x: real) -> int {
    choose|e: int| spaced(p, emin, x, e)
}

/// The multiple of the local distance nearest to `x >= 0`, ties to even.
pub open spec fn nearest_magnitude(p: int, emin: int, x: real) -> real {
    let e = spacing(p, emin, x);
    (nearest_int(x * exp2(-e)) as real) * exp2(e)
}

/// `x` rounded to the nearest number of the format, ties to even.
pub open spec fn nearest(p: int, emin: int, x: real) -> real {
    if x < 0real {
        -nearest_magnitude(p, emin, -x)
    } else {
        nearest_magnitude(p, emin, x)
    }
}

/// `x` rounded to single precision, with no bound on the exponent from above.
pub open spec fn nearest_single(x: real) -> real {
    nearest(SINGLE_PRECISION as int, SINGLE_EMIN as int, x)
}

/// `x` rounded to double precision, with no bound on the exponent from above.
pub open spec fn nearest_double(x: real) -> real {
    nearest(DOUBLE_PRECISION as int, DOUBLE_EMIN as int, x)
}

/// Powers of two are positive and double from one exponent to the next.
pub proof fn lemma_exp2_step(e: int)
    ensures
        exp2(e + 1) == exp2(e) * 2real,
        exp2(e) > 0real,
    decreases (if e < 0 { -e } else { e }),
{
    if e > 0 {
        lemma_exp2_step(e - 1);
    } else if e < 0 {
        lemma_exp2_step(e + 1);
    }
}

/// `2^(a + b) == 2^a * 2^b`.
pub proof fn lemma_exp2_sum(a: int, b: int)
    ensures
        exp2(a + b) == exp2(a) * exp2(b),
    decreases (if b < 0 { -b } else { b }),
{
    if b == 0 {
        assert(exp2(a) * 1real == exp2(a));
    } else if b > 0 {
        lemma_exp2_sum(a, b - 1);
        lemma_exp2_step(a + b - 1);
        let x = exp2(a);
        let y = exp2(b - 1);
        assert((x * y) * 2real == x * (y * 2real)) by (nonlinear_arith);
    } else {
        lemma_exp2_sum(a, b + 1);
        lemma_exp2_step(a + b);
        lemma_exp2_step(b);
        let x = exp2(a);
        let y = exp2(b);
        let z = exp2(a + b);
        assert(z == x * y) by (nonlinear_arith)
            requires
                z * 2real == x * (y * 2real),
        ;
    }
}

/// Powers of two grow with the exponent.
pub proof fn lemma_exp2_monotone(a: int, b: int)
    requires
        a <= b,
    ensures
        exp2(a) <= exp2(b),
        a < b ==> exp2(a) * 2real <= exp2(b),
    decreases b - a,
{
    if a < b {
        lemma_exp2_step(a);
        lemma_exp2_monotone(a + 1, b);
    }
}

/// `2^e * 2^-e == 1`.
pub proof fn lemma_exp2_inverse(e: int)
    ensures
        exp2(e) * exp2(-e) == 1real,
        exp2(e) > 0real,
        exp2(-e) > 0real,
{
    lemma_exp2_sum(e, -e);
    lemma_exp2_step(e);
    lemma_exp2_step(-e);
}

/// The distance around a number is determined by it.
pub proof fn lemma_spaced_unique(p: int, emin: int, x: real, e1: int, e2: int)
    requires
        spaced(p, emin, x, e1),
        spaced(p, emin, x, e2),
    ensures
        e1 == e2,
{
    if e1 < e2 {
        lemma_exp2_monotone(p + e1, p - 1 + e2);
    } else if e2 < e1 {
        lemma_exp2_monotone(p + e2, p - 1 + e1);
    }
}

/// A number below `2^(p + k)` has a distance exponent, and it is at most `k`.
pub proof fn lemma_spaced_below(p: int, emin: int, x: real, k: int) -> (e: int)
    requires
        0real <= x < exp2(p + k),
        emin <= k,
    ensures
        spaced(p, emin, x, e),
        e <= k,
    decreases k - emin,
{
    if k == emin || exp2(p - 1 + k) <= x {
        k
    } else {
        lemma_spaced_below(p, emin, x, k - 1)
    }
}

/// `n < 2^n`.
proof fn lemma_below_exp2(n: int)
    requires
        0 <= n,
    ensures
        (n as real) < exp2(n),
    decreases n,
{
    if n > 0 {
        lemma_below_exp2(n - 1);
        lemma_exp2_step(n - 1);
        lemma_exp2_monotone(0, n - 1);
    }
}

/// Every non-negative number has a distance exponent.
pub proof fn lemma_spaced_exists(p: int, emin: int, x: real) -> (e: int)
    requires
        0real <= x,
        0 <= p,
    ensures
        spaced(p, emin, x, e),
        spacing(p, emin, x) == e,
{
    let n = x.floor() + 1;
    lemma_below_exp2(n);
    let k = if n > emin { n } else { emin };
    lemma_exp2_monotone(n, p + k);
    let e = lemma_spaced_below(p, emin, x, k);
    lemma_spaced_unique(p, emin, x, e, spacing(p, emin, x));
    e
}

/// How a number rounds, given the exponent of the distance around it.
pub proof fn lemma_nearest_at(p: int, emin: int, x: real, e: int)
    requires
        0real <= x,
        spaced(p, emin, x, e),
    ensures
        nearest(p, emin, x) == (nearest_int(x * exp2(-e)) as real) * exp2(e),
{
    lemma_spaced_unique(p, emin, x, e, spacing(p, emin, x));
}

/// A number within half a distance of an integer multiple of it, or on an even
/// tie, rounds to that multiple.
pub proof fn lemma_nearest_int_close(x: real, n: int)
    requires
        -1real < (x - (n as real)) * 2real < 1real,
    ensures
        nearest_int(x) == n,
{
}

/// Rounding to an integer keeps the order.
pub proof fn lemma_nearest_int_monotone(x: real, y: real)
    requires
        x <= y,
    ensures
        nearest_int(x) <= nearest_int(y),
{
}

/// The numbers of the format round to themselves.
pub proof fn lemma_nearest_exact(p: int, emin: int, m: int, e: int)
    requires
        0 <= m,
        m as real <= exp2(p),
        emin <= e,
        0 < p,
    ensures
        nearest(p, emin, (m as real) * exp2(e)) == (m as real) * exp2(e),
{
    let x = (m as real) * exp2(e);
    lemma_exp2_step(e);
    assert(0real <= x) by (nonlinear_arith)
        requires
            0real <= m as real,
            exp2(e) > 0real,
            x == (m as real) * exp2(e),
    ;
    let q = lemma_spaced_exists(p, emin, x);
    if q <= e {
        // x is a whole multiple of the finer distance 2^q.
        let k = lemma_exp2_whole(e - q);
        lemma_exp2_sum(e, -q);
        let scaled = x * exp2(-q);
        assert(scaled == (m as real) * exp2(e - q)) by (nonlinear_arith)
            requires
                x == (m as real) * exp2(e),
                exp2(e - q) == exp2(e) * exp2(-q),
                scaled == x * exp2(-q),
        ;
        assert(scaled == (m * k) as real) by (nonlinear_arith)
            requires
                scaled == (m as real) * exp2(e - q),
                exp2(e - q) == k as real,
        ;
        lemma_nearest_int_close(scaled, m * k);
        lemma_exp2_inverse(q);
        assert(scaled * exp2(q) == x) by (nonlinear_arith)
            requires
                scaled == x * exp2(-q),
                exp2(q) * exp2(-q) == 1real,
        ;
    } else {
        // Only 2^p * 2^e is that large.
        lemma_exp2_monotone(p + e, p - 1 + q);
        lemma_exp2_sum(p, e);
        assert(x <= exp2(p) * exp2(e)) by (nonlinear_arith)
            requires
                x == (m as real) * exp2(e),
                m as real <= exp2(p),
                exp2(e) > 0real,
        ;
        assert(x == exp2(p + e));
        assert(exp2(p - 1 + q) == x);
        let k = lemma_exp2_whole(p - 1);
        lemma_exp2_sum(p - 1, q);
        lemma_exp2_inverse(q);
        let scaled = x * exp2(-q);
        assert(scaled == exp2(p - 1)) by (nonlinear_arith)
            requires
                x == exp2(p - 1) * exp2(q),
                exp2(q) * exp2(-q) == 1real,
                scaled == x * exp2(-q),
        ;
        lemma_nearest_int_close(scaled, k);
    }
}

/// Powers of two with a non-negative exponent are integers.
pub proof fn lemma_exp2_whole(e: int) -> (k: int)
    requires
        0 <= e,
    ensures
        exp2(e) == k as real,
        1 <= k,
    decreases e,
{
    if e == 0 {
        1
    } else {
        2 * lemma_exp2_whole(e - 1)
    }
}

/// A significand does not exceed the format's precision.
pub proof fn lemma_significand_bounds(p: int, emin: int, x: real, e: int)
    requires
        0 < p,
        0real <= x,
        spaced(p, emin, x, e),
    ensures
        0 <= nearest_int(x * exp2(-e)),
        nearest_int(x * exp2(-e)) as real <= exp2(p),
{
    let full = lemma_exp2_whole(p);
    lemma_exp2_sum(p, e);
    lemma_exp2_inverse(e);
    let y = x * exp2(-e);
    assert(0real <= y <= full as real) by (nonlinear_arith)
        requires
            0real <= x < full as real * exp2(e),
            exp2(e) * exp2(-e) == 1real,
            exp2(-e) > 0real,
            y == x * exp2(-e),
    ;
    lemma_nearest_int_monotone(0real, y);
    lemma_nearest_int_monotone(y, full as real);
    lemma_nearest_int_close(full as real, full);
}

/// Rounding moves a number by half the distance around it at most.
pub proof fn lemma_nearest_error(p: int, emin: int, x: real, k: int)
    requires
        0real <= x < exp2(p + k),
        emin <= k,
    ensures
        -exp2(k - 1) <= nearest(p, emin, x) - x <= exp2(k - 1),
{
    let e = lemma_spaced_below(p, emin, x, k);
    lemma_nearest_at(p, emin, x, e);
    lemma_exp2_inverse(e);
    lemma_exp2_monotone(e - 1, k - 1);
    lemma_exp2_step(e - 1);
    let u = exp2(e);
    let y = x * exp2(-e);
    let n = nearest_int(y) as real;
    assert(-1real <= (n - y) * 2real <= 1real);
    assert(-u <= (n * u - x) * 2real <= u) by (nonlinear_arith)
        requires
            -1real <= (n - y) * 2real <= 1real,
            y == x * exp2(-e),
            u * exp2(-e) == 1real,
            u > 0real,
    ;
}

/// Rounding treats both signs alike, and keeps zero.
pub proof fn lemma_nearest_odd(p: int, emin: int, x: real)
    requires
        0 < p,
    ensures
        nearest(p, emin, -x) == -nearest(p, emin, x),
        nearest(p, emin, 0real) == 0real,
        x >= 0real ==> nearest(p, emin, x) >= 0real,
{
    lemma_exp2_monotone(0, p);
    let e = lemma_spaced_exists(p, emin, 0real);
    lemma_nearest_at(p, emin, 0real, e);
    let step = exp2(e);
    let scale = exp2(-e);
    assert(0real * scale == 0real) by (nonlinear_arith);
    lemma_nearest_int_close(0real, 0);
    assert(0real * step == 0real) by (nonlinear_arith);
    assert(nearest(p, emin, 0real) == 0real);
    assert(-(-x) == x);
    assert(x == 0real ==> -x == 0real);
    if x >= 0real {
        lemma_nearest_monotone(p, emin, 0real, x);
    }
}

/// Rounding moves a number of either sign by half the distance around it at
/// most.
pub proof fn lemma_nearest_off(p: int, emin: int, x: real, k: int)
    requires
        0 < p,
        -exp2(p + k) < x < exp2(p + k),
        emin <= k,
    ensures
        -exp2(k - 1) <= nearest(p, emin, x) - x <= exp2(k - 1),
{
    lemma_nearest_odd(p, emin, x);
    if x >= 0real {
        lemma_nearest_error(p, emin, x, k);
    } else {
        lemma_nearest_error(p, emin, -x, k);
    }
}

/// Rounding moves a number by its `2^p`-th part at most, but for the smallest
/// ones.
pub proof fn lemma_nearest_relative(p: int, emin: int, x: real)
    requires
        0 < p,
        0real <= x,
    ensures
        -(x * exp2(-p) + exp2(emin - 1)) <= nearest(p, emin, x) - x <= x * exp2(-p) + exp2(
            emin - 1,
        ),
        exp2(p - 1 + emin) <= x ==> -(x * exp2(-p)) <= nearest(p, emin, x) - x <= x * exp2(-p),
{
    let e = lemma_spaced_exists(p, emin, x);
    lemma_nearest_error(p, emin, x, e);
    lemma_exp2_step(-p);
    lemma_exp2_step(emin - 1);
    assert(0real <= x * exp2(-p)) by (nonlinear_arith)
        requires
            0real <= x,
            exp2(-p) > 0real,
    ;
    if exp2(p - 1 + e) <= x {
        lemma_exp2_sum(p - 1 + e, -p);
        assert(exp2(e - 1) <= x * exp2(-p)) by (nonlinear_arith)
            requires
                exp2(p - 1 + e) <= x,
                exp2(p - 1 + e) * exp2(-p) == exp2(e - 1),
                exp2(-p) > 0real,
        ;
    }
}

/// What is rounded stays as it is when rounded again.
pub proof fn lemma_nearest_stable(p: int, emin: int, x: real)
    requires
        0 < p,
        0real <= x,
    ensures
        nearest(p, emin, nearest(p, emin, x)) == nearest(p, emin, x),
{
    let e = lemma_spaced_exists(p, emin, x);
    lemma_significand_bounds(p, emin, x, e);
    lemma_nearest_exact(p, emin, nearest_int(x * exp2(-e)), e);
}

/// Rounding keeps the order of non-negative numbers.
pub proof fn lemma_nearest_magnitude_monotone(p: int, emin: int, x: real, y: real)
    requires
        0real <= x <= y,
        0 < p,
    ensures
        0real <= nearest_magnitude(p, emin, x) <= nearest_magnitude(p, emin, y),
{
    let ex = lemma_spaced_exists(p, emin, x);
    let ey = lemma_spaced_exists(p, emin, y);
    lemma_exp2_inverse(ex);
    lemma_exp2_inverse(ey);
    let ux = exp2(ex);
    let uy = exp2(ey);
    let sx = x * exp2(-ex);
    let sy = y * exp2(-ey);
    assert(0real <= sx) by (nonlinear_arith)
        requires
            0real <= x,
            exp2(-ex) > 0real,
            sx == x * exp2(-ex),
    ;
    lemma_nearest_int_monotone(0real, sx);
    let nx = nearest_int(sx);
    let ny = nearest_int(sy);
    assert(0real <= (nx as real) * ux) by (nonlinear_arith)
        requires
            0 <= nx,
            ux > 0real,
    ;
    if ex == ey {
        assert(sx <= sy) by (nonlinear_arith)
            requires
                x <= y,
                exp2(-ex) > 0real,
                sx == x * exp2(-ex),
                sy == y * exp2(-ex),
        ;
        lemma_nearest_int_monotone(sx, sy);
        assert((nx as real) * ux <= (ny as real) * ux) by (nonlinear_arith)
            requires
                nx <= ny,
                ux > 0real,
        ;
    } else if ex < ey {
        // x rounds to at most 2^(p + ex), y to at least 2^(p - 1 + ey).
        let full = lemma_exp2_whole(p);
        let half = lemma_exp2_whole(p - 1);
        lemma_exp2_sum(p, ex);
        lemma_exp2_sum(p - 1, ey);
        assert(sx <= full as real) by (nonlinear_arith)
            requires
                x < full as real * ux,
                ux * exp2(-ex) == 1real,
                exp2(-ex) > 0real,
                sx == x * exp2(-ex),
        ;
        assert(half as real <= sy) by (nonlinear_arith)
            requires
                half as real * uy <= y,
                uy * exp2(-ey) == 1real,
                exp2(-ey) > 0real,
                sy == y * exp2(-ey),
        ;
        lemma_nearest_int_monotone(sx, full as real);
        lemma_nearest_int_close(full as real, full);
        lemma_nearest_int_monotone(half as real, sy);
        lemma_nearest_int_close(half as real, half);
        assert((nx as real) * ux <= full as real * ux) by (nonlinear_arith)
            requires
                nx <= full,
                ux > 0real,
        ;
        assert(half as real * uy <= (ny as real) * uy) by (nonlinear_arith)
            requires
                half <= ny,
                uy > 0real,
        ;
        lemma_exp2_monotone(p + ex, p - 1 + ey);
    } else {
        lemma_exp2_monotone(p + ey, p - 1 + ex);
    }
}

/// Rounding keeps the order.
pub proof fn lemma_nearest_monotone(p: int, emin: int, x: real, y: real)
    requires
        x <= y,
        0 < p,
    ensures
        nearest(p, emin, x) <= nearest(p, emin, y),
{
    if 0real <= x {
        lemma_nearest_magnitude_monotone(p, emin, x, y);
    } else if y < 0real {
        lemma_nearest_magnitude_monotone(p, emin, -y, -x);
    } else {
        lemma_nearest_magnitude_monotone(p, emin, 0real, -x);
        lemma_nearest_magnitude_monotone(p, emin, 0real, y);
    }
}

/// The powers of two that bound the sizes below.
pub proof fn lemma_exp2_values()
    ensures
        exp2(10) == 1024int as real,
        exp2(23) == 0x80_0000int as real,
        exp2(24) == 0x100_0000int as real,
        exp2(32) == 0x1_0000_0000int as real,
        exp2(53) == 0x20_0000_0000_0000int as real,
        exp2(64) == 0x1_0000_0000_0000_0000int as real,
        exp2(120) == 0x1_000000_000000_000000_000000_000000int as real,
{
    reveal_with_fuel(exp2, 11);
    lemma_exp2_sum(10, 10);
    lemma_exp2_sum(20, 3);
    lemma_exp2_sum(20, 4);
    lemma_exp2_sum(24, 8);
    assert(exp2(32) == 0x1_0000_0000int as real);
    lemma_exp2_sum(32, 20);
    assert(exp2(52) == 0x10_0000_0000_0000int as real);
    lemma_exp2_sum(52, 1);
    lemma_exp2_sum(32, 32);
    assert(exp2(64) == 0x1_0000_0000_0000_0000int as real);
    lemma_exp2_sum(64, 32);
    assert(exp2(96) == 0x1_0000_0000_0000_0000_0000_0000int as real);
    lemma_exp2_sum(96, 24);
}

/// `2^k` as an integer.
pub fn power_of_two(k: u32) -> (power: u128)
    requires
        k <= 120,
    ensures
        power as int as real == exp2(k as int),
        1 <= power <= 0x1_000000_000000_000000_000000_000000,
{
    let mut power: u128 = 1;
    let mut done: u32 = 0;
    while done < k
        invariant
            done <= k <= 120,
            power as int as real == exp2(done as int),
            1 <= power <= 0x1_000000_000000_000000_000000_000000,
        decreases k - done,
    {
        proof {
            lemma_exp2_values();
            lemma_exp2_step(done as int);
            lemma_exp2_monotone(done + 1, 120);
        }
        power = power * 2;
        done = done + 1;
    }
    power
}

/// `n / d * 2^e`.
pub open spec fn scaled_ratio(n: int, d: int, e: int) -> real {
    (n as real) / (d as real) * exp2(e)
}

/// The nearest integer to `n / d`, by division with remainder.
proof fn lemma_nearest_int_ratio(y: real, n: int, d: int)
    requires
        0 < d,
        0 <= n,
        y * (d as real) == n as real,
    ensures
        nearest_int(y) == (if n % d * 2 < d || (n % d * 2 == d && n / d % 2 == 0) {
            n / d
        } else {
            n / d + 1
        }),
{
    let q = n / d;
    let r = n % d;
    vstd::arithmetic::div_mod::lemma_fundamental_div_mod(n, d);
    vstd::arithmetic::div_mod::lemma_mod_bound(n, d);
    let f = y - (q as real);
    assert(f * (d as real) == r as real) by (nonlinear_arith)
        requires
            y * (d as real) == n as real,
            n == d * q + r,
            f == y - (q as real),
    ;
    assert(0real <= f < 1real) by (nonlinear_arith)
        requires
            f * (d as real) == r as real,
            0 <= r < d,
    ;
    assert(y.floor() == q);
    assert(r * 2 < d ==> f * 2real < 1real) by (nonlinear_arith)
        requires
            f * (d as real) == r as real,
            0 < d,
    ;
    assert(r * 2 == d ==> f * 2real == 1real) by (nonlinear_arith)
        requires
            f * (d as real) == r as real,
            0 < d,
    ;
    assert(r * 2 > d ==> f * 2real > 1real) by (nonlinear_arith)
        requires
            f * (d as real) == r as real,
            0 < d,
    ;
}

/// Halving the scale doubles the numerator.
proof fn lemma_scale_down(x: real, n: int, d: int, e: int)
    requires
        (n as real) * exp2(e) == x * (d as real),
    ensures
        ((n * 2) as real) * exp2(e - 1) == x * (d as real),
{
    lemma_exp2_step(e - 1);
    let y = exp2(e - 1);
    assert(((n * 2) as real) * y == (n as real) * (y * 2real)) by (nonlinear_arith);
}

/// Doubling the scale doubles the denominator.
proof fn lemma_scale_up(x: real, n: int, d: int, e: int)
    requires
        (n as real) * exp2(e) == x * (d as real),
    ensures
        (n as real) * exp2(e + 1) == x * ((d * 2) as real),
{
    lemma_exp2_step(e);
    let y = exp2(e);
    assert((n as real) * (y * 2real) == x * ((d * 2) as real)) by (nonlinear_arith)
        requires
            (n as real) * y == x * (d as real),
    ;
}

/// What is less than half the smallest number of the format rounds to zero.
proof fn lemma_vanishing(p: int, emin: int, x: real, n: int, d: int, e: int)
    requires
        1 <= p,
        0real <= x,
        0 <= n,
        2 * n < d,
        e <= emin,
        (n as real) * exp2(e) == x * (d as real),
    ensures
        spaced(p, emin, x, emin),
        nearest_int(x * exp2(-emin)) == 0,
{
    lemma_exp2_monotone(e, emin);
    lemma_exp2_monotone(emin, p + emin);
    lemma_exp2_inverse(emin);
    let u = exp2(emin);
    let y = x * exp2(-emin);
    assert((n as real) * exp2(e) <= (n as real) * u) by (nonlinear_arith)
        requires
            exp2(e) <= u,
            0 <= n,
    ;
    assert(x * 2real < u) by (nonlinear_arith)
        requires
            x * (d as real) <= (n as real) * u,
            2 * n < d,
            0 <= n,
            u > 0real,
    ;
    assert(0real <= y && y * 2real < 1real) by (nonlinear_arith)
        requires
            x * 2real < u,
            0real <= x,
            u * exp2(-emin) == 1real,
            exp2(-emin) > 0real,
            y == x * exp2(-emin),
    ;
    lemma_nearest_int_close(y, 0);
}

/// A ratio scaled into the significand's range rounds by division.
proof fn lemma_spaced_ratio(p: int, emin: int, x: real, n: int, d: int, e: int, full: int)
    requires
        1 <= p,
        0real <= x,
        0 <= n < d * full,
        0 < d,
        full as real == exp2(p),
        emin <= e,
        e == emin || d * full <= 2 * n,
        (n as real) * exp2(e) == x * (d as real),
    ensures
        spaced(p, emin, x, e),
        nearest_int(x * exp2(-e)) == (if n % d * 2 < d || (n % d * 2 == d && n / d % 2 == 0) {
            n / d
        } else {
            n / d + 1
        }),
        0 <= n / d < full,
{
    lemma_exp2_sum(p, e);
    lemma_exp2_step(p - 1 + e);
    lemma_exp2_inverse(e);
    let u = exp2(e);
    let y = x * exp2(-e);
    assert(x < (full as real) * u) by (nonlinear_arith)
        requires
            (n as real) * u == x * (d as real),
            n < d * full,
            0 < d,
            u > 0real,
    ;
    if e != emin {
        assert((full as real) * u <= x * 2real) by (nonlinear_arith)
            requires
                (n as real) * u == x * (d as real),
                d * full <= 2 * n,
                0 < d,
                u > 0real,
        ;
    }
    assert(y * (d as real) == n as real) by (nonlinear_arith)
        requires
            (n as real) * u == x * (d as real),
            u * exp2(-e) == 1real,
            y == x * exp2(-e),
    ;
    lemma_nearest_int_ratio(y, n, d);
    assert(0 <= n / d < full) by (nonlinear_arith)
        requires
            0 <= n < d * full,
            0 < d,
    ;
}

/// Above the smallest exponent the significand keeps its leading bit.
proof fn lemma_significand_floor(p: int, emin: int, x: real, e: int)
    requires
        1 <= p,
        spaced(p, emin, x, e),
    ensures
        e == emin || exp2(p - 1) <= nearest_int(x * exp2(-e)) as real,
{
    if e != emin {
        let half = lemma_exp2_whole(p - 1);
        lemma_exp2_sum(p - 1, e);
        lemma_exp2_inverse(e);
        let y = x * exp2(-e);
        assert(half as real <= y) by (nonlinear_arith)
            requires
                (half as real) * exp2(e) <= x,
                exp2(e) * exp2(-e) == 1real,
                exp2(-e) > 0real,
                y == x * exp2(-e),
        ;
        lemma_nearest_int_monotone(half as real, y);
        lemma_nearest_int_close(half as real, half);
    }
}

/// Rounds `numer / denom * 2^e0` to the format: the result is the significand
/// and the exponent of the rounded number.
pub fn round_ratio(p: u32, emin: i32, numer: u128, denom: u128, e0: i32) -> (r: (u64, i32))
    requires
        1 <= p <= 53,
        -2000 <= emin <= 2000,
        -2000 <= e0 <= 2000,
        1 <= denom < 0x1_0000_0000_0000_0000,
        numer < 0x1_000000_000000_000000_000000_000000,
    ensures
        spaced(p as int, emin as int, scaled_ratio(numer as int, denom as int, e0 as int), r.1 as int),
        r.0 == nearest_int(
            scaled_ratio(numer as int, denom as int, e0 as int) * exp2(-(r.1 as int)),
        ),
        nearest(
            p as int,
            emin as int,
            scaled_ratio(numer as int, denom as int, e0 as int),
        ) == (r.0 as int as real) * exp2(r.1 as int),
        emin <= r.1 <= 5000,
        r.0 as int as real <= exp2(p as int),
        r.1 == emin || exp2(p - 1) <= r.0 as int as real,
        0real <= scaled_ratio(numer as int, denom as int, e0 as int),
{
    let ghost x = scaled_ratio(numer as int, denom as int, e0 as int);
    let half = power_of_two(p - 1);
    let mut n = numer;
    let mut d = denom;
    let mut e = e0;
    proof {
        lemma_exp2_values();
        lemma_exp2_step(p - 1);
        lemma_exp2_monotone(p as int, 53);
        assert(half * 2 <= 0x20_0000_0000_0000);
        assert(denom * half < 0x10_0000_0000_0000_0000_0000_0000_0000) by (nonlinear_arith)
            requires
                denom < 0x1_0000_0000_0000_0000,
                half <= 0x10_0000_0000_0000,
        ;
        let y = exp2(e0 as int);
        let nr = numer as int as real;
        let dr = denom as int as real;
        assert(nr * y == (nr / dr * y) * dr) by (nonlinear_arith)
            requires
                dr > 0real,
        ;
    }
    let low = denom * half;
    while e > emin && n < low
        invariant
            (n as int as real) * exp2(e as int) == x * (denom as int as real),
            emin <= e <= e0 || e == e0,
            -2000 <= emin <= 2000,
            -2000 <= e0 <= 2000,
            n < 0x1_000000_000000_000000_000000_000000,
            low < 0x10_0000_0000_0000_0000_0000_0000_0000,
        decreases e - emin,
    {
        proof {
            lemma_scale_down(x, n as int, denom as int, e as int);
        }
        n = n * 2;
        e = e - 1;
    }
    let mut high = low * 2;
    let ghost full = half * 2;
    let ghost e1 = e as int;
    let ghost mut doublings: int = 0;
    proof {
        assert(high == d * full) by (nonlinear_arith)
            requires
                high == low * 2,
                low == d * half,
                full == half * 2,
        ;
        assert(high >= d) by (nonlinear_arith)
            requires
                high == d * full,
                d >= 1,
                full >= 1,
        ;
    }
    while n >= high
        invariant
            (n as int as real) * exp2(e as int) == x * (d as int as real),
            high == d * full,
            1 <= full,
            1 <= d <= high < 0x2_000000_000000_000000_000000_000000,
            n < 0x1_000000_000000_000000_000000_000000,
            e <= emin || high <= 2 * n,
            e == e1 + doublings,
            0 <= doublings,
            exp2(doublings) <= high as int as real,
            -2000 <= e1 <= 2000,
            e <= 5000,
        decreases (if n >= high { n - high + 1 } else { 0 }),
    {
        proof {
            lemma_scale_up(x, n as int, d as int, e as int);
            lemma_exp2_step(doublings);
            lemma_exp2_values();
            lemma_exp2_step(120);
            if doublings >= 121 {
                lemma_exp2_monotone(121, doublings);
            }
            assert(high * 2 == (d * 2) * full) by (nonlinear_arith)
                requires
                    high == d * full,
            ;
            doublings = doublings + 1;
        }
        d = d * 2;
        high = high * 2;
        e = e + 1;
    }
    while e < emin && d <= n * 2
        invariant
            (n as int as real) * exp2(e as int) == x * (d as int as real),
            n < d * full,
            1 <= full,
            1 <= d < 0x8_000000_000000_000000_000000_000000,
            n < 0x1_000000_000000_000000_000000_000000,
            e <= emin || d * full <= 2 * n,
            e <= 5000,
            emin <= 2000,
        decreases emin - e,
    {
        proof {
            lemma_scale_up(x, n as int, d as int, e as int);
            assert(n < (d * 2) * full) by (nonlinear_arith)
                requires
                    n < d * full,
                    1 <= d,
                    1 <= full,
            ;
        }
        d = d * 2;
        e = e + 1;
    }
    proof {
        lemma_exp2_step(e as int);
        assert(0real <= x) by (nonlinear_arith)
            requires
                (n as int as real) * exp2(e as int) == x * (d as int as real),
                exp2(e as int) > 0real,
                d >= 1,
                n >= 0,
        ;
    }
    if e < emin {
        proof {
            lemma_vanishing(p as int, emin as int, x, n as int, d as int, e as int);
            lemma_nearest_at(p as int, emin as int, x, emin as int);
            lemma_exp2_step(p as int);
        }
        return (0, emin);
    }
    let quotient = n / d;
    let remainder = n % d;
    proof {
        lemma_spaced_ratio(p as int, emin as int, x, n as int, d as int, e as int, full as int);
        lemma_nearest_at(p as int, emin as int, x, e as int);
        lemma_significand_floor(p as int, emin as int, x, e as int);
    }
    if remainder * 2 < d || (remainder * 2 == d && quotient % 2 == 0) {
        (quotient as u64, e)
    } else {
        ((quotient + 1) as u64, e)
    }
}

/// Half above or below an integer is too little to change it by rounding.
pub proof fn lemma_floor_of_half(x: real, i: int)
    requires
        (i as real) - 1real / 2real <= x < (i as real) + 1real / 2real,
    ensures
        (x + 1real / 2real).floor() == i,
{
}

/// Rounding `m / (2 * half)` to the nearest integer, ties up.
pub proof fn lemma_half_up(x: real, m: int, half: int)
    requires
        0 <= m,
        0 < half,
        x * ((half * 2) as real) == m as real,
    ensures
        (x + 1real / 2real).floor() == (m + half) / (half * 2),
{
    let d = half * 2;
    let q = (m + half) / d;
    let r = (m + half) % d;
    vstd::arithmetic::div_mod::lemma_fundamental_div_mod(m + half, d);
    vstd::arithmetic::div_mod::lemma_mod_bound(m + half, d);
    let y = x + 1real / 2real - (q as real);
    assert(y * (d as real) == r as real) by (nonlinear_arith)
        requires
            x * (d as real) == m as real,
            m + half == d * q + r,
            d == half * 2,
            y == x + 1real / 2real - (q as real),
    ;
    assert(0real <= y < 1real) by (nonlinear_arith)
        requires
            y * (d as real) == r as real,
            0 <= r < d,
    ;
}

}
