//! Single-precision numbers, held as their IEEE 754 binary32 bit patterns.
//!
//! Lux, percentages and smoothing factors are all single-precision numbers.
//! Arithmetic on them is done here on integers, each operation proved to return
//! the exact result rounded to nearest, ties to even.

use crate::rounding::{
    exp2, lemma_exp2_inverse, lemma_exp2_monotone, lemma_exp2_step, lemma_exp2_sum,
    lemma_exp2_values, lemma_exp2_whole, lemma_floor_of_half, lemma_half_up, lemma_nearest_at,
    lemma_nearest_exact, lemma_nearest_int_close, lemma_nearest_monotone, lemma_nearest_odd,
    lemma_nearest_relative, lemma_nearest_stable, nearest_single, power_of_two, round_ratio,
    scaled_ratio, spaced, SINGLE_EMIN, SINGLE_PRECISION,
};
use vstd::prelude::*;

verus! {

/// What a single-precision bit pattern stands for.
pub enum Number {
    /// Not a number.
    Nan,
    /// An infinity.
    Infinite { negative: bool },
    /// A finite number; zero carries a sign too.
    Finite { negative: bool, magnitude: real },
}

/// The magnitude from which on single precision overflows to infinity.
pub open spec fn overflow_bound() -> real {
    exp2(128)
}

/// Absolute value of a real number.
pub open spec fn abs_real(x: real) -> real {
    if x < 0real {
        -x
    } else {
        x
    }
}

impl Number {
    /// The number `x >= 0`, negated if asked, rounded to single precision.
    pub open spec fn rounded(negative: bool, x: real) -> Number {
        let magnitude = nearest_single(x);
        if magnitude >= overflow_bound() {
            Number::Infinite { negative }
        } else {
            Number::Finite { negative, magnitude }
        }
    }

    /// The integer `i` rounded to single precision.
    pub open spec fn of_int(i: int) -> Number {
        Number::rounded(i < 0, abs_real(i as real))
    }

    /// Whether the magnitude is one, that is not negative.
    pub open spec fn proper(self) -> bool {
        self matches Number::Finite { magnitude, .. } ==> 0real <= magnitude
    }

    /// The value of a finite number.
    pub open spec fn value(self) -> real {
        match self {
            Number::Finite { negative, magnitude } => if negative {
                -magnitude
            } else {
                magnitude
            },
            _ => 0real,
        }
    }

    /// The number with the opposite sign.
    pub open spec fn negated(self) -> Number {
        match self {
            Number::Nan => Number::Nan,
            Number::Infinite { negative } => Number::Infinite { negative: !negative },
            Number::Finite { negative, magnitude } => Number::Finite {
                negative: !negative,
                magnitude,
            },
        }
    }

    /// The number without its sign.
    pub open spec fn absolute(self) -> Number {
        match self {
            Number::Nan => Number::Nan,
            Number::Infinite { .. } => Number::Infinite { negative: false },
            Number::Finite { magnitude, .. } => Number::Finite { negative: false, magnitude },
        }
    }

    /// `self + other`.
    pub open spec fn plus(self, other: Number) -> Number {
        match (self, other) {
            (Number::Nan, _) => Number::Nan,
            (_, Number::Nan) => Number::Nan,
            (Number::Infinite { negative: n1 }, Number::Infinite { negative: n2 }) => if n1 == n2 {
                self
            } else {
                Number::Nan
            },
            (Number::Infinite { .. }, _) => self,
            (_, Number::Infinite { .. }) => other,
            (Number::Finite { negative: n1, .. }, Number::Finite { negative: n2, .. }) => {
                let x = self.value() + other.value();
                if x == 0real {
                    Number::Finite { negative: n1 && n2, magnitude: 0real }
                } else {
                    Number::rounded(x < 0real, abs_real(x))
                }
            },
        }
    }

    /// `self - other`.
    pub open spec fn minus(self, other: Number) -> Number {
        self.plus(other.negated())
    }

    /// `self * other`.
    pub open spec fn times(self, other: Number) -> Number {
        match (self, other) {
            (Number::Nan, _) => Number::Nan,
            (_, Number::Nan) => Number::Nan,
            (Number::Infinite { negative: n1 }, Number::Infinite { negative: n2 }) => {
                Number::Infinite { negative: n1 != n2 }
            },
            (Number::Infinite { negative: n1 }, Number::Finite { negative: n2, magnitude }) => {
                if magnitude == 0real {
                    Number::Nan
                } else {
                    Number::Infinite { negative: n1 != n2 }
                }
            },
            (Number::Finite { negative: n1, magnitude }, Number::Infinite { negative: n2 }) => {
                if magnitude == 0real {
                    Number::Nan
                } else {
                    Number::Infinite { negative: n1 != n2 }
                }
            },
            (
                Number::Finite { negative: n1, magnitude: m1 },
                Number::Finite { negative: n2, magnitude: m2 },
            ) => Number::rounded(n1 != n2, m1 * m2),
        }
    }

    /// `self / other`.
    pub open spec fn over(self, other: Number) -> Number {
        match (self, other) {
            (Number::Nan, _) => Number::Nan,
            (_, Number::Nan) => Number::Nan,
            (Number::Infinite { .. }, Number::Infinite { .. }) => Number::Nan,
            (Number::Infinite { negative: n1 }, Number::Finite { negative: n2, .. }) => {
                Number::Infinite { negative: n1 != n2 }
            },
            (Number::Finite { negative: n1, .. }, Number::Infinite { negative: n2 }) => {
                Number::Finite { negative: n1 != n2, magnitude: 0real }
            },
            (
                Number::Finite { negative: n1, magnitude: m1 },
                Number::Finite { negative: n2, magnitude: m2 },
            ) => if m2 == 0real {
                if m1 == 0real {
                    Number::Nan
                } else {
                    Number::Infinite { negative: n1 != n2 }
                }
            } else {
                Number::rounded(n1 != n2, m1 / m2)
            },
        }
    }

    /// `self <= other`; nothing is ordered relative to a NaN.
    pub open spec fn le(self, other: Number) -> bool {
        match (self, other) {
            (Number::Nan, _) => false,
            (_, Number::Nan) => false,
            (Number::Infinite { negative: n1 }, Number::Infinite { negative: n2 }) => n1 || !n2,
            (Number::Infinite { negative }, _) => negative,
            (_, Number::Infinite { negative }) => !negative,
            (Number::Finite { .. }, Number::Finite { .. }) => self.value() <= other.value(),
        }
    }

    /// `self < other`; nothing is ordered relative to a NaN.
    pub open spec fn lt(self, other: Number) -> bool {
        self.le(other) && !other.le(self)
    }

    /// `self == other` as numbers: the two zeros are equal, a NaN equals nothing.
    pub open spec fn same(self, other: Number) -> bool {
        self.le(other) && other.le(self)
    }

    /// The larger number; a NaN gives way to the other operand.
    pub open spec fn max(self, other: Number) -> Number {
        if self is Nan || self.lt(other) {
            other
        } else {
            self
        }
    }

    /// The number limited to the range from `low` to `high`; a NaN stays one.
    pub open spec fn clamp(self, low: Number, high: Number) -> Number {
        if self.lt(low) {
            low
        } else if high.lt(self) {
            high
        } else {
            self
        }
    }

    /// The number rounded to the nearest integer, ties away from zero, and
    /// limited to what a `u32` holds; a NaN gives zero.
    pub open spec fn to_u32(self) -> int {
        match self {
            Number::Nan => 0,
            Number::Infinite { negative } => if negative {
                0
            } else {
                u32::MAX as int
            },
            Number::Finite { negative, magnitude } => {
                let i = (magnitude + 1real / 2real).floor();
                if negative {
                    0
                } else if i > u32::MAX {
                    u32::MAX as int
                } else {
                    i
                }
            },
        }
    }
}

/// The number that a binary32 bit pattern encodes.
pub open spec fn decode(bits: u32) -> Number {
    let negative = bits >= 0x8000_0000;
    let low = bits as int % 0x8000_0000;
    let field = low / 0x80_0000;
    let fraction = low % 0x80_0000;
    if field == 255 {
        if fraction == 0 {
            Number::Infinite { negative }
        } else {
            Number::Nan
        }
    } else if field == 0 {
        Number::Finite { negative, magnitude: (fraction as real) * exp2(-149) }
    } else {
        Number::Finite {
            negative,
            magnitude: ((fraction + 0x80_0000) as real) * exp2(field - 150),
        }
    }
}

/// A single-precision number.
#[derive(Clone, Copy, Debug)]
pub struct Single {
    /// Its binary32 bit pattern.
    pub bits: u32,
}

impl View for Single {
    type V = Number;

    open spec fn view(&self) -> Number {
        decode(self.bits)
    }
}

/// A number taken apart into sign, significand and exponent.
enum Parts {
    Nan,
    Infinite { negative: bool },
    Finite { negative: bool, significand: u32, exponent: i32 },
}

impl Parts {
    spec fn number(self) -> Number {
        match self {
            Parts::Nan => Number::Nan,
            Parts::Infinite { negative } => Number::Infinite { negative },
            Parts::Finite { negative, significand, exponent } => Number::Finite {
                negative,
                magnitude: (significand as int as real) * exp2(exponent as int),
            },
        }
    }

    /// The significand is as long as the exponent allows.
    spec fn canonical(self) -> bool {
        self matches Parts::Finite { significand, exponent, .. } ==> {
            &&& significand < 0x100_0000
            &&& -149 <= exponent <= 104
            &&& exponent == -149 || 0x80_0000 <= significand
        }
    }
}

impl Single {
    /// The number with the given bit pattern.
    pub fn from_bits(bits: u32) -> (r: Single)
        ensures
            r.bits == bits,
            r@ == decode(bits),
    {
        Single { bits }
    }

    /// The bit pattern of the number.
    pub fn to_bits(self) -> (bits: u32)
        ensures
            bits == self.bits,
    {
        self.bits
    }

    fn parts(self) -> (parts: Parts)
        ensures
            parts.number() == self@,
            parts.canonical(),
    {
        let negative = self.bits >= 0x8000_0000;
        let low = self.bits % 0x8000_0000;
        let field = low / 0x80_0000;
        let fraction = low % 0x80_0000;
        if field == 255 {
            if fraction == 0 {
                Parts::Infinite { negative }
            } else {
                Parts::Nan
            }
        } else if field == 0 {
            Parts::Finite { negative, significand: fraction, exponent: -149 }
        } else {
            Parts::Finite {
                negative,
                significand: fraction + 0x80_0000,
                exponent: field as i32 - 150,
            }
        }
    }

    /// The number with the given significand and exponent, which overflows to
    /// infinity if it is too large.
    fn encode(negative: bool, significand: u64, exponent: i32) -> (r: Single)
        requires
            significand <= 0x100_0000,
            -149 <= exponent,
            exponent == -149 || 0x80_0000 <= significand,
        ensures
            r@ == ({
                let magnitude = (significand as int as real) * exp2(exponent as int);
                if magnitude >= overflow_bound() {
                    Number::Infinite { negative }
                } else {
                    Number::Finite { negative, magnitude }
                }
            }),
    {
        let sign: u32 = if negative { 0x8000_0000 } else { 0 };
        proof {
            lemma_exp2_values();
        }
        if exponent > 104 {
            proof {
                let m = significand as int as real;
                let u = exp2(exponent as int);
                lemma_exp2_sum(23, 105);
                lemma_exp2_monotone(105, exponent as int);
                lemma_exp2_step(105);
                assert(m * u >= exp2(23) * exp2(105)) by (nonlinear_arith)
                    requires
                        m >= exp2(23),
                        u >= exp2(105),
                        exp2(105) > 0real,
                        exp2(23) > 0real,
                ;
            }
            return Single { bits: sign + 0x7f80_0000 };
        }
        proof {
            let m = significand as int as real;
            let u = exp2(exponent as int);
            lemma_exp2_sum(24, 104);
            lemma_exp2_monotone(exponent as int, 104);
            lemma_exp2_step(exponent as int);
            lemma_exp2_step(104);
            if significand < 0x100_0000 {
                assert(m * u < exp2(24) * exp2(104)) by (nonlinear_arith)
                    requires
                        0real <= m < exp2(24),
                        0real < u <= exp2(104),
                ;
            } else {
                assert(m * u == (0x80_0000int as real) * exp2(exponent + 1)) by (nonlinear_arith)
                    requires
                        m == 0x100_0000int as real,
                        exp2(exponent + 1) == u * 2real,
                ;
                if exponent < 104 {
                    lemma_exp2_monotone(exponent + 1, 104);
                    assert(m * u < exp2(24) * exp2(104)) by (nonlinear_arith)
                        requires
                            m == exp2(24),
                            exp2(24) > 0real,
                            u * 2real <= exp2(104),
                            u > 0real,
                    ;
                }
            }
        }
        let low: u32 = if significand < 0x80_0000 {
            significand as u32
        } else {
            (exponent + 149) as u32 * 0x80_0000 + significand as u32
        };
        Single { bits: sign + low }
    }

    /// `numer / denom * 2^exponent`, negated if asked, rounded.
    fn round(negative: bool, numer: u128, denom: u128, exponent: i32) -> (r: Single)
        requires
            -2000 <= exponent <= 2000,
            1 <= denom < 0x1_0000_0000_0000_0000,
            numer < 0x1_000000_000000_000000_000000_000000,
        ensures
            r@ == Number::rounded(
                negative,
                scaled_ratio(numer as int, denom as int, exponent as int),
            ),
    {
        let (significand, e) = round_ratio(SINGLE_PRECISION, SINGLE_EMIN, numer, denom, exponent);
        proof {
            lemma_exp2_values();
        }
        Single::encode(negative, significand, e)
    }

    /// The quotient of two integers, rounded.
    pub fn ratio(numer: u32, denom: u32) -> (r: Single)
        requires
            denom > 0,
        ensures
            r@ == Number::rounded(false, (numer as int as real) / (denom as int as real)),
    {
        proof {
            let x = (numer as int as real) / (denom as int as real);
            assert(x * 1real == x);
        }
        Single::round(false, numer as u128, denom as u128, 0)
    }

    /// An unsigned integer, rounded.
    pub fn from_u32(i: u32) -> (r: Single)
        ensures
            r@ == Number::of_int(i as int),
    {
        Single::ratio(i, 1)
    }

    /// A signed integer, rounded.
    pub fn from_i32(i: i32) -> (r: Single)
        ensures
            r@ == Number::of_int(i as int),
    {
        let magnitude: i64 = if i < 0 { -(i as i64) } else { i as i64 };
        proof {
            let x = (magnitude as int as real) / 1real;
            assert(x * 1real == magnitude as int as real);
        }
        Single::round(i < 0, magnitude as u128, 1, 0)
    }

    /// The number with the opposite sign.
    pub fn negated(self) -> (r: Single)
        ensures
            r@ == self@.negated(),
    {
        if self.bits >= 0x8000_0000 {
            Single { bits: self.bits - 0x8000_0000 }
        } else {
            Single { bits: self.bits + 0x8000_0000 }
        }
    }

    /// The number without its sign.
    pub fn absolute(self) -> (r: Single)
        ensures
            r@ == self@.absolute(),
    {
        Single { bits: self.bits % 0x8000_0000 }
    }

    /// `self * other`.
    pub fn times(self, other: Single) -> (r: Single)
        ensures
            r@ == self@.times(other@),
    {
        match (self.parts(), other.parts()) {
            (Parts::Nan, _) => Single::nan(),
            (_, Parts::Nan) => Single::nan(),
            (Parts::Infinite { negative: n1 }, Parts::Infinite { negative: n2 }) => {
                Single::infinite(n1 != n2)
            },
            (
                Parts::Infinite { negative: n1 },
                Parts::Finite { negative: n2, significand, exponent },
            ) => {
                proof {
                    lemma_magnitude_zero(significand, exponent);
                }
                if significand == 0 {
                    Single::nan()
                } else {
                    Single::infinite(n1 != n2)
                }
            },
            (
                Parts::Finite { negative: n1, significand, exponent },
                Parts::Infinite { negative: n2 },
            ) => {
                proof {
                    lemma_magnitude_zero(significand, exponent);
                }
                if significand == 0 {
                    Single::nan()
                } else {
                    Single::infinite(n1 != n2)
                }
            },
            (
                Parts::Finite { negative: n1, significand: m1, exponent: e1 },
                Parts::Finite { negative: n2, significand: m2, exponent: e2 },
            ) => {
                proof {
                    lemma_exp2_sum(e1 as int, e2 as int);
                    let a = m1 as int as real;
                    let b = m2 as int as real;
                    let u = exp2(e1 as int);
                    let v = exp2(e2 as int);
                    assert((a * u) * (b * v) == ((m1 * m2) as real) / 1real * (u * v))
                        by (nonlinear_arith)
                        requires
                            a == m1 as int as real,
                            b == m2 as int as real,
                    ;
                    assert(m1 * m2 < 0x1_0000_0000_0000) by (nonlinear_arith)
                        requires
                            m1 < 0x100_0000,
                            m2 < 0x100_0000,
                    ;
                }
                Single::round(n1 != n2, m1 as u128 * m2 as u128, 1, e1 + e2)
            },
        }
    }

    /// `self / other`.
    pub fn over(self, other: Single) -> (r: Single)
        ensures
            r@ == self@.over(other@),
    {
        match (self.parts(), other.parts()) {
            (Parts::Nan, _) => Single::nan(),
            (_, Parts::Nan) => Single::nan(),
            (Parts::Infinite { .. }, Parts::Infinite { .. }) => Single::nan(),
            (Parts::Infinite { negative: n1 }, Parts::Finite { negative: n2, .. }) => {
                Single::infinite(n1 != n2)
            },
            (Parts::Finite { negative: n1, .. }, Parts::Infinite { negative: n2 }) => {
                Single::zero(n1 != n2)
            },
            (
                Parts::Finite { negative: n1, significand: m1, exponent: e1 },
                Parts::Finite { negative: n2, significand: m2, exponent: e2 },
            ) => {
                proof {
                    lemma_magnitude_zero(m1, e1);
                    lemma_magnitude_zero(m2, e2);
                }
                if m2 == 0 {
                    if m1 == 0 {
                        Single::nan()
                    } else {
                        Single::infinite(n1 != n2)
                    }
                } else {
                    proof {
                        lemma_exp2_sum(e1 - e2, e2 as int);
                        lemma_exp2_step(e2 as int);
                        let a = m1 as int as real;
                        let b = m2 as int as real;
                        let u = exp2(e1 - e2);
                        let v = exp2(e2 as int);
                        assert((a * (u * v)) / (b * v) == a / b * u) by (nonlinear_arith)
                            requires
                                b > 0real,
                                v > 0real,
                        ;
                    }
                    Single::round(n1 != n2, m1 as u128, m2 as u128, e1 - e2)
                }
            },
        }
    }

    /// `self + other`.
    pub fn plus(self, other: Single) -> (r: Single)
        ensures
            r@ == self@.plus(other@),
    {
        match (self.parts(), other.parts()) {
            (Parts::Nan, _) => Single::nan(),
            (_, Parts::Nan) => Single::nan(),
            (Parts::Infinite { negative: n1 }, Parts::Infinite { negative: n2 }) => {
                if n1 == n2 {
                    self
                } else {
                    Single::nan()
                }
            },
            (Parts::Infinite { .. }, _) => self,
            (_, Parts::Infinite { .. }) => other,
            (
                Parts::Finite { negative: n1, significand: m1, exponent: e1 },
                Parts::Finite { negative: n2, significand: m2, exponent: e2 },
            ) => {
                if e1 >= e2 {
                    Single::sum(self, n1, m1, e1, n2, m2, e2)
                } else {
                    Single::sum(other, n2, m2, e2, n1, m1, e1)
                }
            },
        }
    }

    /// The sum of two finite numbers, the one with the larger exponent first,
    /// as a whole and in parts.
    fn sum(large: Single, n1: bool, m1: u32, e1: i32, n2: bool, m2: u32, e2: i32) -> (r: Single)
        requires
            large@ == (Parts::Finite { negative: n1, significand: m1, exponent: e1 }).number(),
            (Parts::Finite { negative: n1, significand: m1, exponent: e1 }).canonical(),
            (Parts::Finite { negative: n2, significand: m2, exponent: e2 }).canonical(),
            e1 >= e2,
        ensures
            r@ == large@.plus(
                (Parts::Finite { negative: n2, significand: m2, exponent: e2 }).number(),
            ),
    {
        proof {
            lemma_magnitude_zero(m1, e1);
            lemma_magnitude_zero(m2, e2);
        }
        if e1 - e2 > 64 {
            proof {
                lemma_absorbed(m1, e1, m2, e2);
            }
            return large;
        }
        let shift = power_of_two((e1 - e2) as u32);
        let ghost u = exp2(e2 as int);
        proof {
            lemma_exp2_values();
            lemma_exp2_monotone(e1 - e2, 64);
            lemma_exp2_sum(e1 - e2, e2 as int);
            lemma_exp2_step(e2 as int);
            assert(m1 * shift < 0x100_0000_0000_0000_0000_0000) by (nonlinear_arith)
                requires
                    m1 < 0x100_0000,
                    shift <= 0x1_0000_0000_0000_0000,
            ;
            assert((m1 * shift) as real * u == (m1 as int as real) * exp2(e1 as int))
                by (nonlinear_arith)
                requires
                    exp2(e1 as int) == (shift as int as real) * u,
            ;
        }
        let a = m1 as u128 * shift;
        let b = m2 as u128;
        let ghost x = large@.value() + (if n2 {
            -((b as int as real) * u)
        } else {
            (b as int as real) * u
        });
        if n1 == n2 {
            proof {
                lemma_common_scale(a + b, u);
                assert((a + b) as real * u == (a as int as real) * u + (b as int as real) * u)
                    by (nonlinear_arith);
            }
            if a + b == 0 {
                return Single::zero(n1);
            }
            Single::round(n1, a + b, 1, e2)
        } else if a > b {
            proof {
                lemma_common_scale(a - b, u);
                assert((a - b) as real * u == (a as int as real) * u - (b as int as real) * u)
                    by (nonlinear_arith);
            }
            Single::round(n1, a - b, 1, e2)
        } else if a < b {
            proof {
                lemma_common_scale(b - a, u);
                assert((b - a) as real * u == (b as int as real) * u - (a as int as real) * u)
                    by (nonlinear_arith);
            }
            Single::round(n2, b - a, 1, e2)
        } else {
            Single::zero(false)
        }
    }

    /// `self - other`.
    pub fn minus(self, other: Single) -> (r: Single)
        ensures
            r@ == self@.minus(other@),
    {
        self.plus(other.negated())
    }

    /// Whether this is no number at all.
    pub fn is_nan(self) -> (b: bool)
        ensures
            b == (self@ is Nan),
    {
        self.bits % 0x8000_0000 > 0x7f80_0000
    }

    /// An integer that orders the numbers.
    fn key(self) -> (k: i64)
        ensures
            k == order_key(self.bits),
    {
        if self.bits >= 0x8000_0000 {
            -((self.bits - 0x8000_0000) as i64)
        } else {
            self.bits as i64
        }
    }

    /// `self <= other`.
    pub fn le(self, other: Single) -> (b: bool)
        ensures
            b == self@.le(other@),
    {
        if self.is_nan() || other.is_nan() {
            return false;
        }
        proof {
            lemma_order(self.bits, other.bits);
        }
        self.key() <= other.key()
    }

    /// `self < other`.
    pub fn lt(self, other: Single) -> (b: bool)
        ensures
            b == self@.lt(other@),
    {
        self.le(other) && !other.le(self)
    }

    /// `self == other` as numbers.
    pub fn same(self, other: Single) -> (b: bool)
        ensures
            b == self@.same(other@),
    {
        self.le(other) && other.le(self)
    }

    /// The larger number; a NaN gives way to the other operand.
    pub fn max(self, other: Single) -> (r: Single)
        ensures
            r@ == self@.max(other@),
    {
        if self.is_nan() || self.lt(other) {
            other
        } else {
            self
        }
    }

    /// The number limited to the range from `low` to `high`.
    pub fn clamp(self, low: Single, high: Single) -> (r: Single)
        requires
            low@.le(high@),
        ensures
            r@ == self@.clamp(low@, high@),
    {
        if self.lt(low) {
            low
        } else if high.lt(self) {
            high
        } else {
            self
        }
    }

    /// The number rounded to the nearest integer, ties away from zero, and
    /// limited to what a `u32` holds.
    pub fn to_u32(self) -> (i: u32)
        ensures
            i == self@.to_u32(),
    {
        match self.parts() {
            Parts::Nan => 0,
            Parts::Infinite { negative } => if negative {
                0
            } else {
                u32::MAX
            },
            Parts::Finite { negative, significand, exponent } => {
                if negative {
                    return 0;
                }
                proof {
                    lemma_exp2_values();
                    lemma_exp2_step(exponent as int);
                }
                let ghost m = significand as int as real;
                let ghost u = exp2(exponent as int);
                if exponent > 8 {
                    proof {
                        lemma_exp2_sum(23, 9);
                        lemma_exp2_monotone(9, exponent as int);
                        lemma_exp2_step(9);
                        assert(m * u >= exp2(23) * exp2(9)) by (nonlinear_arith)
                            requires
                                m >= exp2(23),
                                u >= exp2(9),
                                exp2(9) > 0real,
                                exp2(23) > 0real,
                        ;
                    }
                    u32::MAX
                } else if exponent >= 0 {
                    let scale = power_of_two(exponent as u32);
                    proof {
                        lemma_exp2_monotone(exponent as int, 8);
                        lemma_exp2_sum(8, 2);
                        reveal_with_fuel(exp2, 9);
                        assert(significand * scale < 0x1_0000_0000) by (nonlinear_arith)
                            requires
                                significand < 0x100_0000,
                                scale <= 256,
                        ;
                        assert(m * u == (significand * scale) as real) by (nonlinear_arith)
                            requires
                                m == significand as int as real,
                                u == scale as int as real,
                        ;
                        lemma_floor_of_half(m * u, significand * scale);
                    }
                    (significand as u128 * scale) as u32
                } else if exponent < -25 {
                    proof {
                        lemma_exp2_sum(24, -26);
                        lemma_exp2_sum(-1, -1);
                        lemma_exp2_monotone(exponent as int, -26);
                        lemma_exp2_step(-2);
                        lemma_exp2_step(-1);
                        assert(m * u < exp2(24) * exp2(-26)) by (nonlinear_arith)
                            requires
                                0real <= m < exp2(24),
                                0real < u <= exp2(-26),
                        ;
                        lemma_magnitude_zero(significand, exponent);
                        lemma_floor_of_half(m * u, 0);
                    }
                    0
                } else {
                    let scale = power_of_two((-exponent) as u32);
                    let half = power_of_two((-exponent) as u32 - 1);
                    proof {
                        lemma_exp2_step(-exponent - 1);
                        lemma_exp2_inverse(exponent as int);
                        lemma_exp2_monotone(-exponent as int, 32);
                        assert((m * u) * ((half * 2) as real) == m) by (nonlinear_arith)
                            requires
                                u * ((half * 2) as real) == 1real,
                        ;
                        lemma_half_up(m * u, significand as int, half as int);
                    }
                    ((significand as u128 + half) / scale) as u32
                }
            },
        }
    }

    /// Not a number.
    fn nan() -> (r: Single)
        ensures
            r@ == Number::Nan,
    {
        Single { bits: 0x7fc0_0000 }
    }

    fn infinite(negative: bool) -> (r: Single)
        ensures
            r@ == (Number::Infinite { negative }),
    {
        if negative {
            Single { bits: 0xff80_0000 }
        } else {
            Single { bits: 0x7f80_0000 }
        }
    }

    fn zero(negative: bool) -> (r: Single)
        ensures
            r@ == (Number::Finite { negative, magnitude: 0real }),
    {
        if negative {
            Single { bits: 0x8000_0000 }
        } else {
            Single { bits: 0 }
        }
    }
}

/// A finite number is zero exactly if its significand is.
proof fn lemma_magnitude_zero(significand: u32, exponent: i32)
    ensures
        significand == 0 <==> (significand as int as real) * exp2(exponent as int) == 0real,
        0real <= (significand as int as real) * exp2(exponent as int),
{
    lemma_exp2_step(exponent as int);
    let m = significand as int as real;
    let u = exp2(exponent as int);
    assert((m == 0real <==> m * u == 0real) && 0real <= m * u) by (nonlinear_arith)
        requires
            u > 0real,
            m >= 0real,
    ;
}

/// A positive multiple of a positive scale is positive, and a ratio to one.
proof fn lemma_common_scale(n: int, u: real)
    requires
        0 <= n,
        u > 0real,
    ensures
        n == 0 <==> (n as real) * u == 0real,
        0real <= (n as real) * u,
        (n as real) / 1real * u == (n as real) * u,
{
    assert((n == 0 <==> (n as real) * u == 0real) && 0real <= (n as real) * u && (n as real) / 1real
        * u == (n as real) * u) by (nonlinear_arith)
        requires
            0 <= n,
            u > 0real,
    ;
}

/// A number far smaller than another one does not change it.
proof fn lemma_absorbed(m1: u32, e1: i32, m2: u32, e2: i32)
    requires
        0x80_0000 <= m1 < 0x100_0000,
        m2 < 0x100_0000,
        -149 <= e2,
        e1 - e2 > 64,
        e1 <= 104,
    ensures
        ({
            let x = (m1 as int as real) * exp2(e1 as int);
            let y = (m2 as int as real) * exp2(e2 as int);
            &&& y < x < overflow_bound()
            &&& nearest_single(x + y) == x
            &&& nearest_single(x - y) == x
        }),
{
    let u = exp2(e1 as int);
    let m = m1 as int as real;
    let x = m * u;
    let y = (m2 as int as real) * exp2(e2 as int);
    lemma_exp2_values();
    lemma_exp2_sum(24, e2 as int);
    lemma_exp2_monotone(24 + e2, e1 - 2);
    lemma_exp2_step(e1 - 2);
    lemma_exp2_step(e1 - 1);
    lemma_exp2_step(e2 as int);
    lemma_magnitude_zero(m2, e2);
    assert(y < exp2(24) * exp2(e2 as int)) by (nonlinear_arith)
        requires
            y == (m2 as int as real) * exp2(e2 as int),
            (m2 as int as real) < exp2(24),
            exp2(e2 as int) > 0real,
    ;
    assert(y * 4real < u);
    lemma_exp2_monotone(e1 as int, 104);
    lemma_exp2_sum(24, 104);
    assert(x < exp2(24) * exp2(104)) by (nonlinear_arith)
        requires
            x == m * u,
            0real <= m < exp2(24),
            0real < u <= exp2(104),
    ;
    lemma_exp2_sum(24, e1 as int);
    lemma_exp2_sum(23, e1 as int);
    assert(m * u + u <= exp2(24) * u) by (nonlinear_arith)
        requires
            m + 1real <= exp2(24),
            u > 0real,
    ;
    assert(exp2(23) * u <= m * u) by (nonlinear_arith)
        requires
            exp2(23) <= m,
            u > 0real,
    ;
    assert(u <= exp2(23) * u) by (nonlinear_arith)
        requires
            exp2(23) >= 1real,
            u > 0real,
    ;
    lemma_rounds_to(x + y, e1 as int, m1 as int);
    if m1 == 0x80_0000 && y > 0real {
        let v = exp2(e1 - 1);
        lemma_exp2_sum(24, e1 - 1);
        lemma_exp2_sum(23, e1 - 1);
        assert(x == exp2(24) * v) by (nonlinear_arith)
            requires
                x == m * u,
                u == v * 2real,
                m * 2real == exp2(24),
        ;
        assert(exp2(23) * v * 2real == exp2(24) * v) by (nonlinear_arith)
            requires
                exp2(23) * 2real == exp2(24),
        ;
        lemma_rounds_to(x - y, e1 - 1, 0x100_0000);
    } else {
        if y > 0real {
            assert(exp2(23) * u + u <= m * u) by (nonlinear_arith)
                requires
                    exp2(23) + 1real <= m,
                    u > 0real,
            ;
        }
        lemma_rounds_to(x - y, e1 as int, m1 as int);
    }
}

/// A number closer than half a distance to a multiple of it rounds to that.
proof fn lemma_rounds_to(x: real, e: int, m: int)
    requires
        spaced(24, -149, x, e),
        0real <= x,
        -exp2(e) < (x - (m as real) * exp2(e)) * 2real < exp2(e),
    ensures
        nearest_single(x) == (m as real) * exp2(e),
{
    lemma_exp2_inverse(e);
    let u = exp2(e);
    let y = x * exp2(-e);
    assert(-(1real) < (y - (m as real)) * 2real < 1real) by (nonlinear_arith)
        requires
            -u < (x - (m as real) * u) * 2real < u,
            u * exp2(-e) == 1real,
            exp2(-e) > 0real,
            y == x * exp2(-e),
    ;
    lemma_nearest_int_close(y, m);
    lemma_nearest_at(24, -149, x, e);
}

/// The low 31 bits, negated for a negative number.
pub open spec fn order_key(bits: u32) -> int {
    if bits >= 0x8000_0000 {
        0x8000_0000 - bits
    } else {
        bits as int
    }
}

/// The magnitudes of finite numbers grow with their low 31 bits.
proof fn lemma_magnitude_order(a: u32, b: u32)
    requires
        a < b < 0x7f80_0000,
    ensures
        0real <= decode(a).value() < decode(b).value(),
{
    let fa = a as int / 0x80_0000;
    let fb = b as int / 0x80_0000;
    let ea = if fa == 0 { -149 } else { fa - 150 };
    let eb = if fb == 0 { -149 } else { fb - 150 };
    let ma = a % 0x80_0000 + (if fa == 0 { 0 } else { 0x80_0000int });
    let mb = b % 0x80_0000 + (if fb == 0 { 0 } else { 0x80_0000int });
    lemma_exp2_step(ea);
    lemma_exp2_step(eb);
    lemma_exp2_monotone(ea, eb);
    let ua = exp2(ea);
    let ub = exp2(eb);
    assert(decode(a).value() == (ma as real) * ua);
    assert(decode(b).value() == (mb as real) * ub);
    assert(0real <= (ma as real) * ua) by (nonlinear_arith)
        requires
            ma >= 0,
            ua > 0real,
    ;
    if ea == eb {
        assert((ma as real) * ua < (mb as real) * ua) by (nonlinear_arith)
            requires
                ma < mb,
                ua > 0real,
        ;
    } else {
        assert((ma as real) * ua < (mb as real) * ub) by (nonlinear_arith)
            requires
                0 <= ma < 0x100_0000,
                mb >= 0x80_0000,
                ua * 2real <= ub,
                ua > 0real,
        ;
    }
}

/// The keys order the numbers.
proof fn lemma_order(a: u32, b: u32)
    requires
        !(decode(a) is Nan),
        !(decode(b) is Nan),
    ensures
        decode(a).le(decode(b)) == (order_key(a) <= order_key(b)),
{
    let la = a % 0x8000_0000;
    let lb = b % 0x8000_0000;
    if la < 0x7f80_0000 && lb < 0x7f80_0000 {
        assert(decode(a)->magnitude == decode(la).value());
        assert(decode(b)->magnitude == decode(lb).value());
        assert(decode(0).value() == 0real * exp2(-149));
        if la < lb {
            lemma_magnitude_order(la, lb);
        } else if lb < la {
            lemma_magnitude_order(lb, la);
        }
        if 0 < la {
            lemma_magnitude_order(0, la);
        }
        if 0 < lb {
            lemma_magnitude_order(0, lb);
        }
    }
}

/// Integers of up to 24 bits are single-precision numbers.
pub proof fn lemma_small_int(i: int)
    requires
        -0x100_0000 <= i <= 0x100_0000,
    ensures
        Number::of_int(i) == (Number::Finite { negative: i < 0, magnitude: abs_real(i as real) }),
        Number::of_int(i).value() == i as real,
{
    let m = if i < 0 { -i } else { i };
    lemma_exp2_values();
    lemma_nearest_exact(24, -149, m, 0);
    assert((m as real) * exp2(0) == m as real);
    lemma_exp2_monotone(24, 128);
    lemma_exp2_step(24);
    lemma_exp2_monotone(25, 128);
}

/// Rounding keeps the order of non-negative numbers.
pub proof fn lemma_rounded_order(x: real, y: real)
    requires
        0real <= x <= y,
    ensures
        Number::rounded(false, x).le(Number::rounded(false, y)),
        Number::rounded(true, y).le(Number::rounded(true, x)),
{
    lemma_nearest_monotone(24, -149, x, y);
}

/// What is rounded stays as it is when rounded again.
pub proof fn lemma_rounding_is_stable(x: real)
    requires
        0real <= x,
    ensures
        nearest_single(nearest_single(x)) == nearest_single(x),
{
    lemma_nearest_stable(24, -149, x);
}

/// Bit patterns have proper magnitudes.
pub proof fn lemma_single_proper(s: Single)
    ensures
        s@.proper(),
{
    let low = s.bits % 0x8000_0000;
    if low < 0x7f80_0000 {
        assert(s@->magnitude == decode(low).value());
        assert(decode(0).value() == 0real * exp2(-149));
        if 0 < low {
            lemma_magnitude_order(0, low);
        }
    }
}

/// What is within three quarters of the range is not rounded to infinity.
proof fn lemma_stays_finite(x: real)
    requires
        0real <= x <= 3real * exp2(126),
    ensures
        0real <= nearest_single(x) < overflow_bound(),
{
    lemma_exp2_values();
    lemma_exp2_step(126);
    lemma_exp2_step(127);
    lemma_nearest_exact(24, -149, 3, 126);
    assert((3int as real) * exp2(126) == 3real * exp2(126));
    lemma_nearest_monotone(24, -149, x, 3real * exp2(126));
    lemma_nearest_odd(24, -149, x);
}

/// A sum is the exact sum rounded.
pub proof fn lemma_plus_value(a: Number, b: Number)
    requires
        a is Finite,
        b is Finite,
        -(3real * exp2(126)) <= a.value() + b.value() <= 3real * exp2(126),
    ensures
        a.plus(b) is Finite,
        a.plus(b).proper(),
        a.plus(b).value() == nearest_single(a.value() + b.value()),
{
    let x = a.value() + b.value();
    lemma_stays_finite(abs_real(x));
    lemma_nearest_odd(24, -149, abs_real(x));
}

/// A difference is the exact difference rounded.
pub proof fn lemma_minus_value(a: Number, b: Number)
    requires
        a is Finite,
        b is Finite,
        -(3real * exp2(126)) <= a.value() - b.value() <= 3real * exp2(126),
    ensures
        a.minus(b) is Finite,
        a.minus(b).proper(),
        a.minus(b).value() == nearest_single(a.value() - b.value()),
{
    lemma_plus_value(a, b.negated());
}

/// A product is the exact product rounded.
pub proof fn lemma_times_value(a: Number, b: Number)
    requires
        a is Finite,
        b is Finite,
        a.proper(),
        b.proper(),
        -(3real * exp2(126)) <= a.value() * b.value() <= 3real * exp2(126),
    ensures
        a.times(b) is Finite,
        a.times(b).proper(),
        a.times(b).value() == nearest_single(a.value() * b.value()),
{
    let x = a->magnitude * b->magnitude;
    assert(0real <= x && (a.value() * b.value() == x || a.value() * b.value() == -x) && (
    a->Finite_negative == b->Finite_negative ==> a.value() * b.value() == x) && (
    a->Finite_negative != b->Finite_negative ==> a.value() * b.value() == -x))
        by (nonlinear_arith)
        requires
            0real <= a->magnitude,
            0real <= b->magnitude,
            x == a->magnitude * b->magnitude,
            a.value() == (if a->Finite_negative {
                -a->magnitude
            } else {
                a->magnitude
            }),
            b.value() == (if b->Finite_negative {
                -b->magnitude
            } else {
                b->magnitude
            }),
    ;
    lemma_stays_finite(x);
    lemma_nearest_odd(24, -149, x);
}

/// A quotient is the exact quotient rounded.
pub proof fn lemma_over_value(a: Number, b: Number)
    requires
        a is Finite,
        b is Finite,
        0real <= a.value() <= b.value(),
        0real < b.value(),
        a.proper(),
        b.proper(),
    ensures
        a.over(b) is Finite,
        a.over(b).proper(),
        a.over(b).value() == nearest_single(a.value() / b.value()),
{
    let x = a->magnitude / b->magnitude;
    assert(!b->Finite_negative);
    assert(a->magnitude == a.value());
    assert(0real <= x <= 1real) by (nonlinear_arith)
        requires
            0real <= a->magnitude <= b->magnitude,
            0real < b->magnitude,
            x == a->magnitude / b->magnitude,
    ;
    lemma_exp2_monotone(0, 126);
    lemma_stays_finite(x);
    if a->magnitude == 0real {
        assert(x == 0real) by (nonlinear_arith)
            requires
                a->magnitude == 0real,
                0real < b->magnitude,
                x == a->magnitude / b->magnitude,
        ;
        lemma_nearest_odd(24, -149, 0real);
    }
}

/// Every finite number is a multiple of the smallest positive one.
proof fn lemma_multiple(s: Single) -> (n: int)
    requires
        s@ is Finite,
    ensures
        s@.value() == (n as real) * exp2(-149),
{
    let low = s.bits as int % 0x8000_0000;
    let field = low / 0x80_0000;
    let fraction = low % 0x80_0000;
    let m = if field == 0 {
        fraction
    } else {
        let k = lemma_exp2_whole(field - 1);
        lemma_exp2_sum(field - 1, -149);
        let n = (fraction + 0x80_0000) * k;
        assert(((fraction + 0x80_0000) as real) * exp2(field - 150) == (n as real) * exp2(-149))
            by (nonlinear_arith)
            requires
                n == (fraction + 0x80_0000) * k,
                exp2(field - 150) == (k as real) * exp2(-149),
        ;
        n
    };
    if s@->Finite_negative {
        assert(((-m) as real) * exp2(-149) == -((m as real) * exp2(-149))) by (nonlinear_arith);
        -m
    } else {
        m
    }
}

/// A difference is rounded by its `2^24`-th part at most.
pub proof fn lemma_difference(high: Single, low: Single)
    requires
        high@ is Finite,
        low@ is Finite,
        low@.value() <= high@.value(),
    ensures
        ({
            let x = high@.value() - low@.value();
            -(x * exp2(-24)) <= nearest_single(x) - x <= x * exp2(-24)
        }),
{
    let x = high@.value() - low@.value();
    lemma_nearest_relative(24, -149, x);
    lemma_exp2_step(-24);
    if x < exp2(-126) {
        let h = lemma_multiple(high);
        let l = lemma_multiple(low);
        let n = h - l;
        let u = exp2(-149);
        lemma_exp2_step(-149);
        lemma_exp2_sum(23, -149);
        lemma_exp2_values();
        assert(x == (n as real) * u && 0 <= n < 0x80_0000) by (nonlinear_arith)
            requires
                x == (h as real) * u - (l as real) * u,
                n == h - l,
                0real <= x < (0x80_0000int as real) * u,
                u > 0real,
        ;
        lemma_nearest_exact(24, -149, n, -149);
        assert(0real <= x * exp2(-24)) by (nonlinear_arith)
            requires
                0real <= x,
                exp2(-24) > 0real,
        ;
    }
}

/// How far rounding moves a number of a limited magnitude: by its `2^24`-th part
/// at most, and next to nothing besides.
pub proof fn lemma_rounding(x: real, bound: real)
    requires
        -bound <= x <= bound,
    ensures
        -(bound * exp2(-24) + exp2(-150)) <= nearest_single(x) - x <= bound * exp2(-24) + exp2(
            -150,
        ),
{
    let m = abs_real(x);
    lemma_nearest_odd(24, -149, m);
    lemma_nearest_relative(24, -149, m);
    lemma_exp2_step(-24);
    assert(m * exp2(-24) <= bound * exp2(-24)) by (nonlinear_arith)
        requires
            m <= bound,
            exp2(-24) > 0real,
    ;
}

/// Finite numbers are below `2^128`.
pub proof fn lemma_finite_bound(s: Single)
    requires
        s@ is Finite,
    ensures
        -exp2(128) < s@.value() < exp2(128),
{
    let low = s.bits as int % 0x8000_0000;
    let field = low / 0x80_0000;
    let fraction = low % 0x80_0000;
    lemma_single_proper(s);
    lemma_exp2_values();
    if field == 0 {
        lemma_exp2_sum(24, -149);
        lemma_exp2_step(-149);
        lemma_exp2_monotone(-125, 128);
        assert((fraction as real) * exp2(-149) < 0x100_0000int as real * exp2(-149))
            by (nonlinear_arith)
            requires
                0 <= fraction < 0x80_0000,
                exp2(-149) > 0real,
        ;
    } else {
        let e = field - 150;
        lemma_exp2_sum(24, e);
        lemma_exp2_step(e);
        lemma_exp2_monotone(24 + e, 128);
        assert(((fraction + 0x80_0000) as real) * exp2(e) < 0x100_0000int as real * exp2(e))
            by (nonlinear_arith)
            requires
                0 <= fraction < 0x80_0000,
                exp2(e) > 0real,
        ;
    }
}

/// Finite numbers are ordered as the real numbers that they stand for, and
/// nothing is ordered relative to a NaN.
pub proof fn law_order_is_that_of_the_reals(a: Number, b: Number)
    ensures
        a is Finite && b is Finite ==> {
            &&& a.le(b) <==> a.value() <= b.value()
            &&& a.lt(b) <==> a.value() < b.value()
            &&& a.same(b) <==> a.value() == b.value()
        },
        a is Nan || b is Nan ==> !a.le(b) && !a.lt(b) && !a.same(b),
        !(a is Nan) && !(b is Nan) ==> a.le(b) || b.le(a),
{
}

/// The larger of two numbers is one of them and no smaller than either, and a
/// limited number is the number itself if it is within the limits, and the limit
/// that it is beyond if not.
pub proof fn law_limits(a: Number, low: Number, high: Number)
    requires
        a is Finite,
        low is Finite,
        high is Finite,
        low.value() <= high.value(),
    ensures
        a.max(low) is Finite,
        a.max(low).value() == (if a.value() < low.value() {
            low.value()
        } else {
            a.value()
        }),
        a.clamp(low, high) is Finite,
        a.clamp(low, high).value() == (if a.value() < low.value() {
            low.value()
        } else if a.value() > high.value() {
            high.value()
        } else {
            a.value()
        }),
{
}

/// A number that a `u32` can hold becomes the integer nearest to it, the upper
/// one of two.
pub proof fn law_nearest_integer(x: Number)
    requires
        x is Finite,
        x.proper(),
        0real <= x.value() <= u32::MAX as int as real,
    ensures
        -1real / 2real <= x.value() - (x.to_u32() as real) < 1real / 2real,
        0 <= x.to_u32() <= u32::MAX,
{
}

/// A percentage that is computed by a division and a multiplication is close to
/// the exact one, both times the divisor.
pub proof fn lemma_percentage(x: real, a: real, q1: real, q2: real, q3: real)
    requires
        0real <= x,
        0real < a,
        -(x * exp2(-24)) <= q1 - x <= x * exp2(-24),
        0real <= q1,
        -(q1 / a * exp2(-24) + exp2(-150)) <= q2 - q1 / a <= q1 / a * exp2(-24) + exp2(-150),
        0real <= q2,
        -(q2 * 100real * exp2(-24) + exp2(-150)) <= q3 - q2 * 100real <= q2 * 100real * exp2(-24)
            + exp2(-150),
    ensures
        -(100real * x * exp2(-21) + a * exp2(-140)) <= q3 * a - 100real * x <= 100real * x * exp2(
            -21,
        ) + a * exp2(-140),
{
    lemma_powers();
    let t = exp2(-24);
    let z = exp2(-150);
    let r = q1 / a;
    assert(r * a == q1 && 0real <= r) by (nonlinear_arith)
        requires
            r == q1 / a,
            0real < a,
            0real <= q1,
    ;
    let d2 = q2 - r;
    assert(-(q1 * t + a * z) <= d2 * a <= q1 * t + a * z) by (nonlinear_arith)
        requires
            -(r * t + z) <= d2 <= r * t + z,
            r * a == q1,
            0real < a,
    ;
    let y2 = q2 * a;
    assert(y2 == q1 + d2 * a) by (nonlinear_arith)
        requires
            y2 == q2 * a,
            d2 == q2 - r,
            r * a == q1,
    ;
    let d3 = q3 - q2 * 100real;
    assert(-(100real * y2 * t + a * z) <= d3 * a <= 100real * y2 * t + a * z)
        by (nonlinear_arith)
        requires
            -(q2 * 100real * t + z) <= d3 <= q2 * 100real * t + z,
            y2 == q2 * a,
            0real < a,
    ;
    assert(q3 * a == 100real * y2 + d3 * a) by (nonlinear_arith)
        requires
            d3 == q3 - q2 * 100real,
            y2 == q2 * a,
    ;
    let e = x * t;
    let w = a * z;
    assert(0real <= e && e * 16777216real == x && 0real < w) by (nonlinear_arith)
        requires
            e == x * t,
            w == a * z,
            t * 16777216real == 1real,
            0real <= x,
            0real < a,
            0real < z,
    ;
    assert(q1 * t <= e + e / 16777216real) by (nonlinear_arith)
        requires
            q1 <= x + e,
            e == x * t,
            t * 16777216real == 1real,
    ;
    assert(-(3real * e + w) <= y2 - x <= 3real * e + w);
    assert(y2 * t <= 2real * e + w) by (nonlinear_arith)
        requires
            y2 <= x + 3real * e + w,
            e == x * t,
            0real <= e,
            0real < w,
            t * 16777216real == 1real,
    ;
    assert(100real * y2 * t == 100real * (y2 * t)) by (nonlinear_arith);
    assert(-(500real * e + 201real * w) <= q3 * a - 100real * x <= 500real * e + 201real * w);
    assert(100real * x * exp2(-21) == 800real * e) by (nonlinear_arith)
        requires
            exp2(-21) == 8real * t,
            e == x * t,
    ;
    assert(a * exp2(-140) == 1024real * w) by (nonlinear_arith)
        requires
            exp2(-140) == 1024real * z,
            w == a * z,
    ;
}

/// Powers of two that tell how far rounding moves numbers.
pub proof fn lemma_powers()
    ensures
        exp2(-24) * 16777216real == 1real,
        0real < exp2(-150),
        exp2(-150) * 16777216real <= 1real,
        exp2(-21) == 8real * exp2(-24),
        exp2(-140) == 1024real * exp2(-150),
        exp2(128) > 1000000real,
{
    lemma_exp2_values();
    lemma_exp2_inverse(24);
    lemma_exp2_step(-24);
    lemma_exp2_step(-23);
    lemma_exp2_step(-22);
    lemma_exp2_step(-150);
    lemma_exp2_sum(-150, 10);
    lemma_exp2_sum(-150, 24);
    lemma_exp2_monotone(-126, 0);
    lemma_exp2_monotone(24, 128);
}

/// What is no number stays none, and an infinity is beyond every other number.
pub proof fn law_special_numbers(a: Number, b: Number)
    ensures
        a is Nan || b is Nan ==> a.plus(b) is Nan && a.minus(b) is Nan && a.times(b) is Nan
            && a.over(b) is Nan,
        a is Nan ==> a.absolute() is Nan && a.to_u32() == 0 && a.max(b) == b && a.clamp(
            b,
            b,
        ) is Nan,
        !(a is Nan) ==> a.le(Number::Infinite { negative: false }) && (Number::Infinite {
            negative: true,
        }).le(a),
        a is Finite ==> !(Number::Infinite { negative: false }).le(a) && !a.le(
            Number::Infinite { negative: true },
        ),
        a is Infinite && b is Finite ==> a.plus(b) == a && a.minus(b) == a,
        (Number::Infinite { negative: false }).to_u32() == u32::MAX,
        (Number::Infinite { negative: true }).to_u32() == 0,
{
}

/// Sums and products do not depend on the order of their operands.
pub proof fn law_order_of_operands(a: Number, b: Number)
    ensures
        a.plus(b) == b.plus(a),
        a.times(b) == b.times(a),
{
    if a is Finite && b is Finite {
        let (x, y) = (a->magnitude, b->magnitude);
        assert(x * y == y * x) by (nonlinear_arith);
    }
}

/// The absolute value is the number or its opposite, and is not negative.
pub proof fn law_absolute_value(a: Number)
    requires
        a.proper(),
    ensures
        a is Finite ==> a.absolute() is Finite && a.absolute().value() == abs_real(a.value()),
        a is Infinite ==> a.absolute() == (Number::Infinite { negative: false }),
{
}

}
