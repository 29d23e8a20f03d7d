//! From ambient light to target brightness.

use crate::config::{ascending, Channel};
use crate::rounding::{
    exp2, lemma_exp2_inverse, lemma_exp2_monotone, lemma_exp2_sum, lemma_exp2_values,
    lemma_nearest_exact, lemma_nearest_monotone, lemma_nearest_odd, lemma_nearest_off,
    nearest_single,
};
use crate::single::{
    lemma_difference, lemma_minus_value, lemma_over_value, lemma_plus_value, lemma_single_proper,
    lemma_small_int, lemma_times_value, Number, Single,
};
use vstd::prelude::*;

verus! {

/// The percentage at `lux` on the line through two points of lux and percent.
pub open spec fn interpolated(
    low: (Number, Number),
    high: (Number, Number),
    lux: Number,
) -> Number {
    let fraction = if high.0.same(low.0) {
        Number::of_int(0)
    } else {
        lux.minus(low.0).over(high.0.minus(low.0))
    };
    low.1.plus(fraction.times(high.1.minus(low.1)))
}

/// Whether `lux` lies on the segment from point `i` to point `i + 1`.
pub open spec fn on_segment(points: Seq<(Number, Number)>, lux: Number, i: int) -> bool {
    points[i].0.le(lux) && lux.le(points[i + 1].0)
}

/// The first segment from the `i`-th on that `lux` lies on.
pub open spec fn segment_from(points: Seq<(Number, Number)>, lux: Number, i: int) -> Option<int>
    decreases points.len() - i,
{
    if i + 1 >= points.len() {
        None
    } else if on_segment(points, lux, i) {
        Some(i)
    } else {
        segment_from(points, lux, i + 1)
    }
}

/// Whether there is so much light that the backlight is switched off.
pub open spec fn cut_off(channel: Channel, lux: Number) -> bool {
    channel.cutoff_lux matches Some(cutoff) && cutoff@.le(lux)
}

/// The target brightness, in percent, that a channel's curve gives.
pub open spec fn curve_target(channel: Channel, lux: Number) -> Number {
    let points = channel.points();
    let floor = channel.min_pct@;
    if cut_off(channel, lux) {
        Number::of_int(0)
    } else if lux.le(points.first().0) {
        points.first().1.max(floor)
    } else if points.last().0.le(lux) {
        points.last().1.max(floor)
    } else {
        match segment_from(points, lux, 0) {
            Some(i) => interpolated(points[i], points[i + 1], lux).max(floor),
            None => floor,
        }
    }
}

/// Maps lux to target percent by piecewise linear interpolation. Along the whole
/// curve the target is no lower than the floor; from the cutoff on it is zero.
pub fn target_pct(channel: &Channel, lux: Single) -> (pct: Single)
    requires
        cut_off(*channel, lux@) || channel.curve@.len() > 0,
    ensures
        pct@ == curve_target(*channel, lux@),
{
    if let Some(cutoff) = channel.cutoff_lux {
        if cutoff.le(lux) {
            return Single::from_u32(0);
        }
    }
    let curve = &channel.curve;
    let last = curve.len() - 1;
    let ghost points = channel.points();
    if lux.le(curve[0][0]) {
        return curve[0][1].max(channel.min_pct);
    }
    if curve[last][0].le(lux) {
        return curve[last][1].max(channel.min_pct);
    }
    let mut i: usize = 0;
    while i < last
        invariant
            i <= last,
            last == curve@.len() - 1,
            curve == channel.curve,
            points == channel.points(),
            segment_from(points, lux@, 0) == segment_from(points, lux@, i as int),
            !cut_off(*channel, lux@),
            !lux@.le(points.first().0),
            !points.last().0.le(lux@),
        decreases last - i,
    {
        let low = curve[i];
        let high = curve[i + 1];
        assert(points[i as int] == (low[0]@, low[1]@));
        assert(points[i + 1] == (high[0]@, high[1]@));
        if low[0].le(lux) && lux.le(high[0]) {
            let fraction = if high[0].same(low[0]) {
                Single::from_u32(0)
            } else {
                lux.minus(low[0]).over(high[0].minus(low[0]))
            };
            let pct = low[1].plus(fraction.times(high[1].minus(low[1])));
            return pct.max(channel.min_pct);
        }
        i = i + 1;
    }
    channel.min_pct
}

/// From the cutoff on the target is zero, whatever the curve and the floor say.
pub proof fn law_cutoff_switches_off(channel: Channel, lux: Number)
    requires
        channel.cutoff_lux matches Some(cutoff) && cutoff@.le(lux),
    ensures
        curve_target(channel, lux) == Number::of_int(0),
        curve_target(channel, lux).value() == 0real,
{
    lemma_small_int(0);
}

/// In less light than the cutoff, the cutoff makes no difference: the target is
/// the same as without one.
pub proof fn law_cutoff_does_not_matter_below(channel: Channel, lux: Number)
    requires
        channel.cutoff_lux matches Some(cutoff) && lux.lt(cutoff@),
    ensures
        curve_target(channel, lux) == curve_target(Channel { cutoff_lux: None, ..channel }, lux),
{
}

/// Light that is no number gives the floor.
pub proof fn law_no_number_gives_the_floor(channel: Channel)
    requires
        channel.curve@.len() > 0,
    ensures
        curve_target(channel, Number::Nan) == channel.min_pct@,
{
    lemma_no_segment(channel.points(), 0);
}

/// Light that is no number lies on no segment.
proof fn lemma_no_segment(points: Seq<(Number, Number)>, i: int)
    ensures
        segment_from(points, Number::Nan, i) is None,
    decreases points.len() - i,
{
    if i + 1 < points.len() {
        lemma_no_segment(points, i + 1);
    }
}

/// Outside the range of the curve, and before the cutoff, the target is that
/// of the curve's first or last point, raised to the floor.
pub proof fn law_clamped_to_end_points(channel: Channel, lux: Number)
    requires
        channel.curve@.len() > 0,
        channel.cutoff_lux matches Some(cutoff) ==> !cutoff@.le(lux),
    ensures
        ({
            let first = channel.curve@[0];
            let last = channel.curve@[channel.curve@.len() - 1];
            &&& lux.le(first[0]@) ==> curve_target(channel, lux) == first[1]@.max(channel.min_pct@)
            &&& last[0]@.le(lux) && !lux.le(first[0]@) ==> curve_target(channel, lux)
                == last[1]@.max(channel.min_pct@)
        }),
{
    assert(channel.points().first() == (channel.curve@[0][0]@, channel.curve@[0][1]@));
}

/// A sorted curve has a segment for every light between its ends.
proof fn lemma_segment_found(points: Seq<(Number, Number)>, lux: Number, i: int)
    requires
        ascending(points),
        0 <= i < points.len(),
        points[i].0.le(lux),
        !points.last().0.le(lux),
        !(lux is Nan),
    ensures
        segment_from(points, lux, i) matches Some(k) && i <= k < points.len() - 1 && on_segment(
            points,
            lux,
            k,
        ),
        forall|k: int|
            i <= k < segment_from(points, lux, i)->0 ==> (#[trigger] points[k + 1]).0.lt(lux),
    decreases points.len() - i,
{
    if i + 1 < points.len() {
        assert(points[i].0.le(points[i + 1].0));
        if !on_segment(points, lux, i) {
            lemma_segment_found(points, lux, i + 1);
        }
    }
}

/// Between the ends of a sorted curve, and before the cutoff, the target is
/// interpolated between two neighbouring points, one with no more light than
/// there is and the first one with no less, and raised to the floor.
pub proof fn law_interpolates_between_neighbours(channel: Channel, lux: Number) -> (i: int)
    requires
        channel.curve@.len() > 0,
        forall|k: int|
            0 < k < channel.curve@.len() ==> channel.curve@[k - 1][0]@.le(
                #[trigger] channel.curve@[k][0]@,
            ),
        channel.cutoff_lux matches Some(cutoff) ==> !cutoff@.le(lux),
        channel.curve@[0][0]@.lt(lux),
        lux.lt(channel.curve@[channel.curve@.len() - 1][0]@),
    ensures
        0 <= i < channel.curve@.len() - 1,
        channel.curve@[i][0]@.le(lux) && lux.le(channel.curve@[i + 1][0]@),
        forall|k: int| 0 <= k <= i ==> (#[trigger] channel.curve@[k][0]@).lt(lux),
        ({
            let (x0, y0) = (channel.curve@[i][0]@, channel.curve@[i][1]@);
            let (x1, y1) = (channel.curve@[i + 1][0]@, channel.curve@[i + 1][1]@);
            let fraction = lux.minus(x0).over(x1.minus(x0));
            curve_target(channel, lux) == y0.plus(fraction.times(y1.minus(y0))).max(
                channel.min_pct@,
            )
        }),
{
    let points = channel.points();
    assert forall|k: int| 0 < k < points.len() implies points[k - 1].0.le(
        #[trigger] points[k].0,
    ) by {
        assert(channel.curve@[k - 1][0]@.le(channel.curve@[k][0]@));
    }
    lemma_segment_found(channel.points(), lux, 0);
    let i = segment_from(channel.points(), lux, 0)->0;
    assert forall|k: int| 0 <= k <= i implies (#[trigger] channel.curve@[k][0]@).lt(lux) by {
        if k > 0 {
            assert(points[(k - 1) + 1].0.lt(lux));
        }
    }
    i
}

/// Before the cutoff the target is never below the floor.
pub proof fn law_floor(channel: Channel, lux: Number)
    requires
        channel.curve@.len() > 0,
        !(channel.min_pct@ is Nan),
        channel.cutoff_lux matches Some(cutoff) ==> !cutoff@.le(lux),
    ensures
        channel.min_pct@.le(curve_target(channel, lux)),
{
}

/// The percentage at `lux` on the line through two points, in real numbers.
pub open spec fn line(low: (Number, Number), high: (Number, Number), lux: Number) -> real {
    if high.0.value() == low.0.value() {
        low.1.value()
    } else {
        low.1.value() + (lux.value() - low.0.value()) / (high.0.value() - low.0.value()) * (
        high.1.value() - low.1.value())
    }
}

/// Whether a number is a percentage.
pub open spec fn is_percentage(x: Number) -> bool {
    Number::of_int(0).le(x) && x.le(Number::of_int(100))
}

/// The larger of two real numbers.
pub open spec fn larger(x: real, y: real) -> real {
    if x < y {
        y
    } else {
        x
    }
}

/// How far rounding moves numbers of the magnitudes in question.
proof fn lemma_steps()
    ensures
        exp2(1) == 2real,
        exp2(7) == 128real,
        exp2(8) == 256real,
        exp2(-24) * 16777216real == 1real,
        exp2(-18) * 262144real == 1real,
        exp2(-17) * 131072real == 1real,
        exp2(127) >= 256real,
{
    reveal_with_fuel(exp2, 9);
    lemma_exp2_values();
    lemma_exp2_sum(10, 7);
    lemma_exp2_sum(10, 8);
    lemma_exp2_inverse(17);
    lemma_exp2_inverse(18);
    lemma_exp2_inverse(24);
    lemma_exp2_monotone(8, 127);
}

/// The computed fraction is close to the exact one.
proof fn lemma_fraction(x: real, y: real, a: real, b: real)
    requires
        0real <= x <= y,
        0real < y,
        -(x * exp2(-24)) <= a - x <= x * exp2(-24),
        -(y * exp2(-24)) <= b - y <= y * exp2(-24),
        exp2(-24) * 16777216real == 1real,
        0real <= a <= b,
    ensures
        0real < b,
        0real <= a / b <= 1real,
        -1real / 4000000real <= a / b - x / y <= 1real / 4000000real,
{
    let t = exp2(-24);
    assert(t == 1real / 16777216real);
    let f = x / y;
    let g = a / b;
    assert(0real < b) by (nonlinear_arith)
        requires
            0real < y,
            b - y >= -(y * t),
            t == 1real / 16777216real,
    ;
    assert(0real <= f <= 1real && f * y == x) by (nonlinear_arith)
        requires
            0real <= x <= y,
            0real < y,
            f == x / y,
    ;
    assert(0real <= g <= 1real && g * b == a) by (nonlinear_arith)
        requires
            0real <= a <= b,
            0real < b,
            g == a / b,
    ;
    let d = g - f;
    // d * b == (a - x) - f * (b - y).
    assert(d * b == (a - x) - f * (b - y)) by (nonlinear_arith)
        requires
            d == g - f,
            g * b == a,
            f * y == x,
    ;
    assert(-(y * t) <= a - x <= y * t) by (nonlinear_arith)
        requires
            0real <= x <= y,
            -(x * t) <= a - x <= x * t,
            t == 1real / 16777216real,
    ;
    assert(-(y * t) <= f * (b - y) <= y * t) by (nonlinear_arith)
        requires
            0real <= f <= 1real,
            0real < y,
            -(y * t) <= b - y <= y * t,
            t == 1real / 16777216real,
    ;
    assert(-(2real * (y * t)) <= d * b <= 2real * (y * t));
    assert(-1real / 4000000real <= d <= 1real / 4000000real) by (nonlinear_arith)
        requires
            -(2real * (y * t)) <= d * b <= 2real * (y * t),
            b - y >= -(y * t),
            t == 1real / 16777216real,
            0real < y,
            0real < b,
    ;
}

/// Between two points, interpolation is close to the line through them.
proof fn lemma_interpolated(low: [Single; 2], high: [Single; 2], lux: Single)
    requires
        low[0]@ is Finite,
        high[0]@ is Finite,
        lux@ is Finite,
        is_percentage(low[1]@),
        is_percentage(high[1]@),
        low[0]@.le(lux@),
        lux@.le(high[0]@),
        high[0]@.minus(low[0]@) is Finite,
    ensures
        ({
            let from = (low[0]@, low[1]@);
            let to = (high[0]@, high[1]@);
            let pct = interpolated(from, to, lux@);
            &&& pct is Finite
            &&& -1real / 1000real <= pct.value() - line(from, to, lux@) <= 1real / 1000real
        }),
{
    lemma_steps();
    lemma_exp2_values();
    lemma_small_int(0);
    lemma_small_int(100);
    lemma_single_proper(low[0]);
    lemma_single_proper(low[1]);
    lemma_single_proper(high[0]);
    lemma_single_proper(high[1]);
    lemma_single_proper(lux);
    let p0 = low[1]@.value();
    let p1 = high[1]@.value();
    let x = lux@.value() - low[0]@.value();
    let y = high[0]@.value() - low[0]@.value();
    let (q, f) = if high[0]@.same(low[0]@) {
        (Number::of_int(0), 0real)
    } else {
        (lux@.minus(low[0]@).over(high[0]@.minus(low[0]@)), x / y)
    };
    if !high[0]@.same(low[0]@) {
        lemma_difference(lux, low[0]);
        lemma_difference(high[0], low[0]);
        lemma_nearest_monotone(24, -149, 0real, x);
        lemma_nearest_monotone(24, -149, x, y);
        lemma_nearest_odd(24, -149, x);
        lemma_nearest_odd(24, -149, y);
        let a = lux@.minus(low[0]@);
        let b = high[0]@.minus(low[0]@);
        assert(b.value() == nearest_single(y));
        assert(a is Finite && a.value() == nearest_single(x));
        lemma_fraction(x, y, a.value(), b.value());
        lemma_over_value(a, b);
        lemma_nearest_off(24, -149, a.value() / b.value(), -23);
        lemma_nearest_monotone(24, -149, 0real, a.value() / b.value());
        lemma_nearest_monotone(24, -149, a.value() / b.value(), 1real);
        lemma_nearest_exact(24, -149, 1, 0);
        assert((1int as real) * exp2(0) == 1real);
    }
    assert(q is Finite && q.proper());
    let v = q.value();
    assert(0real <= v <= 1real);
    assert(-1real / 3000000real <= v - f <= 1real / 3000000real);
    let d = high[1]@.minus(low[1]@);
    lemma_minus_value(high[1]@, low[1]@);
    lemma_nearest_off(24, -149, p1 - p0, -17);
    let w = d.value();
    assert(-101real <= w <= 101real);
    assert(-101real <= v * w <= 101real) by (nonlinear_arith)
        requires
            0real <= v <= 1real,
            -101real <= w <= 101real,
    ;
    let t = q.times(d);
    lemma_times_value(q, d);
    lemma_nearest_off(24, -149, v * w, -17);
    lemma_plus_value(low[1]@, t);
    lemma_nearest_off(24, -149, p0 + t.value(), -16);
    assert(-1real / 10000real <= v * w - f * (p1 - p0) <= 1real / 10000real) by (nonlinear_arith)
        requires
            -1real / 3000000real <= v - f <= 1real / 3000000real,
            0real <= v <= 1real,
            -100real <= p1 - p0 <= 100real,
            -1real / 200000real <= w - (p1 - p0) <= 1real / 200000real,
    ;
    assert(line((low[0]@, low[1]@), (high[0]@, high[1]@), lux@) == p0 + f * (p1 - p0));
}

/// Between the ends of a sorted curve of percentages, and before the cutoff, the
/// target is on the line through two neighbouring points, one with less light
/// than there is and one with no less, raised to the floor, up to a thousandth of
/// a percent. The difference in light between neighbouring
/// points must not be beyond what single precision holds.
pub proof fn law_target_is_on_the_line(channel: Channel, lux: Single) -> (i: int)
    requires
        channel.curve@.len() > 0,
        forall|k: int|
            0 < k < channel.curve@.len() ==> channel.curve@[k - 1][0]@.le(
                #[trigger] channel.curve@[k][0]@,
            ),
        channel.cutoff_lux matches Some(cutoff) ==> !cutoff@.le(lux@),
        channel.curve@[0][0]@.lt(lux@),
        lux@.lt(channel.curve@[channel.curve@.len() - 1][0]@),
        channel.min_pct@ is Finite,
        forall|k: int|
            0 <= k < channel.curve@.len() ==> (#[trigger] channel.curve@[k][1]@) is Finite
                && 0real <= channel.curve@[k][1]@.value() <= 100real,
        forall|k: int|
            0 < k < channel.curve@.len() ==> (#[trigger] channel.curve@[k][0]@).minus(
                channel.curve@[k - 1][0]@,
            ) is Finite,
    ensures
        0 <= i < channel.curve@.len() - 1,
        curve_target(channel, lux@) is Finite,
        ({
            let (x0, y0) = (channel.curve@[i][0]@.value(), channel.curve@[i][1]@.value());
            let (x1, y1) = (channel.curve@[i + 1][0]@.value(), channel.curve@[i + 1][1]@.value());
            let x = lux@.value();
            let exact = larger(
                y0 + (x - x0) / (x1 - x0) * (y1 - y0),
                channel.min_pct@.value(),
            );
            &&& x0 < x <= x1
            &&& -1real / 1000real <= curve_target(channel, lux@).value() - exact <= 1real / 1000real
        }),
{
    let i = law_interpolates_between_neighbours(channel, lux@);
    assert(channel.curve@[i + 1][0]@.minus(channel.curve@[i][0]@) is Finite);
    assert(channel.curve@[i][1]@ is Finite && channel.curve@[i + 1][1]@ is Finite);
    lemma_small_int(0);
    lemma_small_int(100);
    lemma_interpolated(channel.curve@[i], channel.curve@[i + 1], lux);
    i
}

}
