//! The ambient light sensor: finding it among the IIO devices, and smoothing
//! what it reads.

use crate::output::ReadError;
use crate::rounding::{
    exp2, lemma_exp2_inverse, lemma_exp2_monotone, lemma_exp2_step, lemma_exp2_values,
    lemma_nearest_exact, lemma_nearest_monotone, lemma_nearest_odd, lemma_nearest_off,
};
use crate::single::{
    lemma_minus_value, lemma_plus_value, lemma_rounding, lemma_single_proper, lemma_small_int,
    lemma_times_value, Number, Single,
};
use crate::text;
use vstd::prelude::*;

verus! {

/// What was found out about an IIO device.
#[derive(Debug)]
pub struct IioDevice {
    /// What its file `name` holds, if that could be read.
    pub name: Option<String>,
    /// Whether it has a file `in_illuminance_input`.
    pub has_lux: bool,
}

impl IioDevice {
    /// Whether this is the ambient light sensor.
    pub open spec fn is_light_sensor(self) -> bool {
        &&& self.name is Some
        &&& text::trimmed(self.name->0@) == "aop-sensors-als"@
        &&& self.has_lux
    }
}

/// There is no ambient light sensor.
#[derive(Clone, Copy, Debug)]
pub struct NoSensor;

impl NoSensor {
    /// The error in words.
    pub fn message(&self) -> (m: String)
        ensures
            m@ == "no IIO device named 'aop-sensors-als' found under /sys/bus/iio/devices"@,
    {
        "no IIO device named 'aop-sensors-als' found under /sys/bus/iio/devices".to_owned()
    }
}

/// A reading, and the moving average with it.
#[derive(Clone, Copy, Debug)]
pub struct LuxSample {
    pub raw: Single,
    pub smoothed: Single,
}

/// The ambient light sensor.
#[derive(Clone, Copy, Debug)]
pub struct Sensor {
    /// Which of the IIO devices it is.
    pub device: usize,
    /// Weight of a new reading in the moving average.
    pub alpha: Single,
    /// The moving average, once there is a reading.
    pub smoothed: Option<Single>,
}

/// The moving average after a reading: the reading itself if it is the first.
pub open spec fn average(alpha: Number, previous: Option<Number>, raw: Number) -> Number {
    match previous {
        None => raw,
        Some(previous) => alpha.times(raw).plus(Number::of_int(1).minus(alpha).times(previous)),
    }
}

impl Sensor {
    /// The moving average as a number.
    pub open spec fn average(self) -> Option<Number> {
        match self.smoothed {
            Some(s) => Some(s@),
            None => None,
        }
    }

    /// Finds the ambient light sensor, the first one if there are several.
    pub fn discover(devices: &Vec<IioDevice>) -> (r: Result<usize, NoSensor>)
        ensures
            match r {
                Ok(i) => {
                    &&& i < devices@.len()
                    &&& devices@[i as int].is_light_sensor()
                    &&& forall|j: int| 0 <= j < i ==> !(#[trigger] devices@[j]).is_light_sensor()
                },
                Err(_) => forall|j: int|
                    0 <= j < devices@.len() ==> !(#[trigger] devices@[j]).is_light_sensor(),
            },
    {
        let mut i: usize = 0;
        while i < devices.len()
            invariant
                i <= devices@.len(),
                forall|j: int| 0 <= j < i ==> !(#[trigger] devices@[j]).is_light_sensor(),
            decreases devices@.len() - i,
        {
            if let Some(name) = &devices[i].name {
                if text::equal(text::trim(name.as_str()), "aop-sensors-als") && devices[i].has_lux {
                    return Ok(i);
                }
            }
            i = i + 1;
        }
        Err(NoSensor)
    }

    /// The ambient light sensor, without a reading yet.
    pub fn new(alpha: Single, devices: &Vec<IioDevice>) -> (r: Result<Sensor, NoSensor>)
        ensures
            match r {
                Ok(sensor) => {
                    &&& sensor.device < devices@.len()
                    &&& devices@[sensor.device as int].is_light_sensor()
                    &&& forall|j: int|
                        0 <= j < sensor.device ==> !(#[trigger] devices@[j]).is_light_sensor()
                    &&& sensor.alpha == alpha
                    &&& sensor.smoothed is None
                },
                Err(_) => forall|j: int|
                    0 <= j < devices@.len() ==> !(#[trigger] devices@[j]).is_light_sensor(),
            },
    {
        match Sensor::discover(devices) {
            Ok(device) => Ok(Sensor { device, alpha, smoothed: None }),
            Err(e) => Err(e),
        }
    }

    /// What the moving average becomes with a reading.
    pub fn average_with(&self, raw: Single) -> (smoothed: Single)
        ensures
            smoothed@ == average(self.alpha@, self.average(), raw@),
    {
        match self.smoothed {
            None => raw,
            Some(previous) => self.alpha.times(raw).plus(
                Single::from_u32(1).minus(self.alpha).times(previous),
            ),
        }
    }

    /// Takes a reading into the moving average.
    pub fn sample(&mut self, reading: Result<Single, ReadError>) -> (r: Result<
        LuxSample,
        ReadError,
    >)
        ensures
            final(self).device == old(self).device,
            final(self).alpha == old(self).alpha,
            match reading {
                Ok(raw) => {
                    &&& r matches Ok(sample)
                    &&& sample.raw == raw
                    &&& sample.smoothed@ == average(old(self).alpha@, old(self).average(), raw@)
                    &&& final(self).smoothed == Some(sample.smoothed)
                },
                Err(e) => r == Err::<LuxSample, ReadError>(e) && final(self).smoothed == old(
                    self,
                ).smoothed,
            },
    {
        let raw = match reading {
            Ok(raw) => raw,
            Err(e) => return Err(e),
        };
        let smoothed = self.average_with(raw);
        self.smoothed = Some(smoothed);
        Ok(LuxSample { raw, smoothed })
    }

    /// The moving average, or zero before the first reading.
    pub fn last_smoothed(&self) -> (lux: Single)
        ensures
            match self.smoothed {
                Some(smoothed) => lux == smoothed,
                None => lux@ == Number::of_int(0),
            },
    {
        match self.smoothed {
            Some(smoothed) => smoothed,
            None => Single::from_u32(0),
        }
    }
}

/// The first reading is the average. From then on, with a weight from zero to
/// one, the new average is the reading with that weight and the average before
/// it with the rest of the weight, up to rounding: at most a two-millionth part
/// of the larger of the two, and next to nothing besides. Neither may be beyond
/// half of what single precision holds.
pub proof fn law_average_is_weighted(alpha: Single, previous: Single, raw: Single, limit: real)
    requires
        alpha@ is Finite,
        0real <= alpha@.value() <= 1real,
        previous@ is Finite,
        raw@ is Finite,
        -limit <= previous@.value() <= limit,
        -limit <= raw@.value() <= limit,
        limit <= exp2(127),
    ensures
        average(alpha@, None, raw@) == raw@,
        ({
            let smoothed = average(alpha@, Some(previous@), raw@);
            let slack = limit * exp2(-21) + exp2(-147);
            let exact = alpha@.value() * raw@.value() + (1real - alpha@.value())
                * previous@.value();
            &&& smoothed is Finite
            &&& exact - slack <= smoothed.value() <= exact + slack
        }),
{
    lemma_small_int(0);
    lemma_small_int(1);
    lemma_single_proper(alpha);
    lemma_single_proper(previous);
    lemma_single_proper(raw);
    lemma_exp2_values();
    lemma_exp2_step(126);
    lemma_exp2_monotone(1, 126);
    lemma_exp2_step(0);
    lemma_exp2_step(-24);
    lemma_exp2_step(-23);
    lemma_exp2_step(-22);
    lemma_exp2_step(-150);
    lemma_exp2_step(-149);
    lemma_exp2_step(-148);
    lemma_exp2_monotone(-147, 0);
    lemma_exp2_inverse(24);
    let t = exp2(-24);
    let z = exp2(-150);
    assert(t * 16777216real == 1real);
    let a = alpha@.value();
    let r = raw@.value();
    let p = previous@.value();
    let b = 1real - a;
    let rest = Number::of_int(1).minus(alpha@);
    lemma_minus_value(Number::of_int(1), alpha@);
    let c = rest.value();
    lemma_nearest_off(24, -149, b, -23);
    lemma_nearest_monotone(24, -149, 0real, b);
    lemma_nearest_monotone(24, -149, b, 1real);
    lemma_nearest_odd(24, -149, b);
    lemma_nearest_exact(24, -149, 1, 0);
    assert((1int as real) * exp2(0) == 1real);
    assert(0real <= c <= 1real);
    assert(-t <= c - b <= t);
    assert(-limit <= a * r <= limit) by (nonlinear_arith)
        requires
            0real <= a <= 1real,
            -limit <= r <= limit,
    ;
    assert(-limit <= c * p <= limit) by (nonlinear_arith)
        requires
            0real <= c <= 1real,
            -limit <= p <= limit,
    ;
    assert(-(limit * t) <= c * p - b * p <= limit * t) by (nonlinear_arith)
        requires
            -t <= c - b <= t,
            -limit <= p <= limit,
            t * 16777216real == 1real,
    ;
    let new = alpha@.times(raw@);
    let kept = rest.times(previous@);
    lemma_times_value(alpha@, raw@);
    lemma_times_value(rest, previous@);
    lemma_rounding(a * r, limit);
    lemma_rounding(c * p, limit);
    let exact = a * r + b * p;
    assert(-limit <= exact <= limit) by (nonlinear_arith)
        requires
            exact == a * r + b * p,
            b == 1real - a,
            0real <= a <= 1real,
            -limit <= r <= limit,
            -limit <= p <= limit,
    ;
    let sum = new.value() + kept.value();
    let e = limit * t;
    assert(0real <= e && e * 16777216real == limit) by (nonlinear_arith)
        requires
            e == limit * t,
            t * 16777216real == 1real,
            0real <= limit,
    ;
    assert(-(3real * e + 2real * z) <= sum - exact <= 3real * e + 2real * z);
    let most = limit + 3real * e + 2real * z;
    assert(-most <= sum <= most);
    assert(most <= 3real * exp2(126));
    lemma_plus_value(new, kept);
    lemma_rounding(sum, most);
    assert(most * t <= 2real * e + z) by (nonlinear_arith)
        requires
            most == limit + 3real * e + 2real * z,
            e == limit * t,
            e * 16777216real == limit,
            t * 16777216real == 1real,
            0real <= e,
            0real < z,
    ;
    assert(limit * exp2(-21) == 8real * e) by (nonlinear_arith)
        requires
            exp2(-21) == 8real * t,
            e == limit * t,
    ;
}

/// With a weight from zero to one, the moving average lies between the reading
/// and the average before it, up to rounding.
pub proof fn law_average_lies_between(alpha: Single, previous: Single, raw: Single, limit: real)
    requires
        Number::of_int(0).le(alpha@),
        alpha@.le(Number::of_int(1)),
        previous@ is Finite,
        raw@ is Finite,
        -limit <= previous@.value() <= limit,
        -limit <= raw@.value() <= limit,
        limit <= exp2(126),
    ensures
        ({
            let smoothed = average(alpha@, Some(previous@), raw@);
            let slack = limit * exp2(-21) + exp2(-147);
            let r = raw@.value();
            let p = previous@.value();
            &&& smoothed is Finite
            &&& r <= p ==> r - slack <= smoothed.value() <= p + slack
            &&& p <= r ==> p - slack <= smoothed.value() <= r + slack
        }),
{
    lemma_small_int(0);
    lemma_small_int(1);
    lemma_exp2_monotone(126, 127);
    law_average_is_weighted(alpha, previous, raw, limit);
    let a = alpha@.value();
    let r = raw@.value();
    let p = previous@.value();
    let exact = a * r + (1real - a) * p;
    assert((r <= p ==> r <= exact <= p) && (p <= r ==> p <= exact <= r)) by (nonlinear_arith)
        requires
            exact == a * r + (1real - a) * p,
            0real <= a <= 1real,
    ;
}

/// The light sensor is the device of that name, white space around it aside,
/// that reports the light.
pub proof fn law_light_sensor(device: IioDevice)
    ensures
        device.is_light_sensor() <==> device.has_lux && (device.name matches Some(name)
            && text::trimmed(name@) == "aop-sensors-als"@),
{
}

/// The average is a sum of single-precision products, also where that is no
/// number or beyond what single precision holds.
pub proof fn law_average_of_any_numbers(alpha: Number, previous: Number, raw: Number)
    ensures
        average(alpha, None, raw) == raw,
        average(alpha, Some(previous), raw) == alpha.times(raw).plus(
            Number::of_int(1).minus(alpha).times(previous),
        ),
        raw is Nan ==> average(alpha, Some(previous), raw) is Nan,
        previous is Nan ==> average(alpha, Some(previous), raw) is Nan,
{
}

}
