//! Backlight devices: what is read from them, what is written to them, and how
//! a change that somebody else made is told from our own.

use crate::config::Channel;
use crate::ramp::{ramp, ramp_values};
use crate::rounding::{
    exp2, lemma_exp2_inverse, lemma_exp2_monotone, lemma_exp2_step, lemma_exp2_sum,
    lemma_exp2_values, lemma_nearest_error, lemma_nearest_exact, lemma_nearest_monotone,
    lemma_nearest_odd, lemma_nearest_relative, nearest_single,
};
use crate::single::{
    lemma_percentage, lemma_powers, lemma_rounding, lemma_rounding_is_stable, lemma_single_proper,
    lemma_small_int, Number, Single,
};
use crate::text;
use crate::text::NumberFault;
use vstd::prelude::*;

verus! {

/// The two backlights.
#[derive(Clone, Copy, Debug)]
pub enum ChannelKind {
    Display,
    Keyboard,
}

/// A backlight device.
#[derive(Clone, Copy, Debug)]
pub struct Backlight {
    /// The raw value of full brightness.
    pub max: u32,
    /// The raw value that we know the device to have by our own doing.
    pub last_written: Option<u32>,
}

/// Why a raw value could not be read.
#[derive(Clone, Copy, Debug)]
pub enum ReadError {
    Unreadable,
    NotANumber,
}

/// A raw value could not be written.
#[derive(Clone, Copy, Debug)]
pub struct WriteError;

/// What was found out about a device.
#[derive(Debug)]
pub struct DeviceProbe {
    /// Whether its directory exists.
    pub exists: bool,
    /// What its file `max_brightness` holds, or why that could not be read.
    pub max_text: Result<String, String>,
    /// Whether its file `brightness` can be opened for writing, or why not.
    pub writable: Result<(), String>,
}

/// Why a device cannot be used.
#[derive(Debug)]
pub enum OpenError {
    UnknownClass { class: String },
    NoDevice { dir: String },
    MaxUnreadable { device: String, cause: String },
    MaxNotANumber { fault: NumberFault },
    MaxZero { device: String },
    NotWritable { dir: String, cause: String },
}

/// A reason why a device cannot be used, in the order in which they are looked for.
pub enum OpenFault {
    UnknownClass { class: Seq<char> },
    NoDevice { dir: Seq<char> },
    MaxUnreadable { device: Seq<char>, cause: Seq<char> },
    MaxNotANumber { fault: NumberFault },
    MaxZero { device: Seq<char> },
    NotWritable { dir: Seq<char>, cause: Seq<char> },
}

impl View for OpenError {
    type V = OpenFault;

    open spec fn view(&self) -> OpenFault {
        match self {
            OpenError::UnknownClass { class } => OpenFault::UnknownClass { class: class@ },
            OpenError::NoDevice { dir } => OpenFault::NoDevice { dir: dir@ },
            OpenError::MaxUnreadable { device, cause } => OpenFault::MaxUnreadable {
                device: device@,
                cause: cause@,
            },
            OpenError::MaxNotANumber { fault } => OpenFault::MaxNotANumber { fault: *fault },
            OpenError::MaxZero { device } => OpenFault::MaxZero { device: device@ },
            OpenError::NotWritable { dir, cause } => OpenFault::NotWritable {
                dir: dir@,
                cause: cause@,
            },
        }
    }
}

/// What a fault is reported as.
pub open spec fn open_message(fault: OpenFault) -> Seq<char> {
    match fault {
        OpenFault::UnknownClass { class } => "unknown sysfs class: "@ + class,
        OpenFault::NoDevice { dir } => "device path does not exist: "@ + dir,
        OpenFault::MaxUnreadable { device, .. } => "reading max_brightness for "@ + device,
        OpenFault::MaxNotANumber { fault } => text::number_message(fault),
        OpenFault::MaxZero { device } => "max_brightness is zero for "@ + device,
        OpenFault::NotWritable { dir, cause } => text::joined(dir, "brightness"@)
            + " not writable ("@ + cause
            + "). Install the udev rule and ensure your user is in 'video'."@,
    }
}

impl OpenError {
    /// The error in words.
    pub fn message(&self) -> (m: String)
        ensures
            m@ == open_message(self@),
    {
        match self {
            OpenError::UnknownClass { class } => "unknown sysfs class: ".to_owned().concat(
                class.as_str(),
            ),
            OpenError::NoDevice { dir } => "device path does not exist: ".to_owned().concat(
                dir.as_str(),
            ),
            OpenError::MaxUnreadable { device, .. } => "reading max_brightness for ".to_owned()
                .concat(device.as_str()),
            OpenError::MaxNotANumber { fault } => fault.message(),
            OpenError::MaxZero { device } => "max_brightness is zero for ".to_owned().concat(
                device.as_str(),
            ),
            OpenError::NotWritable { dir, cause } => text::join(
                dir.as_str(),
                "brightness",
            ).concat(" not writable (").concat(cause.as_str()).concat(
                "). Install the udev rule and ensure your user is in 'video'.",
            ),
        }
    }

    /// What led to the error, where that is not part of its words.
    pub fn cause(&self) -> (c: Option<String>)
        ensures
            match self@ {
                OpenFault::MaxUnreadable { cause, .. } => c matches Some(text) && text@ == cause,
                _ => c is None,
            },
    {
        match self {
            OpenError::MaxUnreadable { cause, .. } => Some(cause.clone()),
            _ => None,
        }
    }
}

/// The directory of a sysfs class of backlights.
pub open spec fn class_root(class: Seq<char>) -> Option<Seq<char>> {
    if class == "backlight"@ {
        Some("/sys/class/backlight"@)
    } else if class == "leds"@ {
        Some("/sys/class/leds"@)
    } else {
        None
    }
}

/// The directory of a channel's device.
pub open spec fn dir_of(channel: Channel) -> Option<Seq<char>> {
    match class_root(channel.class@) {
        Some(root) => Some(text::joined(root, channel.device@)),
        None => None,
    }
}

/// The directory that holds the files of a channel's device.
pub fn device_dir(channel: &Channel) -> (r: Result<String, OpenError>)
    ensures
        match r {
            Ok(dir) => dir_of(*channel) == Some(dir@),
            Err(e) => dir_of(*channel) is None && e@ == (OpenFault::UnknownClass {
                class: channel.class@,
            }),
        },
{
    let root = if text::equal(channel.class.as_str(), "backlight") {
        "/sys/class/backlight"
    } else if text::equal(channel.class.as_str(), "leds") {
        "/sys/class/leds"
    } else {
        return Err(OpenError::UnknownClass { class: channel.class.clone() });
    };
    Ok(text::join(root, channel.device.as_str()))
}

/// What comes of opening a channel's device: its full brightness, or the first
/// thing that is wrong with it.
pub open spec fn opened(channel: Channel, probe: DeviceProbe) -> Result<int, OpenFault> {
    match dir_of(channel) {
        None => Err(OpenFault::UnknownClass { class: channel.class@ }),
        Some(dir) => if !probe.exists {
            Err(OpenFault::NoDevice { dir })
        } else {
            match probe.max_text {
                Err(cause) => Err(
                    OpenFault::MaxUnreadable { device: channel.device@, cause: cause@ },
                ),
                Ok(content) => match text::unsigned_value(text::trimmed(content@)) {
                    None => Err(
                        OpenFault::MaxNotANumber {
                            fault: text::number_fault(text::trimmed(content@))->0,
                        },
                    ),
                    Some(max) => if max == 0 {
                        Err(OpenFault::MaxZero { device: channel.device@ })
                    } else {
                        match probe.writable {
                            Err(cause) => Err(OpenFault::NotWritable { dir, cause: cause@ }),
                            Ok(_) => Ok(max),
                        }
                    },
                },
            }
        },
    }
}

/// The raw value that a device's file holds, given what it holds if it could
/// be read.
pub open spec fn raw_in(content: Option<Seq<char>>) -> Result<int, ReadError> {
    match content {
        None => Err(ReadError::Unreadable),
        Some(text) => match text::unsigned_value(text::trimmed(text)) {
            None => Err(ReadError::NotANumber),
            Some(raw) => Ok(raw),
        },
    }
}

/// A planned transition: the raw values to write, and the time to wait after
/// each of them.
#[derive(Debug)]
pub struct RampPlan {
    pub values: Vec<u32>,
    pub pause_nanos: u128,
}

/// The time between two steps of a transition; without steps, ten milliseconds.
pub open spec fn step_nanos(duration_nanos: int, steps: int) -> int {
    if steps == 0 {
        10_000_000
    } else {
        duration_nanos / steps
    }
}

impl Backlight {
    /// Whether the device can be dimmed at all.
    pub open spec fn wf(self) -> bool {
        self.max > 0
    }

    /// What is written for a raw value: no more than full brightness.
    pub open spec fn limited(self, value: u32) -> u32 {
        if value <= self.max {
            value
        } else {
            self.max
        }
    }

    /// Whether a value that the device has differs from what we wrote last by
    /// more than one.
    pub open spec fn changed_by_others(self, current: u32) -> bool {
        self.last_written matches Some(last) && (current - last > 1 || last - current > 1)
    }

    /// Opens the device of a channel.
    pub fn open(_kind: ChannelKind, channel: &Channel, probe: &DeviceProbe) -> (r: Result<
        Backlight,
        OpenError,
    >)
        ensures
            match r {
                Ok(backlight) => {
                    &&& opened(*channel, *probe) == Ok::<int, OpenFault>(backlight.max as int)
                    &&& backlight.last_written is None
                    &&& backlight.wf()
                },
                Err(e) => opened(*channel, *probe) == Err::<int, OpenFault>(e@),
            },
    {
        let dir = match device_dir(channel) {
            Ok(dir) => dir,
            Err(e) => return Err(e),
        };
        if !probe.exists {
            return Err(OpenError::NoDevice { dir });
        }
        let content = match &probe.max_text {
            Ok(content) => content,
            Err(cause) => return Err(
                OpenError::MaxUnreadable { device: channel.device.clone(), cause: cause.clone() },
            ),
        };
        let max = match text::parse_u32(text::trim(content.as_str())) {
            Ok(max) => max,
            Err(fault) => return Err(OpenError::MaxNotANumber { fault }),
        };
        if max == 0 {
            return Err(OpenError::MaxZero { device: channel.device.clone() });
        }
        match &probe.writable {
            Ok(_) => Ok(Backlight { max, last_written: None }),
            Err(cause) => Err(OpenError::NotWritable { dir, cause: cause.clone() }),
        }
    }

    /// The raw value that the device has, from what its file holds.
    pub fn read_raw(&self, content: Option<&str>) -> (r: Result<u32, ReadError>)
        ensures
            match r {
                Ok(raw) => content is Some && raw_in(Some(content->0@)) == Ok::<int, ReadError>(
                    raw as int,
                ),
                Err(e) => match content {
                    None => e == ReadError::Unreadable,
                    Some(text) => raw_in(Some(text@)) == Err::<int, ReadError>(e),
                },
            },
    {
        match content {
            None => Err(ReadError::Unreadable),
            Some(text) => match text::parse_u32(text::trim(text)) {
                Ok(raw) => Ok(raw),
                Err(_) => Err(ReadError::NotANumber),
            },
        }
    }

    /// Takes the value that the device has for our own, so that it does not
    /// count as changed by others.
    pub fn sync_last_written(&mut self, reading: Result<u32, ReadError>) -> (r: Result<
        (),
        ReadError,
    >)
        ensures
            final(self).max == old(self).max,
            match reading {
                Ok(raw) => r is Ok && final(self).last_written == Some(raw),
                Err(e) => r == Err::<(), ReadError>(e) && final(self).last_written == old(
                    self,
                ).last_written,
            },
    {
        match reading {
            Ok(raw) => {
                self.last_written = Some(raw);
                Ok(())
            },
            Err(e) => Err(e),
        }
    }

    /// The brightness that the device has, in percent.
    pub fn current_pct(&self, reading: Result<u32, ReadError>) -> (r: Result<Single, ReadError>)
        ensures
            match (reading, r) {
                (Ok(raw), Ok(pct)) => pct@ == pct_of(raw, self.max),
                (Err(e), Err(f)) => e == f,
                _ => false,
            },
    {
        match reading {
            Ok(raw) => Ok(raw_to_pct(raw, self.max)),
            Err(e) => Err(e),
        }
    }

    /// Whether somebody else changed the brightness. A difference of one from
    /// what we wrote does not count, and before we wrote anything nothing does.
    pub fn detect_external_change(&self, reading: Result<u32, ReadError>) -> (r: Result<
        bool,
        ReadError,
    >)
        ensures
            match (self.last_written, reading) {
                (None, _) => r == Ok::<bool, ReadError>(false),
                (Some(_), Ok(current)) => r == Ok::<bool, ReadError>(
                    self.changed_by_others(current),
                ),
                (Some(_), Err(e)) => r == Err::<bool, ReadError>(e),
            },
    {
        let last = match self.last_written {
            Some(last) => last,
            None => return Ok(false),
        };
        match reading {
            Ok(current) => {
                let difference = if current > last { current - last } else { last - current };
                Ok(difference > 1)
            },
            Err(e) => Err(e),
        }
    }

    /// What to write to the device for a raw value.
    pub fn limit(&self, value: u32) -> (limited: u32)
        ensures
            limited == self.limited(value),
    {
        if value <= self.max {
            value
        } else {
            self.max
        }
    }

    /// Records the outcome of writing a raw value, limited to full brightness,
    /// to the device.
    pub fn write_raw(&mut self, value: u32, written: bool) -> (r: Result<(), WriteError>)
        ensures
            final(self).max == old(self).max,
            r is Ok == written,
            final(self).last_written == (if written {
                Some(old(self).limited(value))
            } else {
                old(self).last_written
            }),
    {
        if written {
            self.last_written = Some(self.limit(value));
            Ok(())
        } else {
            Err(WriteError)
        }
    }

    /// Plans a smooth transition from the value that the device has now to a
    /// target in percent.
    pub fn ramp_to(
        &mut self,
        target_pct: Single,
        duration_nanos: u128,
        steps: u32,
        reading: Result<u32, ReadError>,
    ) -> (r: Result<RampPlan, ReadError>)
        ensures
            final(self).max == old(self).max,
            match reading {
                Err(e) => r == Err::<RampPlan, ReadError>(e) && *final(self) == *old(self),
                Ok(from) => {
                    let to = raw_of(target_pct@, old(self).max);
                    &&& r matches Ok(plan)
                    &&& plan.pause_nanos == step_nanos(duration_nanos as int, steps as int)
                    &&& plan.values@ == (if from == to {
                        Seq::<u32>::empty()
                    } else {
                        ramp_values(from, to as u32, steps)
                    })
                    &&& final(self).last_written == (if from == to {
                        Some(from)
                    } else {
                        old(self).last_written
                    })
                },
            },
    {
        let from = match reading {
            Ok(from) => from,
            Err(e) => return Err(e),
        };
        let to = pct_to_raw(target_pct, self.max);
        let pause_nanos = if steps == 0 { 10_000_000 } else { duration_nanos / steps as u128 };
        if from == to {
            self.last_written = Some(to);
            return Ok(RampPlan { values: Vec::new(), pause_nanos });
        }
        Ok(RampPlan { values: ramp(from, to, steps), pause_nanos })
    }
}

/// A raw value in percent of full brightness.
pub open spec fn pct_of(raw: u32, max: u32) -> Number {
    Number::of_int(raw as int).over(Number::of_int(max as int)).times(Number::of_int(100))
}

/// A percentage of full brightness as a raw value.
pub open spec fn raw_of(pct: Number, max: u32) -> int {
    pct.clamp(Number::of_int(0), Number::of_int(100)).over(Number::of_int(100)).times(
        Number::of_int(max as int),
    ).to_u32()
}

/// Converts a raw brightness value to a percentage.
pub fn raw_to_pct(raw: u32, max: u32) -> (pct: Single)
    ensures
        pct@ == pct_of(raw, max),
{
    Single::from_u32(raw).over(Single::from_u32(max)).times(Single::from_u32(100))
}

/// Converts a percentage to a raw brightness value.
pub fn pct_to_raw(pct: Single, max: u32) -> (raw: u32)
    ensures
        raw == raw_of(pct@, max),
{
    proof {
        lemma_small_int(0);
        lemma_small_int(100);
    }
    pct.clamp(Single::from_u32(0), Single::from_u32(100)).over(Single::from_u32(100)).times(
        Single::from_u32(max),
    ).to_u32()
}

/// After the value that a device has was adopted, that value does not count as
/// changed by others.
pub proof fn law_adopted_value_is_ours(backlight: Backlight, raw: u32)
    requires
        backlight.last_written == Some(raw),
    ensures
        !backlight.changed_by_others(raw),
{
}

/// After a value was written, what is read back from the device is that value
/// limited to full brightness, and does not count as changed by others.
pub proof fn law_written_value_is_ours(backlight: Backlight, value: u32)
    requires
        backlight.last_written == Some(backlight.limited(value)),
    ensures
        raw_in(Some(text::decimal(backlight.limited(value) as nat).push('\n')))
            == Ok::<int, ReadError>(backlight.limited(value) as int),
        !backlight.changed_by_others(backlight.limited(value)),
{
    text::law_written_number_is_read_back(backlight.limited(value));
}

/// A device rounds what we write to a neighbouring value at most: that does
/// not count as changed by others, anything further off does.
pub proof fn law_tolerance_is_one(backlight: Backlight, last: u32, current: u32)
    requires
        backlight.last_written == Some(last),
    ensures
        backlight.changed_by_others(current) <==> !(last - 1 <= current <= last + 1),
{
}

/// The scaled percentage before it is made an integer.
spec fn scaled(pct: Number, max: u32) -> Number {
    pct.clamp(Number::of_int(0), Number::of_int(100)).over(Number::of_int(100)).times(
        Number::of_int(max as int),
    )
}

/// A `u32` in single precision is between zero and `2^32`.
pub proof fn lemma_u32_range(i: u32)
    ensures
        Number::of_int(i as int) matches Number::Finite { negative, magnitude } && !negative
            && 0real <= magnitude <= exp2(32),
{
    lemma_exp2_values();
    lemma_nearest_monotone(24, -149, 0real, i as int as real);
    lemma_nearest_monotone(24, -149, i as int as real, exp2(32));
    lemma_nearest_exact(24, -149, 1, 32);
    lemma_nearest_exact(24, -149, 0, 0);
    assert((1int as real) * exp2(32) == exp2(32));
    assert((0int as real) * exp2(0) == 0real);
    lemma_exp2_monotone(32, 128);
}

/// Scaling keeps percentages between nothing and full brightness.
proof fn lemma_scaled(pct: Number, max: u32)
    requires
        !(pct is Nan),
        pct.proper(),
    ensures
        scaled(pct, max) matches Number::Finite { magnitude, .. } && 0real <= magnitude
            <= Number::of_int(max as int).value(),
        scaled(pct, max) == ({
            let c = pct.clamp(Number::of_int(0), Number::of_int(100));
            let full = Number::of_int(max as int).value();
            Number::Finite {
                negative: c->Finite_negative,
                magnitude: nearest_single(nearest_single(c->magnitude / 100real) * full),
            }
        }),
        pct.clamp(Number::of_int(0), Number::of_int(100)) matches Number::Finite {
            negative,
            magnitude,
        } && 0real <= magnitude <= 100real && (negative ==> magnitude == 0real),
{
    lemma_small_int(0);
    lemma_small_int(100);
    lemma_small_int(1);
    lemma_u32_range(max);
    lemma_exp2_values();
    lemma_exp2_monotone(32, 128);
    lemma_exp2_step(32);
    lemma_exp2_monotone(33, 128);
    let full = Number::of_int(max as int).value();
    let c = pct.clamp(Number::of_int(0), Number::of_int(100));
    let x = c->magnitude / 100real;
    let q = nearest_single(x);
    lemma_nearest_monotone(24, -149, 0real, x);
    lemma_nearest_monotone(24, -149, x, 1real);
    assert(0real <= q <= 1real);
    assert(0real <= q * full <= full) by (nonlinear_arith)
        requires
            0real <= q <= 1real,
            0real <= full,
    ;
    lemma_nearest_monotone(24, -149, 0real, q * full);
    lemma_nearest_monotone(24, -149, q * full, full);
    lemma_rounding_is_stable(max as int as real);
}

/// Raw values fit in a `u32`.
pub proof fn lemma_raw_fits(pct: Single, max: u32)
    ensures
        0 <= raw_of(pct@, max) <= u32::MAX,
{
    if !(pct@ is Nan) {
        lemma_single_proper(pct);
        lemma_scaled(pct@, max);
    }
}

/// No percentage gives more than full brightness, for every full brightness
/// that single precision does not round up.
pub proof fn law_raw_within_range(max: u32)
    requires
        Number::of_int(max as int).to_u32() <= max,
    ensures
        forall|pct: Single| 0 <= #[trigger] raw_of(pct@, max) <= max,
{
    assert forall|pct: Single| 0 <= #[trigger] raw_of(pct@, max) <= max by {
        if !(pct@ is Nan) {
            lemma_single_proper(pct);
            lemma_scaled(pct@, max);
            lemma_u32_range(max);
        }
    }
}

/// A higher percentage never gives a lower raw value.
pub proof fn law_raw_monotone(low: Single, high: Single, max: u32)
    requires
        low@.le(high@),
    ensures
        raw_of(low@, max) <= raw_of(high@, max),
{
    lemma_single_proper(low);
    lemma_single_proper(high);
    lemma_scaled(low@, max);
    lemma_scaled(high@, max);
    lemma_u32_range(max);
    lemma_small_int(0);
    lemma_small_int(100);
    let full = Number::of_int(max as int).value();
    let c1 = low@.clamp(Number::of_int(0), Number::of_int(100))->magnitude;
    let c2 = high@.clamp(Number::of_int(0), Number::of_int(100))->magnitude;
    assert(c1 <= c2);
    let q1 = nearest_single(c1 / 100real);
    let q2 = nearest_single(c2 / 100real);
    lemma_nearest_monotone(24, -149, c1 / 100real, c2 / 100real);
    assert(q1 * full <= q2 * full) by (nonlinear_arith)
        requires
            q1 <= q2,
            0real <= full,
    ;
    lemma_nearest_monotone(24, -149, q1 * full, q2 * full);
    if c2 == 0real {
        lemma_nearest_zero();
        assert(0real * full == 0real);
    }
}

proof fn lemma_nearest_zero()
    ensures
        nearest_single(0real) == 0real,
        nearest_single(1real) == 1real,
{
    lemma_exp2_values();
    lemma_nearest_exact(24, -149, 0, 0);
    lemma_nearest_exact(24, -149, 1, 0);
    assert((0int as real) * exp2(0) == 0real);
    assert((1int as real) * exp2(0) == 1real);
}

/// Nothing is raw zero, and everything is the full brightness, for every full
/// brightness that single precision keeps.
pub proof fn law_raw_ends(max: u32)
    requires
        Number::of_int(max as int).to_u32() == max,
    ensures
        raw_of(Number::of_int(0), max) == 0,
        raw_of(Number::of_int(100), max) == max,
{
    lemma_small_int(0);
    lemma_small_int(100);
    lemma_u32_range(max);
    lemma_scaled(Number::of_int(0), max);
    lemma_scaled(Number::of_int(100), max);
    lemma_nearest_zero();
    lemma_rounding_is_stable(max as int as real);
    let full = Number::of_int(max as int).value();
    assert(0real * full == 0real);
    assert(1real * full == full);
    assert(0real / 100real == 0real);
    assert(100real / 100real == 1real);
}

/// The percentage of a raw value is between 0 and 100.
pub proof fn law_pct_within_range(raw: u32, max: u32)
    requires
        raw <= max,
        0 < max,
    ensures
        Number::of_int(0).le(pct_of(raw, max)),
        pct_of(raw, max).le(Number::of_int(100)),
{
    lemma_small_int(0);
    lemma_small_int(1);
    lemma_small_int(100);
    lemma_u32_range(raw);
    lemma_u32_range(max);
    lemma_exp2_values();
    lemma_exp2_monotone(32, 128);
    lemma_exp2_step(32);
    lemma_exp2_monotone(33, 128);
    let r = Number::of_int(raw as int)->magnitude;
    let m = Number::of_int(max as int)->magnitude;
    lemma_nearest_monotone(24, -149, raw as int as real, max as int as real);
    lemma_nearest_monotone(24, -149, 1real, max as int as real);
    assert(0real <= r / m <= 1real) by (nonlinear_arith)
        requires
            0real <= r <= m,
            m >= 1real,
    ;
    lemma_nearest_monotone(24, -149, 0real, r / m);
    lemma_nearest_monotone(24, -149, r / m, 1real);
    let q = nearest_single(r / m);
    assert(0real <= q * 100real <= 100real);
    lemma_nearest_monotone(24, -149, 0real, q * 100real);
    lemma_nearest_monotone(24, -149, q * 100real, 100real);
}

/// The magnitudes that a percentage goes through, and how far rounding moves
/// numbers of them.
proof fn lemma_bounds()
    ensures
        exp2(1) == 2real,
        exp2(7) == 128real,
        exp2(17) == 131072real,
        exp2(-8) * 256real == 1real,
        exp2(-18) * 262144real == 1real,
        exp2(-24) * 16777216real == 1real,
{
    reveal_with_fuel(exp2, 9);
    lemma_exp2_values();
    lemma_exp2_sum(10, 7);
    lemma_exp2_sum(10, 8);
    lemma_exp2_inverse(8);
    lemma_exp2_inverse(18);
    lemma_exp2_inverse(24);
}

/// Converting a raw value to a percentage and back loses nothing, for every
/// full brightness of up to 16 bits.
pub proof fn law_raw_survives_percent(raw: u32, max: u32)
    requires
        0 < max <= 65535,
        raw <= max,
    ensures
        raw_of(pct_of(raw, max), max) == raw,
{
    lemma_small_int(0);
    lemma_small_int(100);
    lemma_small_int(raw as int);
    lemma_small_int(max as int);
    lemma_bounds();
    lemma_exp2_values();
    lemma_exp2_monotone(24, 128);
    let r = raw as int as real;
    let m = max as int as real;
    let x1 = r / m;
    assert(0real <= x1 <= 1real && x1 * m == r) by (nonlinear_arith)
        requires
            0real <= r <= m,
            0real < m,
            x1 == r / m,
    ;
    let q1 = nearest_single(x1);
    lemma_nearest_error(24, -149, x1, -23);
    lemma_nearest_monotone(24, -149, 0real, x1);
    lemma_nearest_monotone(24, -149, x1, 1real);
    lemma_nearest_zero();
    let x2 = q1 * 100real;
    let pct = nearest_single(x2);
    lemma_nearest_error(24, -149, x2, -17);
    lemma_nearest_monotone(24, -149, 0real, x2);
    assert(pct_of(raw, max) == (Number::Finite { negative: false, magnitude: pct }));
    let c = if pct > 100real {
        100real
    } else {
        pct
    };
    let x3 = c / 100real;
    let q2 = nearest_single(x3);
    lemma_nearest_error(24, -149, x3, -23);
    lemma_nearest_monotone(24, -149, 0real, x3);
    let x4 = q2 * m;
    let y = nearest_single(x4);
    assert(0real <= x4 < exp2(17)) by (nonlinear_arith)
        requires
            0real <= q2 <= 3real / 2real,
            0real < m <= 65535real,
            x4 == q2 * m,
            exp2(17) == 131072real,
    ;
    lemma_nearest_error(24, -149, x4, -7);
    lemma_nearest_monotone(24, -149, 0real, x4);
    let d = q2 - x1;
    assert(-1real / 1000000real <= d <= 1real / 1000000real);
    assert(-1real / 10real <= x4 - r <= 1real / 10real) by (nonlinear_arith)
        requires
            -1real / 1000000real <= d <= 1real / 1000000real,
            x4 == q2 * m,
            d == q2 - x1,
            x1 * m == r,
            0real < m <= 65535real,
    ;
    assert((y + 1real / 2real).floor() == raw);
}

/// An integer in single precision is off by its `2^24`-th part at most.
proof fn lemma_integer(i: u32)
    ensures
        ({
            let x = i as int as real;
            let n = Number::of_int(i as int);
            &&& n is Finite
            &&& n.proper()
            &&& !n->Finite_negative
            &&& -(x * exp2(-24)) <= n.value() - x <= x * exp2(-24)
            &&& 0 < i ==> n.value() >= 1real
        }),
{
    let x = i as int as real;
    lemma_u32_range(i);
    lemma_exp2_values();
    lemma_exp2_step(-24);
    if i == 0 {
        lemma_small_int(0);
        assert(0real * exp2(-24) == 0real);
    } else {
        lemma_exp2_monotone(-126, 0);
        lemma_nearest_relative(24, -149, x);
        lemma_nearest_monotone(24, -149, 1real, x);
        lemma_nearest_zero();
    }
}

/// The brightness in percent is 100 times the raw value over the full
/// brightness, in real numbers up to rounding: at most a millionth part.
pub proof fn law_percent_of_full_brightness(raw: u32, max: u32)
    requires
        0 < max,
    ensures
        ({
            let pct = pct_of(raw, max);
            let exact = 100real * (raw as int as real);
            let m = max as int as real;
            let slack = exact * exp2(-20) + m * exp2(-139);
            &&& pct is Finite
            &&& exact - slack <= pct.value() * m <= exact + slack
        }),
{
    lemma_powers();
    lemma_small_int(100);
    lemma_integer(raw);
    lemma_integer(max);
    lemma_u32_range(raw);
    lemma_exp2_values();
    lemma_exp2_step(-21);
    lemma_exp2_step(-140);
    lemma_exp2_monotone(32, 126);
    lemma_exp2_monotone(120, 126);
    let t = exp2(-24);
    let z = exp2(-150);
    let x = raw as int as real;
    let m = max as int as real;
    let q1 = Number::of_int(raw as int).value();
    let a = Number::of_int(max as int).value();
    let r = q1 / a;
    assert(0real <= r <= q1 && r * a == q1) by (nonlinear_arith)
        requires
            0real <= q1,
            1real <= a,
            r == q1 / a,
    ;
    lemma_rounding(r, r);
    lemma_nearest_odd(24, -149, r);
    let q2 = nearest_single(r);
    assert(q2 <= 2real * r + 1real && r * t <= r) by (nonlinear_arith)
        requires
            q2 - r <= r * t + z,
            t * 16777216real == 1real,
            z * 16777216real <= 1real,
            0real <= r,
    ;
    lemma_exp2_monotone(126, 128);
    assert(Number::of_int(raw as int).over(Number::of_int(max as int)) == (Number::Finite {
        negative: false,
        magnitude: q2,
    }));
    lemma_rounding(q2 * 100real, q2 * 100real);
    lemma_nearest_odd(24, -149, q2 * 100real);
    let q3 = nearest_single(q2 * 100real);
    assert(q3 < exp2(128)) by {
        assert(q2 * 100real * t <= q2 * 100real) by (nonlinear_arith)
            requires
                0real <= q2,
                t * 16777216real == 1real,
        ;
    }
    lemma_percentage(x, a, q1, q2, q3);
    let e = 100real * x * exp2(-21);
    assert(0real <= e && e * 2097152real == 100real * x) by (nonlinear_arith)
        requires
            e == 100real * x * exp2(-21),
            exp2(-21) == 8real * t,
            t * 16777216real == 1real,
            0real <= x,
    ;
    let w = m * exp2(-140);
    let wa = a * exp2(-140);
    assert(0real < w && wa <= w + w / 16777216real) by (nonlinear_arith)
        requires
            w == m * exp2(-140),
            wa == a * exp2(-140),
            a <= m + m * t,
            t * 16777216real == 1real,
            exp2(-140) == 1024real * z,
            0real < z,
            1real <= m,
    ;
    let d = q3 * m - q3 * a;
    assert(-(q3 * a * t * 2real) <= d <= q3 * a * t * 2real) by (nonlinear_arith)
        requires
            d == q3 * m - q3 * a,
            -(m * t) <= a - m <= m * t,
            t * 16777216real == 1real,
            0real <= q3,
            1real <= m,
            1real <= a,
    ;
    assert(q3 * a * t * 2real <= e / 2real + w / 4real) by (nonlinear_arith)
        requires
            q3 * a <= 100real * x + e + wa,
            wa <= w + w / 16777216real,
            t * 16777216real == 1real,
            e * 2097152real == 100real * x,
            0real <= e,
            0real < w,
    ;
    assert(100real * x * exp2(-20) == 2real * e) by (nonlinear_arith)
        requires
            e == 100real * x * exp2(-21),
            exp2(-20) == exp2(-21) * 2real,
    ;
    assert(m * exp2(-139) == 2real * w) by (nonlinear_arith)
        requires
            w == m * exp2(-140),
            exp2(-139) == exp2(-140) * 2real,
    ;
    assert(q3 * m == q3 * a + d);
    assert(pct_of(raw, max) == (Number::Finite { negative: false, magnitude: q3 }));
}

/// The raw value of a percentage, limited to the range from 0 to 100, is the
/// integer nearest to that percentage of the full brightness, in real numbers up
/// to rounding.
pub proof fn law_raw_is_nearest(pct: Single, max: u32)
    requires
        pct@ is Finite,
    ensures
        ({
            let p = pct@.value();
            let m = max as int as real;
            let exact = (if p < 0real {
                0real
            } else if p > 100real {
                100real
            } else {
                p
            }) / 100real * m;
            let slack = 1real / 2real + m * exp2(-22) + exp2(-149);
            exact - slack <= raw_of(pct@, max) as real <= exact + slack
        }),
{
    lemma_powers();
    lemma_small_int(0);
    lemma_small_int(100);
    lemma_single_proper(pct);
    lemma_scaled(pct@, max);
    lemma_integer(max);
    lemma_u32_range(max);
    lemma_bounds();
    lemma_exp2_values();
    lemma_exp2_step(-24);
    lemma_exp2_step(-23);
    lemma_exp2_step(-150);
    lemma_nearest_zero();
    let t = exp2(-24);
    let z = exp2(-150);
    let m = max as int as real;
    let full = Number::of_int(max as int).value();
    let c = pct@.clamp(Number::of_int(0), Number::of_int(100))->magnitude;
    let x = c / 100real;
    let q = nearest_single(x);
    lemma_nearest_error(24, -149, x, -23);
    lemma_nearest_monotone(24, -149, 0real, x);
    lemma_nearest_monotone(24, -149, x, 1real);
    let y = nearest_single(q * full);
    assert(0real <= q * full <= full) by (nonlinear_arith)
        requires
            0real <= q <= 1real,
            0real <= full,
    ;
    lemma_rounding(q * full, full);
    lemma_nearest_monotone(24, -149, 0real, q * full);
    let e = m * t;
    assert(0real <= e && e * 16777216real == m && full * t <= e + e) by (nonlinear_arith)
        requires
            e == m * t,
            t * 16777216real == 1real,
            0real <= m,
            full <= m + e,
    ;
    assert(-(2real * e) <= q * full - x * m <= 2real * e) by (nonlinear_arith)
        requires
            -t <= q - x <= t,
            -e <= full - m <= e,
            e == m * t,
            0real <= q <= 1real,
            0real <= m,
    ;
    assert(m * exp2(-22) == 4real * e) by (nonlinear_arith)
        requires
            exp2(-22) == 4real * t,
            e == m * t,
    ;
    assert(-(4real * e + z) <= y - x * m <= 4real * e + z);
    assert(x * m <= m) by (nonlinear_arith)
        requires
            0real <= x <= 1real,
            0real <= m,
    ;
    let p = pct@.value();
    let limited = if p < 0real {
        0real
    } else if p > 100real {
        100real
    } else {
        p
    };
    assert(c == limited);
    let raw = raw_of(pct@, max);
    assert(raw == scaled(pct@, max).to_u32());
    if scaled(pct@, max)->Finite_negative {
        assert(x == 0real);
        assert(x * m == 0real) by (nonlinear_arith)
            requires
                x == 0real,
        ;
        assert(raw == 0);
    } else {
        let i = (y + 1real / 2real).floor();
        assert(i as real <= y + 1real / 2real < i as real + 1real);
        assert(raw == i || (raw == u32::MAX && i > u32::MAX));
    }
}

/// What is written for a raw value is that value, or the full brightness if the
/// value is beyond it; and before anything was written, no reading counts as
/// changed by others.
pub proof fn law_written_value_is_limited(backlight: Backlight, value: u32, current: u32)
    ensures
        value <= backlight.max ==> backlight.limited(value) == value,
        value > backlight.max ==> backlight.limited(value) == backlight.max,
        backlight.last_written is None ==> !backlight.changed_by_others(current),
{
}

/// A device can be used if and only if it is in a known class, exists, has a
/// full brightness that is a number other than zero, and can be written; its
/// full brightness is then that number.
pub proof fn law_usable_devices(channel: Channel, probe: DeviceProbe)
    ensures
        (opened(channel, probe) is Ok) <==> {
            &&& channel.class@ == "backlight"@ || channel.class@ == "leds"@
            &&& probe.exists
            &&& probe.max_text matches Ok(content) && (text::unsigned_value(
                text::trimmed(content@),
            ) matches Some(max) && max > 0)
            &&& probe.writable is Ok
        },
        opened(channel, probe) matches Ok(max) ==> probe.max_text matches Ok(content)
            && text::unsigned_value(text::trimmed(content@)) == Some(max),
{
    text::law_numbers_are_not_negative(text::trimmed(probe.max_text->Ok_0@));
}

/// A device's directory is the one of that name in the directory of its class.
pub proof fn law_device_directory(channel: Channel)
    requires
        channel.device@.len() > 0,
        channel.device@[0] != '/',
    ensures
        channel.class@ == "backlight"@ ==> dir_of(channel) == Some(
            "/sys/class/backlight/"@ + channel.device@,
        ),
        channel.class@ == "leds"@ ==> dir_of(channel) == Some(
            "/sys/class/leds/"@ + channel.device@,
        ),
{
    reveal_strlit("/sys/class/backlight");
    reveal_strlit("/sys/class/backlight/");
    reveal_strlit("/sys/class/leds");
    reveal_strlit("/sys/class/leds/");
    reveal_strlit("backlight");
    reveal_strlit("leds");
    reveal_strlit("/");
    assert("/sys/class/backlight"@ + "/"@ =~= "/sys/class/backlight/"@);
    assert("/sys/class/leds"@ + "/"@ =~= "/sys/class/leds/"@);
    assert("backlight"@.len() != "leds"@.len());
    if channel.class@ == "backlight"@ {
        assert(dir_of(channel)->0 =~= "/sys/class/backlight/"@ + channel.device@);
    }
    if channel.class@ == "leds"@ {
        assert(dir_of(channel)->0 =~= "/sys/class/leds/"@ + channel.device@);
    }
}

/// A device's file holds a raw value if it can be read and is a number, white
/// space around it aside.
pub proof fn law_raw_values_are_read(content: Seq<char>)
    ensures
        raw_in(None) == Err::<int, ReadError>(ReadError::Unreadable),
        text::unsigned_value(text::trimmed(content)) matches Some(raw) ==> raw_in(Some(content))
            == Ok::<int, ReadError>(raw),
        text::unsigned_value(text::trimmed(content)) is None ==> raw_in(Some(content)) == Err::<
            int,
            ReadError,
        >(ReadError::NotANumber),
{
}

/// The steps of a transition take its duration together, to the nanosecond each.
pub proof fn law_steps_take_the_duration(duration_nanos: int, steps: int)
    requires
        0 < steps,
    ensures
        step_nanos(duration_nanos, steps) * steps <= duration_nanos < (step_nanos(
            duration_nanos,
            steps,
        ) + 1) * steps,
        step_nanos(duration_nanos, 0) == 10_000_000,
{
    let pause = duration_nanos / steps;
    assert(pause * steps <= duration_nanos < (pause + 1) * steps) by (nonlinear_arith)
        requires
            pause == duration_nanos / steps,
            steps > 0,
    ;
}

/// Of several things that are wrong with a device the first is told: its class,
/// its directory, its full brightness, and last that it cannot be written.
pub proof fn law_first_obstacle_is_told(channel: Channel, probe: DeviceProbe)
    ensures
        channel.class@ != "backlight"@ && channel.class@ != "leds"@ ==> opened(channel, probe)
            == Err::<int, OpenFault>(OpenFault::UnknownClass { class: channel.class@ }),
        dir_of(channel) matches Some(dir) ==> {
            &&& !probe.exists ==> opened(channel, probe) == Err::<int, OpenFault>(
                OpenFault::NoDevice { dir },
            )
            &&& probe.max_text matches Err(cause) ==> probe.exists ==> opened(channel, probe)
                == Err::<int, OpenFault>(
                OpenFault::MaxUnreadable { device: channel.device@, cause: cause@ },
            )
            &&& probe.max_text matches Ok(content) ==> probe.exists ==> {
                let max = text::unsigned_value(text::trimmed(content@));
                &&& max is None ==> {
                    &&& opened(channel, probe) matches Err(OpenFault::MaxNotANumber { fault })
                    &&& text::number_fault(text::trimmed(content@)) == Some(fault)
                }
                &&& max == Some(0int) ==> opened(channel, probe) == Err::<int, OpenFault>(
                    OpenFault::MaxZero { device: channel.device@ },
                )
                &&& probe.writable matches Err(cause) ==> max is Some && max != Some(0int)
                    ==> opened(channel, probe) == Err::<int, OpenFault>(
                    OpenFault::NotWritable { dir, cause: cause@ },
                )
            }
        },
{
    if probe.max_text is Ok {
        text::law_what_keeps_a_text_from_being_a_number(text::trimmed(probe.max_text->Ok_0@));
    }
}

/// What is reported about a device names the class, the device, the directory
/// or the file that it is about.
pub proof fn law_messages_name_the_culprit(name: Seq<char>, cause: Seq<char>)
    ensures
        open_message(OpenFault::UnknownClass { class: name }) == "unknown sysfs class: "@ + name,
        open_message(OpenFault::NoDevice { dir: name }) == "device path does not exist: "@ + name,
        open_message(OpenFault::MaxUnreadable { device: name, cause })
            == "reading max_brightness for "@ + name,
        open_message(OpenFault::MaxZero { device: name }) == "max_brightness is zero for "@ + name,
        open_message(OpenFault::NotWritable { dir: name, cause }) == text::joined(
            name,
            "brightness"@,
        ) + " not writable ("@ + cause
            + "). Install the udev rule and ensure your user is in 'video'."@,
{
}

}
