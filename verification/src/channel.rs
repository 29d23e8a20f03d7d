//! Automatic control of one backlight: its target, its transitions, and how it
//! yields to changes made by hand.
//!
//! Times are nanoseconds on a monotonic clock.

use crate::config::Channel;
use crate::curve::{curve_target, cut_off, law_floor, target_pct};
use crate::output::{
    lemma_raw_fits, lemma_u32_range, opened, pct_of, pct_to_raw, raw_of, Backlight, ChannelKind,
    DeviceProbe, OpenError, OpenFault, ReadError, WriteError,
};
use crate::ramp::{law_ramp_ends_at_target, ramp, ramp_values};
use crate::rounding::{
    exp2, lemma_exp2_monotone, lemma_exp2_step, lemma_exp2_values, lemma_nearest_odd,
    nearest_single,
};
use crate::single::{
    abs_real, law_limits, lemma_difference, lemma_finite_bound, lemma_minus_value,
    lemma_percentage, lemma_plus_value, lemma_powers, lemma_rounding, lemma_single_proper,
    lemma_small_int, Number, Single,
};
use crate::text;
use std::collections::VecDeque;
use vstd::prelude::*;

verus! {

/// Nanoseconds in a second.
pub const NANOS_PER_SECOND: u128 = 1_000_000_000;

/// Automatic control of a channel is suspended, after a change by hand.
#[derive(Clone, Copy, Debug)]
pub struct ChannelOverride {
    /// When control resumes at the latest.
    pub until: u128,
    /// The light when control was suspended.
    pub lux_anchor: Single,
}

/// A suspension of automatic control.
pub struct Suspension {
    pub until: int,
    pub anchor: Number,
}

impl View for ChannelOverride {
    type V = Suspension;

    open spec fn view(&self) -> Suspension {
        Suspension { until: self.until as int, anchor: self.lux_anchor@ }
    }
}

/// Whether the light has changed by more than `drift_pct` percent. In the dark
/// there is nothing to relate a change to, so that no change counts.
pub open spec fn drifted(anchor: Number, lux: Number, drift_pct: Number) -> bool {
    &&& Number::of_int(0).lt(anchor)
    &&& drift_pct.lt(lux.minus(anchor).absolute().over(anchor).times(Number::of_int(100)))
}

/// Whether a suspension is over.
pub open spec fn expired(s: Suspension, lux: Number, drift_pct: Number, now: int) -> bool {
    now >= s.until || drifted(s.anchor, lux, drift_pct)
}

/// An optional override as a suspension.
pub open spec fn suspension_of(slot: Option<ChannelOverride>) -> Option<Suspension> {
    match slot {
        Some(over) => Some(over@),
        None => None,
    }
}

/// Ends an override that is over, and tells whether it did.
pub fn expire_override(
    slot: &mut Option<ChannelOverride>,
    lux: Single,
    drift_pct: Single,
    now: u64,
) -> (ended: bool)
    ensures
        ended == (*old(slot) matches Some(over) && expired(over@, lux@, drift_pct@, now as int)),
        *final(slot) == (if ended {
            None
        } else {
            *old(slot)
        }),
{
    let over = match *slot {
        Some(over) => over,
        None => return false,
    };
    let drifted = Single::from_u32(0).lt(over.lux_anchor) && drift_pct.lt(
        lux.minus(over.lux_anchor).absolute().over(over.lux_anchor).times(Single::from_u32(100)),
    );
    if now as u128 >= over.until || drifted {
        *slot = None;
        true
    } else {
        false
    }
}

/// The target of a channel, in percent, with the curve shifted by `nudge_pct`
/// unless it gives zero.
pub open spec fn target_of(channel: Channel, lux: Number, nudge_pct: int) -> Number {
    let base = curve_target(channel, lux);
    if base.same(Number::of_int(0)) {
        Number::of_int(0)
    } else {
        base.plus(Number::of_int(nudge_pct)).clamp(channel.min_pct@, Number::of_int(100))
    }
}

/// Whether a channel has a target: there must be a curve to follow, and the
/// floor must not be above 100 percent where it counts.
pub open spec fn has_target(channel: Channel, lux: Number) -> bool {
    &&& cut_off(channel, lux) || channel.curve@.len() > 0
    &&& curve_target(channel, lux).same(Number::of_int(0)) || channel.min_pct@.le(
        Number::of_int(100),
    )
}

/// Whether `compute_target` can be called.
pub fn target_exists(channel: &Channel, lux: Single) -> (b: bool)
    ensures
        b == has_target(*channel, lux@),
{
    let cut = match channel.cutoff_lux {
        Some(cutoff) => cutoff.le(lux),
        None => false,
    };
    (cut || channel.curve.len() > 0) && (target_pct(channel, lux).same(Single::from_u32(0))
        || channel.min_pct.le(Single::from_u32(100)))
}

/// The target of a channel for some light.
pub fn compute_target(channel: &Channel, lux: Single, nudge_pct: i32) -> (target: Single)
    requires
        has_target(*channel, lux@),
    ensures
        target@ == target_of(*channel, lux@, nudge_pct as int),
{
    let base = target_pct(channel, lux);
    let zero = Single::from_u32(0);
    if base.same(zero) {
        return zero;
    }
    base.plus(Single::from_i32(nudge_pct)).clamp(channel.min_pct, Single::from_u32(100))
}

/// What the curve gives for some light, if there is a curve to follow.
pub open spec fn curve_anchor(channel: Channel, lux: Number) -> Option<Number> {
    if cut_off(channel, lux) || channel.curve@.len() > 0 {
        Some(curve_target(channel, lux))
    } else {
        None
    }
}

/// What the curve gives for some light, if there is a curve to follow.
pub fn anchor_pct(channel: &Channel, lux: Single) -> (pct: Option<Single>)
    ensures
        number_of(pct) == curve_anchor(*channel, lux@),
{
    let cut = match channel.cutoff_lux {
        Some(cutoff) => cutoff.le(lux),
        None => false,
    };
    if cut || channel.curve.len() > 0 {
        Some(target_pct(channel, lux))
    } else {
        None
    }
}

/// Whether the light has changed so much that the curve leads elsewhere than to
/// an earlier percentage, and by the hysteresis at least.
pub open spec fn moved(anchor: Option<Number>, channel: Channel, lux: Number) -> bool {
    &&& anchor matches Some(anchor)
    &&& !anchor.same(curve_target(channel, lux))
    &&& channel.hysteresis_pct@.le(anchor.minus(curve_target(channel, lux)).absolute())
}

/// What a shift of the target is anchored on after a pass in which it did not
/// end: what the curve gave when it was asked for, or else what it gives now.
pub open spec fn anchored(
    anchor: Option<Number>,
    nudge_pct: int,
    channel: Channel,
    lux: Number,
) -> Option<Number> {
    if anchor is None && nudge_pct != 0 {
        curve_anchor(channel, lux)
    } else {
        anchor
    }
}

/// Whether the curve leads elsewhere than to an earlier percentage.
pub fn light_moved(anchor: Option<Single>, channel: &Channel, lux: Single) -> (b: bool)
    requires
        cut_off(*channel, lux@) || channel.curve@.len() > 0,
    ensures
        b == moved(number_of(anchor), *channel, lux@),
{
    match anchor {
        Some(anchor) => {
            let pct = target_pct(channel, lux);
            !anchor.same(pct) && channel.hysteresis_pct.le(anchor.minus(pct).absolute())
        },
        None => false,
    }
}

/// Whether a target differs from the one before by enough to act upon.
pub open spec fn differs(previous: Option<Number>, next: Number, hysteresis: Number) -> bool {
    match previous {
        None => true,
        Some(previous) => hysteresis.le(previous.minus(next).absolute()),
    }
}

/// An optional number.
pub open spec fn number_of(s: Option<Single>) -> Option<Number> {
    match s {
        Some(s) => Some(s@),
        None => None,
    }
}

/// Whether a target differs from the one before by at least `hysteresis`.
pub fn target_changed(previous: Option<Single>, next: Single, hysteresis: Single) -> (b: bool)
    ensures
        b == differs(number_of(previous), next@, hysteresis@),
{
    match previous {
        None => true,
        Some(previous) => hysteresis.le(previous.minus(next).absolute()),
    }
}

/// What a device's file held, each time that one pass over a channel reads it.
#[derive(Clone, Copy, Debug)]
pub struct ChannelReads {
    /// Right after the end of a pause.
    pub after_pause: Result<u32, ReadError>,
    /// Right after the end of an override.
    pub after_override: Result<u32, ReadError>,
    /// When looking for changes by others.
    pub external: Result<u32, ReadError>,
    /// When starting a transition.
    pub ramp_from: Result<u32, ReadError>,
}

/// What one pass over the channels goes by.
#[derive(Clone, Copy, Debug)]
pub struct Pass {
    pub now: u64,
    pub lux: Single,
    pub drift_pct: Single,
    pub timeout_s: u64,
    pub steps: u32,
    /// Start a transition even to a target that has hardly changed.
    pub force: bool,
    /// A pause has just ended.
    pub resumed: bool,
}

/// What a pass goes by, as numbers.
pub struct PassModel {
    pub now: int,
    pub lux: Number,
    pub drift_pct: Number,
    pub timeout_s: int,
    pub steps: u32,
    pub force: bool,
    pub resumed: bool,
}

impl View for Pass {
    type V = PassModel;

    open spec fn view(&self) -> PassModel {
        PassModel {
            now: self.now as int,
            lux: self.lux@,
            drift_pct: self.drift_pct@,
            timeout_s: self.timeout_s as int,
            steps: self.steps,
            force: self.force,
            resumed: self.resumed,
        }
    }
}

/// A device, if there is one, whose value is taken for our own if it could be
/// read.
pub open spec fn adopted(backlight: Option<Backlight>, reading: Result<u32, ReadError>) -> Option<
    Backlight,
> {
    match (backlight, reading) {
        (Some(backlight), Ok(raw)) => Some(Backlight { last_written: Some(raw), ..backlight }),
        _ => backlight,
    }
}

/// The state of a channel.
pub struct ChannelModel {
    pub backlight: Option<Backlight>,
    pub last_target: Option<Number>,
    pub suspension: Option<Suspension>,
    pub ramp: Seq<u32>,
}

impl ChannelModel {
    /// The value that the device has is taken for our own, if it could be read.
    pub open spec fn adopting(self, reading: Result<u32, ReadError>) -> ChannelModel {
        ChannelModel { backlight: adopted(self.backlight, reading), ..self }
    }

    /// The target is forgotten, so that the next one is acted upon.
    pub open spec fn forgetting(self) -> ChannelModel {
        ChannelModel { last_target: None, ..self }
    }

    /// Nothing is left to write of a transition.
    pub open spec fn quiet(self) -> ChannelModel {
        ChannelModel { ramp: Seq::empty(), ..self }
    }

    /// Whether a reading shows a change by others.
    pub open spec fn shows_change(self, reading: Result<u32, ReadError>) -> bool {
        &&& self.backlight matches Some(backlight)
        &&& reading matches Ok(current)
        &&& backlight.changed_by_others(current)
    }

    /// Whether a suspension ends in a pass.
    pub open spec fn expires(self, pass: PassModel) -> bool {
        self.suspension matches Some(s) && expired(
            s,
            pass.lux,
            pass.drift_pct,
            pass.now,
        )
    }

    /// After the end of a pause, if one has ended.
    pub open spec fn unpaused(self, pass: PassModel, reads: ChannelReads) -> ChannelModel {
        if pass.resumed {
            self.adopting(reads.after_pause).forgetting()
        } else {
            self
        }
    }

    /// After the end of a suspension, if it has ended.
    pub open spec fn released(
        self,
        pass: PassModel,
        reading: Result<u32, ReadError>,
    ) -> ChannelModel {
        if self.expires(pass) {
            ChannelModel { suspension: None, ..self.adopting(reading).forgetting() }
        } else {
            self
        }
    }

    /// Suspended, if there is a change by others. What is left of a transition is
    /// then not written.
    pub open spec fn yielding(
        self,
        pass: PassModel,
        reading: Result<u32, ReadError>,
    ) -> ChannelModel {
        if self.suspension is None && self.shows_change(reading) {
            ChannelModel {
                suspension: Some(
                    Suspension {
                        until: pass.now + pass.timeout_s * NANOS_PER_SECOND,
                        anchor: pass.lux,
                    },
                ),
                ..self.quiet()
            }
        } else {
            self
        }
    }

    /// Everything of a pass but a new target.
    pub open spec fn settled(self, pass: PassModel, reads: ChannelReads) -> ChannelModel {
        self.unpaused(pass, reads).released(pass, reads.after_override).yielding(
            pass,
            reads.external,
        )
    }

    /// Whether a pass can be made: the channel is off or suspended by then, or
    /// has a target.
    pub open spec fn passable(
        self,
        channel: Channel,
        pass: PassModel,
        reads: ChannelReads,
    ) -> bool {
        channel.enabled && self.settled(pass, reads).suspension is None ==> has_target(
            channel,
            pass.lux,
        )
    }

    /// Whether a pass acts upon its target however little that has changed.
    pub open spec fn forced(self, pass: PassModel) -> bool {
        pass.force || self.expires(pass)
    }

    /// A transition is started to a target: the new state, and whether there
    /// is anything to write.
    pub open spec fn starting(
        self,
        target: Number,
        steps: u32,
        reading: Result<u32, ReadError>,
    ) -> (ChannelModel, bool) {
        let aimed = ChannelModel { last_target: Some(target), ..self };
        match self.backlight {
            None => (aimed, false),
            Some(backlight) => {
                let from = match reading {
                    Ok(raw) => raw,
                    Err(_) => 0,
                };
                let to = raw_of(target, backlight.max) as u32;
                if from == to {
                    (aimed.quiet(), false)
                } else {
                    (ChannelModel { ramp: ramp_values(from, to, steps), ..aimed }, true)
                }
            },
        }
    }

    /// The next value of a transition is taken: the new state, and what to
    /// write. A suspended channel drops its transition.
    pub open spec fn stepped(self) -> (ChannelModel, Option<u32>) {
        if self.ramp.len() == 0 || self.suspension is Some {
            (self.quiet(), None)
        } else {
            (
                ChannelModel { ramp: self.ramp.skip(1), ..self },
                match self.backlight {
                    Some(backlight) => Some(backlight.limited(self.ramp[0])),
                    None => None,
                },
            )
        }
    }

    /// After a value was written to the device, or could not be.
    pub open spec fn recorded(self, value: u32, written: bool) -> ChannelModel {
        ChannelModel {
            backlight: match self.backlight {
                Some(backlight) => Some(
                    Backlight {
                        last_written: if written {
                            Some(backlight.limited(value))
                        } else {
                            backlight.last_written
                        },
                        ..backlight
                    },
                ),
                None => None,
            },
            ..self
        }
    }

    /// A new target is acted upon, unless the channel is off or suspended or
    /// its target has hardly changed.
    pub open spec fn aimed(
        self,
        channel: Channel,
        pass: PassModel,
        nudge_pct: int,
        forced: bool,
        reading: Result<u32, ReadError>,
    ) -> (ChannelModel, bool) {
        let target = target_of(channel, pass.lux, nudge_pct);
        if self.suspension is None && channel.enabled && (forced || differs(
            self.last_target,
            target,
            channel.hysteresis_pct@,
        )) {
            self.starting(target, pass.steps, reading)
        } else {
            (self, false)
        }
    }

    /// A whole pass: the new state, and whether a transition was started.
    pub open spec fn passed(
        self,
        channel: Channel,
        pass: PassModel,
        nudge_pct: int,
        reads: ChannelReads,
    ) -> (ChannelModel, bool) {
        self.settled(pass, reads).aimed(
            channel,
            pass,
            nudge_pct,
            self.forced(pass),
            reads.ramp_from,
        )
    }
}

/// The state that a channel starts in.
pub open spec fn initial(channel: Channel, probe: DeviceProbe) -> ChannelModel {
    ChannelModel {
        backlight: match opened(channel, probe) {
            Ok(max) => if channel.enabled {
                Some(Backlight { max: max as u32, last_written: None })
            } else {
                None
            },
            Err(_) => None,
        },
        last_target: None,
        suspension: None,
        ramp: Seq::empty(),
    }
}

/// Whether an error tells why the device of a channel in use is not usable.
pub open spec fn explains(
    channel: Channel,
    probe: DeviceProbe,
    error: Option<OpenError>,
) -> bool {
    match error {
        Some(e) => channel.enabled && opened(channel, probe) == Err::<int, OpenFault>(e@),
        None => !channel.enabled || opened(channel, probe) is Ok,
    }
}

/// Values as a queue.
pub fn queue_of(values: &Vec<u32>) -> (queue: VecDeque<u32>)
    ensures
        queue@ == values@,
{
    let mut queue: VecDeque<u32> = VecDeque::new();
    let mut i: usize = 0;
    while i < values.len()
        invariant
            i <= values@.len(),
            queue@ == values@.take(i as int),
        decreases values@.len() - i,
    {
        queue.push_back(values[i]);
        i = i + 1;
    }
    assert(values@.take(i as int) == values@);
    queue
}

/// One backlight under automatic control.
#[derive(Debug)]
pub struct ChannelState {
    pub cfg: Channel,
    /// The device, unless it is switched off or not usable.
    pub backlight: Option<Backlight>,
    /// The last target that was acted upon.
    pub last_target: Option<Single>,
    pub override_state: Option<ChannelOverride>,
    /// What is still to be written of a transition.
    pub ramp: VecDeque<u32>,
}

impl View for ChannelState {
    type V = ChannelModel;

    open spec fn view(&self) -> ChannelModel {
        ChannelModel {
            backlight: self.backlight,
            last_target: number_of(self.last_target),
            suspension: suspension_of(self.override_state),
            ramp: self.ramp@,
        }
    }
}

impl ChannelState {
    /// The initial state of a channel, and why its device is not usable.
    pub fn open(kind: ChannelKind, cfg: Channel, probe: &DeviceProbe) -> (r: (
        ChannelState,
        Option<OpenError>,
    ))
        ensures
            r.0.cfg == cfg,
            r.0@ == initial(cfg, *probe),
            explains(cfg, *probe, r.1),
    {
        let mut backlight: Option<Backlight> = None;
        let mut error: Option<OpenError> = None;
        if cfg.enabled {
            match Backlight::open(kind, &cfg, probe) {
                Ok(b) => {
                    backlight = Some(b);
                },
                Err(e) => {
                    error = Some(e);
                },
            }
        }
        (
            ChannelState {
                cfg,
                backlight,
                last_target: None,
                override_state: None,
                ramp: VecDeque::new(),
            },
            error,
        )
    }

    /// Whether somebody else changed the brightness.
    pub fn detect_external(&self, reading: Result<u32, ReadError>) -> (b: bool)
        ensures
            b == self@.shows_change(reading),
    {
        match &self.backlight {
            Some(backlight) => match backlight.detect_external_change(reading) {
                Ok(changed) => changed,
                Err(_) => false,
            },
            None => false,
        }
    }

    /// Takes the value that the device has for our own, if it could be read.
    pub fn sync_baseline(&mut self, reading: Result<u32, ReadError>)
        ensures
            final(self).cfg == old(self).cfg,
            final(self)@ == old(self)@.adopting(reading),
    {
        if let Some(mut backlight) = self.backlight {
            let _ = backlight.sync_last_written(reading);
            self.backlight = Some(backlight);
        }
    }

    /// The brightness that the device has, in percent, if it can be told.
    pub fn current_pct(&self, reading: Result<u32, ReadError>) -> (pct: Option<Single>)
        ensures
            number_of(pct) == (match (self.backlight, reading) {
                (Some(backlight), Ok(raw)) => Some(pct_of(raw, backlight.max)),
                _ => None,
            }),
    {
        match &self.backlight {
            Some(backlight) => match backlight.current_pct(reading) {
                Ok(pct) => Some(pct),
                Err(_) => None,
            },
            None => None,
        }
    }

    /// Starts a transition from the value that the device has to a target in
    /// percent, and tells whether there is anything to write.
    pub fn start_ramp(
        &mut self,
        target: Single,
        steps: u32,
        reading: Result<u32, ReadError>,
    ) -> (started: bool)
        ensures
            final(self).cfg == old(self).cfg,
            (final(self)@, started) == old(self)@.starting(target@, steps, reading),
    {
        self.last_target = Some(target);
        let max = match &self.backlight {
            Some(backlight) => backlight.max,
            None => return false,
        };
        let from = match reading {
            Ok(raw) => raw,
            Err(_) => 0,
        };
        let to = pct_to_raw(target, max);
        if from == to {
            self.drop_ramp();
            return false;
        }
        self.ramp = queue_of(&ramp(from, to, steps));
        true
    }

    /// Drops what is left to write of a transition.
    pub fn drop_ramp(&mut self)
        ensures
            final(self).cfg == old(self).cfg,
            final(self)@ == old(self)@.quiet(),
    {
        self.ramp = VecDeque::new();
    }

    /// Takes the next value of a transition, and tells what to write. A
    /// suspended channel drops its transition.
    pub fn ramp_step(&mut self) -> (write: Option<u32>)
        ensures
            final(self).cfg == old(self).cfg,
            (final(self)@, write) == old(self)@.stepped(),
    {
        if self.override_state.is_some() {
            self.drop_ramp();
            return None;
        }
        match self.ramp.pop_front() {
            Some(value) => match &self.backlight {
                Some(backlight) => Some(backlight.limit(value)),
                None => None,
            },
            None => {
                assert(self.ramp@ =~= Seq::<u32>::empty());
                None
            },
        }
    }

    /// Records the outcome of writing what `ramp_step` said.
    pub fn ramp_written(&mut self, value: u32, written: bool) -> (r: Result<(), WriteError>)
        ensures
            final(self).cfg == old(self).cfg,
            r is Ok == (written || old(self)@.backlight is None),
            final(self)@ == old(self)@.recorded(value, written),
    {
        match self.backlight {
            Some(mut backlight) => {
                let outcome = backlight.write_raw(value, written);
                self.backlight = Some(backlight);
                outcome
            },
            None => Ok(()),
        }
    }

    /// Whether a transition is under way.
    pub fn ramping(&self) -> (b: bool)
        ensures
            b == (self@.ramp.len() > 0),
    {
        self.ramp.len() > 0
    }

    /// Does everything of a pass but acting upon a new target, and tells
    /// whether a suspension has ended.
    pub fn settle(&mut self, pass: &Pass, reads: &ChannelReads) -> (ended: bool)
        ensures
            final(self).cfg == old(self).cfg,
            final(self)@ == old(self)@.settled(pass@, *reads),
            ended == old(self)@.expires(pass@),
    {
        if pass.resumed {
            self.sync_baseline(reads.after_pause);
            self.last_target = None;
        }
        let ended = expire_override(&mut self.override_state, pass.lux, pass.drift_pct, pass.now);
        if ended {
            self.sync_baseline(reads.after_override);
            self.last_target = None;
        }
        if self.override_state.is_none() && self.detect_external(reads.external) {
            self.override_state = Some(
                ChannelOverride {
                    until: pass.now as u128 + pass.timeout_s as u128 * NANOS_PER_SECOND,
                    lux_anchor: pass.lux,
                },
            );
            self.drop_ramp();
        }
        ended
    }

    /// Whether a pass can be made: the channel is off or suspended by then, or
    /// has a target.
    pub fn can_pass(&self, pass: &Pass, reads: &ChannelReads) -> (b: bool)
        ensures
            b == self@.passable(self.cfg, pass@, *reads),
    {
        if !self.cfg.enabled {
            return true;
        }
        let mut backlight = self.backlight;
        if let Some(mut device) = backlight {
            if pass.resumed {
                let _ = device.sync_last_written(reads.after_pause);
            }
            backlight = Some(device);
        }
        let mut slot = self.override_state;
        let ended = expire_override(&mut slot, pass.lux, pass.drift_pct, pass.now);
        if slot.is_some() {
            return true;
        }
        if let Some(mut device) = backlight {
            if ended {
                let _ = device.sync_last_written(reads.after_override);
            }
            if let Ok(true) = device.detect_external_change(reads.external) {
                return true;
            }
        }
        target_exists(&self.cfg, pass.lux)
    }

    /// Acts upon a new target, and tells whether there is anything to write.
    pub fn aim(
        &mut self,
        pass: &Pass,
        nudge_pct: i32,
        forced: bool,
        reading: Result<u32, ReadError>,
    ) -> (started: bool)
        requires
            old(self)@.suspension is None && old(self).cfg.enabled ==> has_target(
                old(self).cfg,
                pass.lux@,
            ),
        ensures
            final(self).cfg == old(self).cfg,
            (final(self)@, started) == old(self)@.aimed(
                old(self).cfg,
                pass@,
                nudge_pct as int,
                forced,
                reading,
            ),
    {
        if self.override_state.is_some() || !self.cfg.enabled {
            return false;
        }
        let target = compute_target(&self.cfg, pass.lux, nudge_pct);
        if forced || target_changed(self.last_target, target, self.cfg.hysteresis_pct) {
            self.start_ramp(target, pass.steps, reading)
        } else {
            false
        }
    }
}

/// Whether two readings are close enough to be of one and the same value.
pub open spec fn agree(first: Result<u32, ReadError>, second: Result<u32, ReadError>) -> bool {
    first matches Ok(a) && second matches Ok(b) && a - 1 <= b <= a + 1
}

impl ChannelModel {
    /// Whether a reading, if there is one, is what was written last, or next to
    /// it, if anything was.
    pub open spec fn undisturbed(self, reading: Result<u32, ReadError>) -> bool {
        self.backlight matches Some(backlight) ==> backlight.last_written matches Some(last)
            ==> reading matches Ok(current) ==> last - 1 <= current <= last + 1
    }

    /// Whether two readings are close enough that the second shows no change
    /// once the first was taken for our own. Without a device it cannot.
    pub open spec fn unchanged(
        self,
        first: Result<u32, ReadError>,
        second: Result<u32, ReadError>,
    ) -> bool {
        self.backlight is None || agree(first, second)
    }
}

/// In the dark a suspension ends by its deadline alone: there is no light that
/// a change could be related to.
pub proof fn law_no_drift_in_the_dark(s: Suspension, lux: Number, drift_pct: Number, now: int)
    requires
        !Number::of_int(0).lt(s.anchor),
    ensures
        expired(s, lux, drift_pct, now) <==> now >= s.until,
{
}

/// A suspended channel is left alone until the suspension ends: its target
/// is not acted upon, and nothing of a transition is written any more. A pass
/// changes nothing of it, but for the end of a pause.
pub proof fn law_suspended_channel_is_left_alone(
    m: ChannelModel,
    channel: Channel,
    pass: PassModel,
    nudge_pct: int,
    reads: ChannelReads,
)
    requires
        m.suspension is Some,
        pass.now < m.suspension->0.until,
        !drifted(m.suspension->0.anchor, pass.lux, pass.drift_pct),
    ensures
        !m.passed(channel, pass, nudge_pct, reads).1,
        m.passed(channel, pass, nudge_pct, reads).0.suspension == m.suspension,
        m.passed(channel, pass, nudge_pct, reads).0.stepped().1 is None,
        m.stepped().1 is None,
        !pass.resumed ==> m.passed(channel, pass, nudge_pct, reads).0 == m,
{
}

/// A suspension that is over, by its deadline or by a change of the light, ends
/// in the next pass: the value set by hand is taken over, so that it does not
/// suspend the channel again, and the target is acted upon however little it
/// has changed.
pub proof fn law_suspension_ends(
    m: ChannelModel,
    channel: Channel,
    pass: PassModel,
    nudge_pct: int,
    reads: ChannelReads,
)
    requires
        m.suspension is Some,
        pass.now >= m.suspension->0.until || drifted(
            m.suspension->0.anchor,
            pass.lux,
            pass.drift_pct,
        ),
        m.unchanged(reads.after_override, reads.external),
    ensures
        m.passed(channel, pass, nudge_pct, reads).0.suspension is None,
        channel.enabled ==> m.passed(channel, pass, nudge_pct, reads).0.last_target == Some(
            target_of(channel, pass.lux, nudge_pct),
        ),
{
}

/// After a pause the value that the device has is taken over, so that it does
/// not suspend the channel, and the target is acted upon however little it has
/// changed.
pub proof fn law_pause_ends(
    m: ChannelModel,
    channel: Channel,
    pass: PassModel,
    nudge_pct: int,
    reads: ChannelReads,
)
    requires
        pass.resumed,
        m.suspension is None,
        m.unchanged(reads.after_pause, reads.external),
    ensures
        m.passed(channel, pass, nudge_pct, reads).0.suspension is None,
        channel.enabled ==> m.passed(channel, pass, nudge_pct, reads).0.last_target == Some(
            target_of(channel, pass.lux, nudge_pct),
        ),
{
}

/// A change by others suspends the channel from the light that there is for the
/// time that is configured. Nothing is written on its account, nor is what was
/// left of a transition.
pub proof fn law_change_by_others_suspends(
    m: ChannelModel,
    channel: Channel,
    pass: PassModel,
    nudge_pct: int,
    reads: ChannelReads,
)
    requires
        m.suspension is None,
        !pass.resumed,
        m.backlight matches Some(backlight) && (backlight.last_written matches Some(last) && (
        reads.external matches Ok(current) && (current > last + 1 || current < last - 1))),
    ensures
        m.passed(channel, pass, nudge_pct, reads) == (
            ChannelModel {
                suspension: Some(
                    Suspension {
                        until: pass.now + pass.timeout_s * NANOS_PER_SECOND,
                        anchor: pass.lux,
                    },
                ),
                ..m.quiet()
            },
            false,
        ),
        m.passed(channel, pass, nudge_pct, reads).0.stepped().1 is None,
{
}

/// What was written last does not suspend the channel when it is read back.
pub proof fn law_own_writes_do_not_suspend(m: ChannelModel, value: u32)
    ensures
        m.backlight matches Some(backlight) ==> !m.recorded(value, true).shows_change(
            Ok(backlight.limited(value)),
        ),
{
}

/// A target closer to the last one than the hysteresis is not acted upon.
pub proof fn law_small_changes_are_ignored(
    m: ChannelModel,
    channel: Channel,
    pass: PassModel,
    nudge_pct: int,
    reads: ChannelReads,
)
    requires
        m.suspension is None,
        m.last_target is Some,
        !pass.force,
        !pass.resumed,
        m.undisturbed(reads.external),
        m.last_target->0.minus(target_of(channel, pass.lux, nudge_pct)).absolute().lt(
            channel.hysteresis_pct@,
        ),
    ensures
        m.passed(channel, pass, nudge_pct, reads) == (m, false),
{
}

/// A target that is forced, or that follows a forgotten one, is acted upon: it
/// becomes the last target, and unless the device has its value already, a
/// transition starts from the value that the device has. Nothing is left of an
/// earlier transition.
pub proof fn law_target_is_asserted(
    m: ChannelModel,
    channel: Channel,
    pass: PassModel,
    nudge_pct: int,
    reads: ChannelReads,
)
    requires
        channel.enabled,
        m.suspension is None,
        !pass.resumed,
        pass.force || m.last_target is None,
        m.undisturbed(reads.external),
    ensures
        ({
            let target = target_of(channel, pass.lux, nudge_pct);
            let (after, started) = m.passed(channel, pass, nudge_pct, reads);
            &&& after.last_target == Some(target)
            &&& m.backlight matches Some(backlight) ==> reads.ramp_from matches Ok(from) ==> {
                let to = raw_of(target, backlight.max) as u32;
                &&& started == (from != to)
                &&& started ==> after.ramp == ramp_values(from, to, pass.steps)
                &&& !started ==> after.ramp.len() == 0
            }
        }),
{
}

/// A channel without a device never has anything to write.
pub proof fn law_nothing_is_written_without_a_device(
    m: ChannelModel,
    channel: Channel,
    pass: PassModel,
    nudge_pct: int,
    reads: ChannelReads,
)
    requires
        m.backlight is None,
    ensures
        !m.passed(channel, pass, nudge_pct, reads).1,
        m.passed(channel, pass, nudge_pct, reads).0.backlight is None,
        m.stepped().1 is None,
{
}

/// A transition that is started ends with the raw value of its target.
pub proof fn law_transition_ends_at_target(
    m: ChannelModel,
    target: Single,
    steps: u32,
    reading: Result<u32, ReadError>,
)
    requires
        m.starting(target@, steps, reading).1,
    ensures
        m.backlight matches Some(backlight) && m.starting(target@, steps, reading).0.ramp.last()
            == raw_of(target@, backlight.max),
        m.starting(target@, steps, reading).0.ramp.len() == (if steps == 0 {
            1
        } else {
            steps as nat
        }),
{
    let max = m.backlight->0.max;
    let from = match reading {
        Ok(raw) => raw,
        Err(_) => 0,
    };
    lemma_raw_fits(target, max);
    law_ramp_ends_at_target(from, raw_of(target@, max) as u32, steps);
}

impl ChannelModel {
    /// The state after so many steps of a transition.
    pub open spec fn stepped_by(self, steps: int) -> ChannelModel {
        ChannelModel { ramp: self.ramp.skip(steps), ..self }
    }
}

/// Step by step the values of a transition are written, each limited to full
/// brightness, and after as many steps as there are values it is over.
pub proof fn law_transition_is_carried_out(m: ChannelModel)
    requires
        m.suspension is None,
    ensures
        m.stepped_by(0) == m,
        forall|k: int|
            0 <= k < m.ramp.len() ==> (#[trigger] m.stepped_by(k)).stepped() == (
                m.stepped_by(k + 1),
                match m.backlight {
                    Some(backlight) => Some(backlight.limited(m.ramp[k])),
                    None => None,
                },
            ),
        m.stepped_by(m.ramp.len() as int).ramp.len() == 0,
{
    assert(m.ramp.skip(0) == m.ramp);
    assert forall|k: int| 0 <= k < m.ramp.len() implies (#[trigger] m.stepped_by(k)).stepped() == (
        m.stepped_by(k + 1),
        match m.backlight {
            Some(backlight) => Some(backlight.limited(m.ramp[k])),
            None => None,
        },
    ) by {
        assert(m.ramp.skip(k).skip(1) == m.ramp.skip(k + 1));
    }
}

/// A target is zero, or lies between the floor and 100 percent, however it is
/// shifted.
pub proof fn law_target_within_range(channel: Channel, lux: Number, nudge_pct: i32)
    requires
        has_target(channel, lux),
    ensures
        target_of(channel, lux, nudge_pct as int) == Number::of_int(0) || {
            &&& channel.min_pct@.le(target_of(channel, lux, nudge_pct as int))
            &&& target_of(channel, lux, nudge_pct as int).le(Number::of_int(100))
        },
{
    lemma_small_int(0);
    lemma_small_int(100);
    lemma_u32_range((if nudge_pct < 0 {
        -nudge_pct
    } else {
        nudge_pct as int
    }) as u32);
}

/// Before the cutoff the target is never below the floor, however it is
/// shifted.
pub proof fn law_target_not_below_floor(channel: Channel, lux: Number, nudge_pct: i32)
    requires
        has_target(channel, lux),
        channel.cutoff_lux matches Some(cutoff) ==> !cutoff@.le(lux),
        !(channel.min_pct@ is Nan),
    ensures
        channel.min_pct@.le(target_of(channel, lux, nudge_pct as int)),
{
    law_floor(channel, lux);
    law_target_within_range(channel, lux, nudge_pct);
    lemma_small_int(0);
}

/// Where the curve gives zero the target is zero: no shift lights the backlight
/// up again.
pub proof fn law_shift_does_not_light_up(channel: Channel, lux: Number, nudge_pct: int)
    requires
        curve_target(channel, lux).same(Number::of_int(0)),
    ensures
        target_of(channel, lux, nudge_pct) == Number::of_int(0),
{
}

/// Before its deadline a suspension that began in some light ends when the light
/// has changed by more than the drift, and not when it has changed by less: the
/// change, in percent of the light that the suspension began in, is compared
/// with the drift in real numbers, up to rounding. At the deadline it ends in any
/// light. The change must not be beyond what single precision holds.
pub proof fn law_drift_ends_a_suspension(
    until: int,
    anchor: Single,
    lux: Single,
    drift_pct: Single,
    now: int,
)
    requires
        anchor@ is Finite,
        0real < anchor@.value(),
        lux@ is Finite,
        drift_pct@ is Finite,
        lux@.minus(anchor@) is Finite,
    ensures
        ({
            let s = Suspension { until, anchor: anchor@ };
            let a = anchor@.value();
            let x = abs_real(lux@.value() - a);
            let limit = drift_pct@.value() * a;
            let slack = 100real * x * exp2(-21) + a * exp2(-140);
            &&& now >= until ==> expired(s, lux@, drift_pct@, now)
            &&& 100real * x > limit + slack ==> expired(s, lux@, drift_pct@, now)
            &&& now < until && 100real * x < limit - slack ==> !expired(s, lux@, drift_pct@, now)
        }),
{
    lemma_small_int(0);
    lemma_small_int(100);
    lemma_single_proper(anchor);
    lemma_single_proper(lux);
    lemma_powers();
    let t = exp2(-24);
    let z = exp2(-150);
    let big = exp2(128);
    let a = anchor@.value();
    let x = abs_real(lux@.value() - a);
    let d = drift_pct@.value();
    lemma_finite_bound(drift_pct);
    let n1 = lux@.minus(anchor@).absolute();
    let q1 = nearest_single(x);
    if lux@.value() >= a {
        lemma_difference(lux, anchor);
    } else {
        lemma_difference(anchor, lux);
    }
    lemma_nearest_odd(24, -149, x);
    assert(n1 is Finite && n1.value() == q1);
    let r = q1 / a;
    assert(0real <= r && r * a == q1) by (nonlinear_arith)
        requires
            0real <= q1,
            0real < a,
            r == q1 / a,
    ;
    let n2 = n1.over(anchor@);
    let q2 = nearest_single(r);
    lemma_rounding(r, r);
    lemma_nearest_odd(24, -149, r);
    let n3 = n2.times(Number::of_int(100));
    let slack = 100real * x * exp2(-21) + a * exp2(-140);
    let e = x * t;
    assert(0real <= e && e * 16777216real == x && 100real * x * exp2(-21) == 800real * e)
        by (nonlinear_arith)
        requires
            e == x * t,
            0real <= x,
            t * 16777216real == 1real,
            exp2(-21) == 8real * t,
    ;
    assert(d * a < big * a) by (nonlinear_arith)
        requires
            d < big,
            0real < a,
    ;
    assert(0real < a * exp2(-140)) by (nonlinear_arith)
        requires
            0real < a,
            exp2(-140) == 1024real * z,
            0real < z,
    ;
    if q2 >= big {
        assert(n2 == Number::Infinite { negative: false });
        assert(n3 == Number::Infinite { negative: false });
        assert(r * 2real >= big) by (nonlinear_arith)
            requires
                q2 >= big,
                q2 - r <= r * t + z,
                t * 16777216real == 1real,
                big > 1000000real,
                z * 16777216real <= 1real,
                0real <= r,
        ;
        assert(100real * x > big * a) by (nonlinear_arith)
            requires
                r * 2real >= big,
                r * a == q1,
                q1 <= x + e,
                e * 16777216real == x,
                0real < a,
                big > 1000000real,
        ;
    } else {
        assert(n2 == Number::Finite { negative: false, magnitude: q2 });
        let q3 = nearest_single(q2 * 100real);
        lemma_rounding(q2 * 100real, q2 * 100real);
        lemma_nearest_odd(24, -149, q2 * 100real);
        lemma_percentage(x, a, q1, q2, q3);
        if q3 >= big {
            assert(n3 == Number::Infinite { negative: false });
            assert(q3 * a >= big * a) by (nonlinear_arith)
                requires
                    q3 >= big,
                    0real < a,
            ;
        } else {
            assert(n3 == Number::Finite { negative: false, magnitude: q3 });
            assert((d < q3) == (d * a < q3 * a)) by (nonlinear_arith)
                requires
                    0real < a,
            ;
        }
    }
}

/// A target that is at least the hysteresis away from the last one is acted
/// upon: it becomes the last target, and unless the device has its raw value
/// already, a transition to that value is started.
pub proof fn law_large_changes_are_acted_upon(
    m: ChannelModel,
    channel: Channel,
    pass: PassModel,
    nudge_pct: int,
    reads: ChannelReads,
)
    requires
        channel.enabled,
        m.suspension is None,
        m.last_target is Some,
        !pass.resumed,
        m.undisturbed(reads.external),
        channel.hysteresis_pct@.le(
            m.last_target->0.minus(target_of(channel, pass.lux, nudge_pct)).absolute(),
        ),
    ensures
        ({
            let target = target_of(channel, pass.lux, nudge_pct);
            let (after, started) = m.passed(channel, pass, nudge_pct, reads);
            &&& after.last_target == Some(target)
            &&& after.suspension is None
            &&& after.backlight == m.backlight
            &&& m.backlight matches Some(backlight) ==> reads.ramp_from matches Ok(from) ==> {
                let to = raw_of(target, backlight.max) as u32;
                &&& started == (from != to)
                &&& started ==> after.ramp == ramp_values(from, to, pass.steps)
                &&& started ==> after.ramp.len() > 0 && after.ramp.last() == to
                &&& !started ==> after.ramp.len() == 0
            }
        }),
{
    let target = target_of(channel, pass.lux, nudge_pct);
    if m.backlight is Some && reads.ramp_from is Ok {
        law_ramp_ends_at_target(
            reads.ramp_from->Ok_0,
            raw_of(target, m.backlight->0.max) as u32,
            pass.steps,
        );
    }
}

/// Whether a number is finite and not among the largest there are.
pub open spec fn moderate(a: Number) -> bool {
    a is Finite && -exp2(126) <= a.value() <= exp2(126)
}

/// How far two numbers are apart, up to rounding.
pub proof fn lemma_distance(a: Number, b: Number)
    requires
        moderate(a),
        moderate(b),
    ensures
        ({
            let change = abs_real(a.value() - b.value());
            let slack = change * exp2(-24) + exp2(-150);
            &&& a.minus(b).absolute() is Finite
            &&& change - slack <= a.minus(b).absolute().value() <= change + slack
        }),
{
    let x = a.value() - b.value();
    lemma_exp2_step(126);
    lemma_minus_value(a, b);
    lemma_rounding(x, abs_real(x));
    lemma_nearest_odd(24, -149, x);
    lemma_nearest_odd(24, -149, -x);
    let difference = a.minus(b);
    assert(difference.absolute().value() == abs_real(difference.value()));
}

/// The hysteresis in real numbers: a pass acts upon a target that differs from
/// the last one by more than the hysteresis, and not upon one that differs by
/// less, up to rounding.
pub proof fn law_hysteresis_decides(
    m: ChannelModel,
    channel: Channel,
    pass: PassModel,
    nudge_pct: int,
    reads: ChannelReads,
)
    requires
        channel.enabled,
        m.suspension is None,
        m.last_target is Some,
        m.last_target->0 is Finite,
        target_of(channel, pass.lux, nudge_pct) is Finite,
        channel.hysteresis_pct@ is Finite,
        !pass.force,
        !pass.resumed,
        m.undisturbed(reads.external),
        -exp2(126) <= m.last_target->0.value() <= exp2(126),
        -exp2(126) <= target_of(channel, pass.lux, nudge_pct).value() <= exp2(126),
    ensures
        ({
            let target = target_of(channel, pass.lux, nudge_pct);
            let change = abs_real(m.last_target->0.value() - target.value());
            let slack = change * exp2(-24) + exp2(-150);
            let after = m.passed(channel, pass, nudge_pct, reads);
            &&& change > channel.hysteresis_pct@.value() + slack ==> after.0.last_target == Some(
                target,
            )
            &&& change < channel.hysteresis_pct@.value() - slack ==> after == (m, false)
        }),
{
    let target = target_of(channel, pass.lux, nudge_pct);
    let last = m.last_target->0;
    lemma_distance(last, target);
    if channel.hysteresis_pct@.le(last.minus(target).absolute()) {
        law_large_changes_are_acted_upon(m, channel, pass, nudge_pct, reads);
    } else {
        law_small_changes_are_ignored(m, channel, pass, nudge_pct, reads);
    }
}

/// A device that others left alone is not suspended by a pass.
pub proof fn law_undisturbed_channel_is_not_suspended(
    m: ChannelModel,
    channel: Channel,
    pass: PassModel,
    nudge_pct: int,
    reads: ChannelReads,
)
    requires
        m.suspension is None,
        !pass.resumed,
        m.undisturbed(reads.external),
    ensures
        m.passed(channel, pass, nudge_pct, reads).0.suspension is None,
        m.passed(channel, pass, nudge_pct, reads).0.backlight == m.backlight,
{
}

/// Where the curve gives a percentage other than zero, the target is that
/// percentage and the shift, of either sign, added up and limited to the range
/// from the floor to 100, in real numbers up to rounding.
pub proof fn law_shift_is_added(channel: Channel, lux: Number, nudge_pct: i32)
    requires
        curve_target(channel, lux) is Finite,
        curve_target(channel, lux).value() != 0real,
        -exp2(126) <= curve_target(channel, lux).value() <= exp2(126),
        channel.min_pct@ is Finite,
        channel.min_pct@.value() <= 100real,
    ensures
        ({
            let p = curve_target(channel, lux).value();
            let n = nudge_pct as int as real;
            let floor = channel.min_pct@.value();
            let exact = if p + n < floor {
                floor
            } else if p + n > 100real {
                100real
            } else {
                p + n
            };
            let slack = (abs_real(p) + abs_real(n)) * exp2(-22) + exp2(-148);
            let target = target_of(channel, lux, nudge_pct as int);
            &&& target is Finite
            &&& exact - slack <= target.value() <= exact + slack
        }),
{
    lemma_small_int(0);
    lemma_small_int(100);
    lemma_powers();
    lemma_exp2_step(-24);
    lemma_exp2_step(-23);
    lemma_exp2_step(-150);
    lemma_exp2_step(-149);
    lemma_exp2_values();
    lemma_exp2_monotone(32, 126);
    lemma_exp2_monotone(-148, 0);
    let base = curve_target(channel, lux);
    let p = base.value();
    let n = nudge_pct as int as real;
    let shift = Number::of_int(nudge_pct as int);
    let size = if nudge_pct < 0 {
        -nudge_pct
    } else {
        nudge_pct as int
    };
    lemma_u32_range(size as u32);
    lemma_rounding(n, abs_real(n));
    lemma_nearest_odd(24, -149, n);
    lemma_nearest_odd(24, -149, abs_real(n));
    let v = shift.value();
    assert(v == nearest_single(n));
    let t = exp2(-24);
    let z = exp2(-150);
    let k = abs_real(p) + abs_real(n);
    assert(abs_real(n) * t <= k * t && 0real <= k * t && k * t * 16777216real == k)
        by (nonlinear_arith)
        requires
            k == abs_real(p) + abs_real(n),
            0real <= abs_real(p),
            0real <= abs_real(n),
            t * 16777216real == 1real,
    ;
    let x = p + v;
    let most = k + k * t + z;
    assert(-most <= x <= most);
    lemma_plus_value(base, shift);
    lemma_rounding(x, most);
    assert(most * t <= 2real * (k * t) + z) by (nonlinear_arith)
        requires
            most == k + k * t + z,
            k * t * 16777216real == k,
            0real <= k * t,
            t * 16777216real == 1real,
            0real < z,
    ;
    assert(k * exp2(-22) == 4real * (k * t)) by (nonlinear_arith)
        requires
            exp2(-22) == 4real * t,
    ;
    law_limits(base.plus(shift), channel.min_pct@, Number::of_int(100));
}

/// A channel in use that has a curve, and whose floor is no higher than 100
/// percent, has a target in any light.
pub proof fn law_target_exists(channel: Channel, lux: Number)
    requires
        channel.curve@.len() > 0,
        channel.min_pct@.le(Number::of_int(100)),
    ensures
        has_target(channel, lux),
{
}

/// A value that was written is remembered as far as it is within full
/// brightness. One that could not be written is not.
pub proof fn law_writes_are_remembered(m: ChannelModel, value: u32)
    ensures
        m.backlight matches Some(backlight) ==> {
            &&& m.recorded(value, false) == m
            &&& m.recorded(value, true) == (ChannelModel {
                backlight: Some(
                    Backlight {
                        max: backlight.max,
                        last_written: Some(
                            if value <= backlight.max {
                                value
                            } else {
                                backlight.max
                            },
                        ),
                    },
                ),
                ..m
            })
        },
        m.backlight is None ==> m.recorded(value, true) == m && m.recorded(value, false) == m,
{
}

/// A reading of a device is taken for our own, and changes nothing else. A
/// failed one changes nothing.
pub proof fn law_readings_are_taken_over(m: ChannelModel, reading: Result<u32, ReadError>)
    ensures
        m.adopting(reading).last_target == m.last_target,
        m.adopting(reading).suspension == m.suspension,
        m.adopting(reading).ramp == m.ramp,
        m.backlight is None || reading is Err ==> m.adopting(reading) == m,
        m.backlight matches Some(backlight) ==> reading matches Ok(raw) ==> m.adopting(
            reading,
        ).backlight == Some(Backlight { max: backlight.max, last_written: Some(raw) }),
{
}

/// Light has drifted if it differs from a positive anchor by more than a share
/// of it, counted in single-precision percent, also where that is no number or
/// beyond what single precision holds. Light that is no number has not.
pub proof fn law_drift_of_any_light(anchor: Number, lux: Number, drift_pct: Number)
    ensures
        drifted(anchor, lux, drift_pct) <==> Number::of_int(0).lt(anchor) && drift_pct.lt(
            lux.minus(anchor).absolute().over(anchor).times(Number::of_int(100)),
        ),
        lux is Nan || anchor is Nan || drift_pct is Nan ==> !drifted(anchor, lux, drift_pct),
        anchor is Finite && anchor.value() <= 0real ==> !drifted(anchor, lux, drift_pct),
{
    lemma_small_int(0);
}

/// The target is the curve's percentage with the shift, limited to the range from
/// the floor to 100, in single precision; zero stays zero.
pub proof fn law_target_in_single_precision(channel: Channel, lux: Number, nudge_pct: int)
    ensures
        ({
            let pct = curve_target(channel, lux);
            let target = target_of(channel, lux, nudge_pct);
            &&& pct is Finite && pct.value() == 0real ==> target is Finite && target.value()
                == 0real
            &&& !(pct is Finite && pct.value() == 0real) ==> target == pct.plus(
                Number::of_int(nudge_pct),
            ).clamp(channel.min_pct@, Number::of_int(100))
        }),
{
    lemma_small_int(0);
}

/// What a shift is anchored on is what the curve gives, wherever there is a curve
/// or so much light that it does not matter.
pub proof fn law_anchor_is_on_the_curve(channel: Channel, lux: Number)
    ensures
        channel.curve@.len() > 0 ==> curve_anchor(channel, lux) == Some(curve_target(channel, lux)),
        channel.cutoff_lux matches Some(cutoff) ==> cutoff@.le(lux) ==> curve_anchor(channel, lux)
            == Some(curve_target(channel, lux)),
        channel.curve@.len() == 0 && (channel.cutoff_lux matches Some(cutoff) ==> !cutoff@.le(lux))
            ==> curve_anchor(channel, lux) is None,
{
}

/// A channel starts with its device if it is in use and the device is usable, and
/// without one if not, with nothing written, no target, no override and no
/// transition. It is told why a device of a channel in use is not usable.
pub proof fn law_channels_start_fresh(
    channel: Channel,
    probe: DeviceProbe,
    error: Option<OpenError>,
)
    requires
        explains(channel, probe, error),
    ensures
        initial(channel, probe).last_target is None,
        initial(channel, probe).suspension is None,
        initial(channel, probe).ramp.len() == 0,
        (initial(channel, probe).backlight is Some) <==> channel.enabled && opened(
            channel,
            probe,
        ) is Ok,
        initial(channel, probe).backlight matches Some(backlight) ==> {
            &&& opened(channel, probe) matches Ok(max) && (max == backlight.max)
            &&& backlight.last_written is None
        },
        (error is Some) <==> channel.enabled && opened(channel, probe) is Err,
        error matches Some(e) ==> opened(channel, probe) == Err::<int, OpenFault>(e@),
{
    text::law_numbers_are_not_negative(text::trimmed(probe.max_text->Ok_0@));
}

}
