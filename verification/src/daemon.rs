//! Control that makes each transition in one go: targets are decided between
//! transitions, never during one. A transition is given up when the seat becomes
//! idle or control is paused.
//!
//! What a decision needs from outside is handed in with it: the clocks, the
//! light, what the devices read. Times are nanoseconds on a monotonic clock.

use crate::channel::{
    adopted, anchor_pct, anchored, compute_target, curve_anchor, differs, drifted, expire_override,
    has_target, initial, lemma_distance, light_moved, moderate, moved, number_of, suspension_of,
    target_exists, target_of, ChannelModel, ChannelOverride, PassModel, NANOS_PER_SECOND,
};
use crate::config::{Channel, Config};
use crate::curve::curve_target;
use crate::idle::IdleEvent;
use crate::ipc::{Request, StatusReply};
use crate::output::{
    opened, pct_of, Backlight, ChannelKind, DeviceProbe, OpenError, OpenFault, ReadError,
};
use crate::reactor::{
    nudged, pause_end, pause_end_unix, pct_now, Readings, NANOS_PER_MILLI, NUDGE_LIMIT,
    OPEN_PAUSE_S,
};
use crate::rounding::exp2;
use crate::sensor::LuxSample;
use crate::single::{abs_real, Number, Single};
use vstd::prelude::*;

pub mod transition;

verus! {

/// The last targets that transitions were made to.
#[derive(Clone, Copy, Debug)]
pub struct ChannelTargets {
    pub display: Option<Single>,
    pub keyboard: Option<Single>,
}

/// What the devices' files held, each time that a decision reads them.
#[derive(Clone, Copy, Debug)]
pub struct DecisionReads {
    /// Right after the time left to others.
    pub after_grace: Readings,
    /// Right after the end of a pause.
    pub after_pause: Readings,
    /// Right after the end of an override.
    pub after_override: Readings,
    /// When looking for changes by others.
    pub external: Readings,
}

/// The transitions that were decided upon.
#[derive(Clone, Copy, Debug)]
pub struct Decision {
    /// The target of a transition of the display.
    pub display: Option<Single>,
    /// The target of a transition of the keyboard.
    pub keyboard: Option<Single>,
    /// A target has changed, whether or not there is a device to show it.
    pub changed: bool,
}

/// The daemon's configuration and state.
#[derive(Debug)]
pub struct State {
    pub cfg: Config,
    pub display: Option<Backlight>,
    pub keyboard: Option<Backlight>,
    /// The light that the last transitions were made for.
    pub last_lux: Single,
    pub last_targets: ChannelTargets,
    /// When a pause ends, or is told to end.
    pub paused_until: Option<u128>,
    /// The pause lasts until it is ended.
    pub open_pause: bool,
    pub display_override: Option<ChannelOverride>,
    pub keyboard_override: Option<ChannelOverride>,
    /// Shift of the display's target, in percent.
    pub nudge_pct: i32,
    /// What the display's curve gave when its target was shifted, or at the
    /// first decision after that if the light was not known yet. The shift ends
    /// when the curve leads elsewhere.
    pub nudge_anchor: Option<Single>,
    /// The seat is idle.
    pub idle: bool,
    /// Until when the active seat is left to others.
    pub idle_resume_grace_until: Option<u128>,
}

/// The daemon's configuration and state. No transition is under way in it.
pub struct StateModel {
    pub cfg: Config,
    pub display: ChannelModel,
    pub keyboard: ChannelModel,
    pub last_lux: Number,
    pub paused_until: Option<int>,
    pub open_pause: bool,
    pub nudge_pct: int,
    pub nudge_anchor: Option<Number>,
    pub idle: bool,
    pub grace_until: Option<int>,
}

/// The state of a channel with no transition under way.
pub open spec fn resting(
    backlight: Option<Backlight>,
    last_target: Option<Single>,
    over: Option<ChannelOverride>,
) -> ChannelModel {
    ChannelModel {
        backlight,
        last_target: number_of(last_target),
        suspension: suspension_of(over),
        ramp: Seq::empty(),
    }
}

/// The light in a sample, if there is one.
pub open spec fn lux_of(sample: Option<LuxSample>) -> Option<Number> {
    match sample {
        Some(sample) => Some(sample.smoothed@),
        None => None,
    }
}

/// An optional time.
pub open spec fn time_of(time: Option<u128>) -> Option<int> {
    match time {
        Some(time) => Some(time as int),
        None => None,
    }
}

impl View for State {
    type V = StateModel;

    open spec fn view(&self) -> StateModel {
        StateModel {
            cfg: self.cfg,
            display: resting(self.display, self.last_targets.display, self.display_override),
            keyboard: resting(self.keyboard, self.last_targets.keyboard, self.keyboard_override),
            last_lux: self.last_lux@,
            paused_until: time_of(self.paused_until),
            open_pause: self.open_pause,
            nudge_pct: self.nudge_pct as int,
            nudge_anchor: number_of(self.nudge_anchor),
            idle: self.idle,
            grace_until: time_of(self.idle_resume_grace_until),
        }
    }
}

/// Takes the value that a device has for our own, if there is a device and it
/// could be read.
pub fn sync_one(slot: &mut Option<Backlight>, reading: Result<u32, ReadError>)
    ensures
        *final(slot) == adopted(*old(slot), reading),
{
    if let Some(mut backlight) = *slot {
        let _ = backlight.sync_last_written(reading);
        *slot = Some(backlight);
    }
}

/// Whether a target has changed by enough to act upon. That there is one now
/// and was none before is a change, and so is the reverse.
pub open spec fn changed(
    previous: Option<Number>,
    next: Option<Number>,
    hysteresis: Number,
) -> bool {
    match (previous, next) {
        (None, None) => false,
        (Some(_), None) => true,
        (previous, Some(next)) => differs(previous, next, hysteresis),
    }
}

/// Whether a target has changed by at least `hysteresis`, has come or has gone.
pub fn target_changed(previous: Option<Single>, next: Option<Single>, hysteresis: Single) -> (b:
    bool)
    ensures
        b == changed(number_of(previous), number_of(next), hysteresis@),
{
    match (previous, next) {
        (None, Some(_)) => true,
        (Some(_), None) => true,
        (None, None) => false,
        (Some(previous), Some(next)) => hysteresis.le(previous.minus(next).absolute()),
    }
}

impl StateModel {
    /// After the time left to others, if it is over.
    pub open spec fn ungraced(self, now: int, readings: Readings) -> StateModel {
        if self.grace_until matches Some(until) && now >= until {
            StateModel { grace_until: None, ..self.synced(readings) }
        } else {
            self
        }
    }

    /// After a pause, if it is over.
    pub open spec fn unpaused(self, now: int, readings: Readings) -> StateModel {
        if self.paused_until is Some && !self.paused(now) {
            StateModel { paused_until: None, ..self.synced(readings) }
        } else {
            self
        }
    }

    /// Both channels take what their devices have for their own.
    pub open spec fn synced(self, readings: Readings) -> StateModel {
        StateModel {
            display: self.display.adopting(readings.display),
            keyboard: self.keyboard.adopting(readings.keyboard),
            ..self
        }
    }

    /// What a decision goes by.
    pub open spec fn pass(self, now: int, lux: Number, force: bool) -> PassModel {
        PassModel {
            now,
            lux,
            drift_pct: self.cfg.override_lux_drift_pct@,
            timeout_s: self.cfg.override_timeout_s as int,
            steps: self.cfg.ramp_steps,
            force,
            resumed: false,
        }
    }

    /// The state in which overrides are looked at, unless the seat is idle or
    /// left to others or control is paused.
    pub open spec fn awake(self, now: int, reads: DecisionReads) -> StateModel {
        self.ungraced(now, reads.after_grace).unpaused(now, reads.after_pause)
    }

    /// Whether a decision is made at all.
    pub open spec fn acts(self, now: int) -> bool {
        &&& !self.idle
        &&& !(self.grace_until matches Some(until) && now < until)
        &&& !self.paused(now)
    }

    /// Whether control is paused.
    pub open spec fn paused(self, now: int) -> bool {
        self.paused_until matches Some(until) && (self.open_pause || now < until)
    }

    /// Whether it matters to a decision what the devices read: one is made, or
    /// the time left to others is over.
    pub open spec fn looks(self, now: int) -> bool {
        self.acts(now) || (!self.idle && (self.grace_until matches Some(until) && now >= until))
    }

    /// After the end of overrides.
    pub open spec fn released(self, pass: PassModel, readings: Readings) -> StateModel {
        StateModel {
            display: self.display.released(pass, readings.display),
            keyboard: self.keyboard.released(pass, readings.keyboard),
            ..self
        }
    }
}

/// Why it cannot be told whether others changed a channel that is not
/// suspended.
pub open spec fn unclear(m: ChannelModel, reading: Result<u32, ReadError>) -> Option<ReadError> {
    match (m.backlight, reading) {
        (Some(backlight), Err(e)) => if m.suspension is None && backlight.last_written is Some {
            Some(e)
        } else {
            None
        },
        _ => None,
    }
}

/// The target of a channel that is in use and not suspended.
pub open spec fn target_for(
    m: ChannelModel,
    channel: Channel,
    lux: Number,
    nudge_pct: int,
) -> Option<Number> {
    if m.suspension is None && channel.enabled {
        Some(target_of(channel, lux, nudge_pct))
    } else {
        None
    }
}

/// Whether a channel's target is to be acted upon.
pub open spec fn needed(
    m: ChannelModel,
    target: Option<Number>,
    channel: Channel,
    forced: bool,
) -> bool {
    target is Some && (forced || changed(m.last_target, target, channel.hysteresis_pct@))
}

impl StateModel {
    /// What others' changes make of the state, or why that cannot be told. The
    /// display is looked at first.
    pub open spec fn yielding(self, pass: PassModel, readings: Readings) -> (
        StateModel,
        Option<ReadError>,
    ) {
        if unclear(self.display, readings.display) is Some {
            (self, unclear(self.display, readings.display))
        } else {
            let first = StateModel {
                display: self.display.yielding(pass, readings.display),
                ..self
            };
            if unclear(self.keyboard, readings.keyboard) is Some {
                (first, unclear(self.keyboard, readings.keyboard))
            } else {
                (
                    StateModel {
                        keyboard: self.keyboard.yielding(pass, readings.keyboard),
                        ..first
                    },
                    None,
                )
            }
        }
    }

    /// The state that targets are decided in, or why it cannot be told.
    pub open spec fn settled(self, now: int, lux: Number, reads: DecisionReads) -> (
        StateModel,
        Option<ReadError>,
    ) {
        let pass = self.pass(now, lux, false);
        self.awake(now, reads).released(pass, reads.after_override).yielding(pass, reads.external)
    }

    /// Whether the light has changed since the display's target was shifted.
    pub open spec fn nudge_over(self, lux: Number) -> bool {
        moved(self.nudge_anchor, self.cfg.display, lux)
    }

    /// The shift of the display's target that is still due.
    pub open spec fn shift(self, lux: Number) -> int {
        if self.nudge_over(lux) {
            0
        } else {
            self.nudge_pct
        }
    }

    /// Without the shift of the display's target, if the light has changed and
    /// the display's target is looked for. The target with the shift is then
    /// forgotten.
    pub open spec fn unshifted(self, lux: Number) -> StateModel {
        if self.nudge_over(lux) && self.cfg.display.enabled && self.display.suspension is None {
            StateModel {
                nudge_pct: 0,
                nudge_anchor: None,
                display: self.display.forgetting(),
                ..self
            }
        } else {
            StateModel {
                nudge_anchor: anchored(
                    self.nudge_anchor,
                    self.nudge_pct,
                    self.cfg.display,
                    lux,
                ),
                ..self
            }
        }
    }

    /// Whether the display's target is to be acted upon.
    pub open spec fn display_needed(
        self,
        now: int,
        lux: Number,
        force: bool,
        reads: DecisionReads,
    ) -> bool {
        let display = self.settled(now, lux, reads).0.display;
        needed(
            display,
            target_for(display, self.cfg.display, lux, self.shift(lux)),
            self.cfg.display,
            self.display.forced(self.pass(now, lux, force || self.nudge_over(lux))),
        )
    }

    /// Whether the keyboard's target is to be acted upon.
    pub open spec fn keyboard_needed(
        self,
        now: int,
        lux: Number,
        force: bool,
        reads: DecisionReads,
    ) -> bool {
        let keyboard = self.settled(now, lux, reads).0.keyboard;
        needed(
            keyboard,
            target_for(keyboard, self.cfg.keyboard, lux, 0),
            self.cfg.keyboard,
            self.keyboard.forced(self.pass(now, lux, force)),
        )
    }

    /// Whether a decision can be made: channels that it looks for a target for
    /// have one.
    pub open spec fn can_decide(self, now: int, lux: Number, reads: DecisionReads) -> bool {
        let (settled, error) = self.settled(now, lux, reads);
        self.acts(now) && error is None ==> {
            &&& settled.display.suspension is None && self.cfg.display.enabled ==> has_target(
                self.cfg.display,
                lux,
            )
            &&& settled.keyboard.suspension is None && self.cfg.keyboard.enabled ==> has_target(
                self.cfg.keyboard,
                lux,
            )
        }
    }

    /// The state after a decision. Transitions are yet to be made.
    pub open spec fn decided(self, now: int, lux: Number, reads: DecisionReads) -> StateModel {
        if self.idle {
            self
        } else if self.acts(now) {
            let (settled, error) = self.settled(now, lux, reads);
            if error is None {
                settled.unshifted(lux)
            } else {
                settled
            }
        } else if self.grace_until matches Some(until) && now < until {
            self
        } else {
            self.ungraced(now, reads.after_grace)
        }
    }

    /// After the seat became idle or active.
    pub open spec fn notified(self, event: IdleEvent, now: int) -> StateModel {
        match event {
            IdleEvent::Idled => StateModel { idle: true, ..self },
            IdleEvent::Resumed => StateModel {
                idle: false,
                grace_until: Some(now + self.cfg.idle_resume_grace_ms * NANOS_PER_MILLI),
                ..self
            },
        }
    }

    /// Whether a command can be carried out: the time of a pause's end and the
    /// shift of the target must be within what the machine counts.
    pub open spec fn can_handle(self, command: Request, now: int, unix_now: int) -> bool {
        match command {
            Request::Status => self.paused_until matches Some(until) ==> pause_end_unix(
                until,
                now,
                unix_now,
            ) <= u64::MAX,
            Request::Nudge { delta } => i32::MIN <= self.nudge_pct + delta <= i32::MAX,
            _ => true,
        }
    }

    /// The state after a command, given in the light there is if that is known.
    pub open spec fn commanded(
        self,
        command: Request,
        lux: Option<Number>,
        now: int,
        readings: Readings,
    ) -> StateModel {
        match command {
            Request::Status => self,
            Request::Pause { seconds } => StateModel {
                paused_until: Some(pause_end(now, seconds)),
                open_pause: seconds == 0,
                ..self
            },
            Request::Resume => {
                let synced = self.synced(readings);
                StateModel {
                    paused_until: None,
                    open_pause: false,
                    display: ChannelModel { suspension: None, ..synced.display.forgetting() },
                    keyboard: ChannelModel { suspension: None, ..synced.keyboard.forgetting() },
                    ..synced
                }
            },
            Request::Nudge { delta } => StateModel {
                nudge_pct: nudged(self.nudge_pct, delta as int),
                nudge_anchor: match lux {
                    Some(lux) => curve_anchor(self.cfg.display, lux),
                    None => None,
                },
                ..self
            },
        }
    }

    /// The state of one of the channels.
    pub open spec fn channel(self, kind: ChannelKind) -> ChannelModel {
        match kind {
            ChannelKind::Display => self.display,
            ChannelKind::Keyboard => self.keyboard,
        }
    }

    /// What is written to a channel for a value of a transition: nothing while
    /// the seat is idle or left to others, control is paused or the channel is
    /// suspended.
    pub open spec fn writes(self, kind: ChannelKind, value: u32, now: int) -> Option<u32> {
        match self.channel(kind).backlight {
            Some(backlight) => if self.acts(now) && self.channel(kind).suspension is None {
                Some(backlight.limited(value))
            } else {
                None
            },
            None => None,
        }
    }

    /// The state with one of the channels replaced.
    pub open spec fn with_channel(self, kind: ChannelKind, channel: ChannelModel) -> StateModel {
        match kind {
            ChannelKind::Display => StateModel { display: channel, ..self },
            ChannelKind::Keyboard => StateModel { keyboard: channel, ..self },
        }
    }
}

impl StateModel {
    /// Whether a decision is the one that is called for.
    pub open spec fn calls_for(
        self,
        decision: Decision,
        now: int,
        lux: Number,
        force: bool,
        reads: DecisionReads,
    ) -> bool {
        let display_needed = self.acts(now) && self.display_needed(now, lux, force, reads);
        let keyboard_needed = self.acts(now) && self.keyboard_needed(now, lux, force, reads);
        &&& decision.changed == (display_needed || keyboard_needed)
        &&& number_of(decision.display) == (if display_needed && self.display.backlight is Some {
            Some(target_of(self.cfg.display, lux, self.shift(lux)))
        } else {
            None
        })
        &&& number_of(decision.keyboard) == (if keyboard_needed && self.keyboard.backlight is Some {
            Some(target_of(self.cfg.keyboard, lux, 0))
        } else {
            None
        })
    }
}

/// Looks for a change by others on a channel that is not suspended, and
/// suspends it if there is one.
fn yield_to_others(
    backlight: &Option<Backlight>,
    slot: &mut Option<ChannelOverride>,
    now: u64,
    lux: Single,
    timeout_s: u64,
    reading: Result<u32, ReadError>,
) -> (r: Result<(), ReadError>)
    ensures
        match unclear(resting(*backlight, None, *old(slot)), reading) {
            Some(e) => r == Err::<(), ReadError>(e) && *final(slot) == *old(slot),
            None => {
                &&& r is Ok
                &&& if *old(slot) is None && resting(*backlight, None, None).shows_change(
                    reading,
                ) {
                    &&& *final(slot) matches Some(over)
                    &&& over.until == now + timeout_s * NANOS_PER_SECOND
                    &&& over.lux_anchor == lux
                } else {
                    *final(slot) == *old(slot)
                }
            },
        },
{
    if slot.is_none() {
        if let Some(backlight) = backlight {
            match backlight.detect_external_change(reading) {
                Ok(changed) => {
                    if changed {
                        *slot = Some(
                            ChannelOverride {
                                until: now as u128 + timeout_s as u128 * NANOS_PER_SECOND,
                                lux_anchor: lux,
                            },
                        );
                    }
                },
                Err(e) => return Err(e),
            }
        }
    }
    Ok(())
}

/// The device of a channel that is in use, or why it cannot be used.
fn open_one(kind: ChannelKind, channel: &Channel, probe: &DeviceProbe) -> (r: Result<
    Option<Backlight>,
    OpenError,
>)
    ensures
        match r {
            Ok(None) => !channel.enabled,
            Ok(Some(backlight)) => {
                &&& channel.enabled
                &&& opened(*channel, *probe) == Ok::<int, OpenFault>(backlight.max as int)
                &&& backlight.last_written is None
            },
            Err(e) => channel.enabled && opened(*channel, *probe) == Err::<int, OpenFault>(e@),
        },
{
    if !channel.enabled {
        return Ok(None);
    }
    match Backlight::open(kind, channel, probe) {
        Ok(backlight) => Ok(Some(backlight)),
        Err(e) => Err(e),
    }
}

/// Why a channel that is in use cannot be driven.
pub open spec fn obstacle(channel: Channel, probe: DeviceProbe) -> Option<OpenFault> {
    match opened(channel, probe) {
        Err(fault) => if channel.enabled {
            Some(fault)
        } else {
            None
        },
        Ok(_) => None,
    }
}

impl State {
    /// The target can be shifted only so far.
    pub open spec fn wf(self) -> bool {
        -NUDGE_LIMIT <= self.nudge_pct <= NUDGE_LIMIT
    }

    /// The initial state, or why a device cannot be used: the display's if
    /// neither can.
    pub fn new(cfg: Config, display_probe: &DeviceProbe, keyboard_probe: &DeviceProbe) -> (r:
        Result<State, OpenError>)
        ensures
            match r {
                Ok(state) => {
                    &&& obstacle(cfg.display, *display_probe) is None
                    &&& obstacle(cfg.keyboard, *keyboard_probe) is None
                    &&& state.wf()
                    &&& state@ == (StateModel {
                        cfg,
                        display: initial(cfg.display, *display_probe),
                        keyboard: initial(cfg.keyboard, *keyboard_probe),
                        last_lux: Number::of_int(0),
                        paused_until: None,
                        open_pause: false,
                        nudge_pct: 0,
                        nudge_anchor: None,
                        idle: false,
                        grace_until: None,
                    })
                },
                Err(e) => match obstacle(cfg.display, *display_probe) {
                    Some(fault) => e@ == fault,
                    None => obstacle(cfg.keyboard, *keyboard_probe) == Some(e@),
                },
            },
    {
        let display = match open_one(ChannelKind::Display, &cfg.display, display_probe) {
            Ok(display) => display,
            Err(e) => return Err(e),
        };
        let keyboard = match open_one(ChannelKind::Keyboard, &cfg.keyboard, keyboard_probe) {
            Ok(keyboard) => keyboard,
            Err(e) => return Err(e),
        };
        Ok(
            State {
                cfg,
                display,
                keyboard,
                last_lux: Single::from_u32(0),
                last_targets: ChannelTargets { display: None, keyboard: None },
                paused_until: None,
                open_pause: false,
                display_override: None,
                keyboard_override: None,
                nudge_pct: 0,
                nudge_anchor: None,
                idle: false,
                idle_resume_grace_until: None,
            },
        )
    }

    /// Takes note of the seat becoming idle or active.
    pub fn handle_idle(&mut self, event: IdleEvent, now: u64)
        ensures
            final(self)@ == old(self)@.notified(event, now as int),
            old(self).wf() ==> final(self).wf(),
    {
        match event {
            IdleEvent::Idled => {
                self.idle = true;
            },
            IdleEvent::Resumed => {
                self.idle = false;
                self.idle_resume_grace_until = Some(
                    now as u128 + self.cfg.idle_resume_grace_ms as u128 * NANOS_PER_MILLI,
                );
            },
        }
    }

    /// Both channels take what their devices have for their own.
    pub fn sync_baselines(&mut self, readings: &Readings)
        ensures
            final(self)@ == old(self)@.synced(*readings),
            final(self).nudge_pct == old(self).nudge_pct,
    {
        sync_one(&mut self.display, readings.display);
        sync_one(&mut self.keyboard, readings.keyboard);
    }

    /// What the status says.
    pub open spec fn reports(
        self,
        status: StatusReply,
        sample: Option<LuxSample>,
        now: u64,
        unix_now: u64,
        readings: Readings,
    ) -> bool {
        &&& match sample {
            Some(sample) => status.lux_raw == sample.raw && status.lux_smoothed
                == sample.smoothed,
            None => status.lux_raw@ == Number::of_int(0) && status.lux_smoothed@
                == Number::of_int(0),
        }
        &&& number_of(status.display_pct) == pct_now(self.display, readings.display)
        &&& number_of(status.keyboard_pct) == pct_now(self.keyboard, readings.keyboard)
        &&& match self.paused_until {
            Some(until) => status.paused_until_unix matches Some(unix) && unix == pause_end_unix(
                until as int,
                now as int,
                unix_now as int,
            ),
            None => status.paused_until_unix is None,
        }
        &&& status.display_override_active == (self.display_override is Some)
        &&& status.keyboard_override_active == (self.keyboard_override is Some)
        &&& status.idle == self.idle
        &&& status.nudge_pct == self.nudge_pct
    }

    /// Whether `handle_command` can be called.
    pub fn accepts(&self, command: &Request, now: u64, unix_now: u64) -> (b: bool)
        ensures
            b == self@.can_handle(*command, now as int, unix_now as int),
    {
        match command {
            Request::Status => match self.paused_until {
                Some(until) => seconds_left(until, now) <= (u64::MAX - unix_now) as u128,
                None => true,
            },
            Request::Nudge { delta } => {
                let sum = self.nudge_pct as i64 + *delta as i64;
                i32::MIN as i64 <= sum && sum <= i32::MAX as i64
            },
            _ => true,
        }
    }

    /// Carries a command out, given the last sample of the light if there is one.
    /// Only the command for the status is answered.
    pub fn handle_command(
        &mut self,
        command: Request,
        sample: Option<LuxSample>,
        now: u64,
        unix_now: u64,
        readings: &Readings,
    ) -> (reply: Option<StatusReply>)
        requires
            old(self)@.can_handle(command, now as int, unix_now as int),
        ensures
            final(self)@ == old(self)@.commanded(
                command,
                lux_of(sample),
                now as int,
                *readings,
            ),
            old(self).wf() ==> final(self).wf(),
            match command {
                Request::Status => reply matches Some(status) && old(self).reports(
                    status,
                    sample,
                    now,
                    unix_now,
                    *readings,
                ),
                _ => reply is None,
            },
    {
        match command {
            Request::Pause { seconds } => {
                let span = if seconds == 0 { OPEN_PAUSE_S } else { seconds };
                self.paused_until = Some(now as u128 + span as u128 * NANOS_PER_SECOND);
                self.open_pause = seconds == 0;
                None
            },
            Request::Resume => {
                self.paused_until = None;
                self.open_pause = false;
                self.display_override = None;
                self.keyboard_override = None;
                self.sync_baselines(readings);
                self.last_targets = ChannelTargets { display: None, keyboard: None };
                None
            },
            Request::Nudge { delta } => {
                let sum = self.nudge_pct + delta;
                self.nudge_pct =
                if sum < -NUDGE_LIMIT {
                    -NUDGE_LIMIT
                } else if sum > NUDGE_LIMIT {
                    NUDGE_LIMIT
                } else {
                    sum
                };
                self.nudge_anchor = match sample {
                    Some(sample) => anchor_pct(&self.cfg.display, sample.smoothed),
                    None => None,
                };
                None
            },
            Request::Status => Some(
                StatusReply {
                    lux_raw: match sample {
                        Some(sample) => sample.raw,
                        None => Single::from_u32(0),
                    },
                    lux_smoothed: match sample {
                        Some(sample) => sample.smoothed,
                        None => Single::from_u32(0),
                    },
                    display_pct: pct_shown(&self.display, readings.display),
                    keyboard_pct: pct_shown(&self.keyboard, readings.keyboard),
                    paused_until_unix: match self.paused_until {
                        Some(until) => Some(unix_now + seconds_left(until, now) as u64),
                        None => None,
                    },
                    display_override_active: self.display_override.is_some(),
                    keyboard_override_active: self.keyboard_override.is_some(),
                    idle: self.idle,
                    nudge_pct: self.nudge_pct,
                },
            ),
        }
    }
}

/// The whole seconds until a deadline, none if it has passed.
fn seconds_left(until: u128, now: u64) -> (seconds: u128)
    ensures
        seconds == pause_end_unix(until as int, now as int, 0),
{
    let left: u128 = if (now as u128) < until { until - now as u128 } else { 0 };
    left / NANOS_PER_SECOND
}

/// The brightness that a device has, in percent, if it can be told.
fn pct_shown(backlight: &Option<Backlight>, reading: Result<u32, ReadError>) -> (pct: Option<
    Single,
>)
    ensures
        number_of(pct) == pct_now(*backlight, reading),
{
    match backlight {
        Some(backlight) => match backlight.current_pct(reading) {
            Ok(pct) => Some(pct),
            Err(_) => None,
        },
        None => None,
    }
}

/// What becomes of the devices and overrides before targets are decided.
struct Settling {
    display: Option<Backlight>,
    keyboard: Option<Backlight>,
    display_override: Option<ChannelOverride>,
    keyboard_override: Option<ChannelOverride>,
    display_ended: bool,
    keyboard_ended: bool,
    error: Option<ReadError>,
}

impl State {
    /// Finds out what overrides there are, now that nothing else keeps a
    /// decision from being made.
    fn settle(&self, now: u64, lux: Single, reads: &DecisionReads) -> (s: Settling)
        requires
            self@.acts(now as int),
        ensures
            ({
                let (settled, error) = self@.settled(now as int, lux@, *reads);
                let pass = self@.pass(now as int, lux@, false);
                &&& s.error == error
                &&& s.display_ended == self@.display.expires(pass)
                &&& s.keyboard_ended == self@.keyboard.expires(pass)
                &&& settled == (StateModel {
                    display: resting(
                        s.display,
                        if s.display_ended {
                            None
                        } else {
                            self.last_targets.display
                        },
                        s.display_override,
                    ),
                    keyboard: resting(
                        s.keyboard,
                        if s.keyboard_ended {
                            None
                        } else {
                            self.last_targets.keyboard
                        },
                        s.keyboard_override,
                    ),
                    grace_until: None,
                    paused_until: None,
                    ..self@
                })
            }),
    {
        let mut display = self.display;
        let mut keyboard = self.keyboard;
        let mut display_override = self.display_override;
        let mut keyboard_override = self.keyboard_override;
        let mut error: Option<ReadError> = None;
        if self.idle_resume_grace_until.is_some() {
            sync_one(&mut display, reads.after_grace.display);
            sync_one(&mut keyboard, reads.after_grace.keyboard);
        }
        if self.paused_until.is_some() {
            sync_one(&mut display, reads.after_pause.display);
            sync_one(&mut keyboard, reads.after_pause.keyboard);
        }
        let drift_pct = self.cfg.override_lux_drift_pct;
        let display_ended = expire_override(&mut display_override, lux, drift_pct, now);
        if display_ended {
            sync_one(&mut display, reads.after_override.display);
        }
        let keyboard_ended = expire_override(&mut keyboard_override, lux, drift_pct, now);
        if keyboard_ended {
            sync_one(&mut keyboard, reads.after_override.keyboard);
        }
        let timeout_s = self.cfg.override_timeout_s;
        match yield_to_others(
            &display,
            &mut display_override,
            now,
            lux,
            timeout_s,
            reads.external.display,
        ) {
            Ok(_) => match yield_to_others(
                &keyboard,
                &mut keyboard_override,
                now,
                lux,
                timeout_s,
                reads.external.keyboard,
            ) {
                Ok(_) => {},
                Err(e) => {
                    error = Some(e);
                },
            },
            Err(e) => {
                error = Some(e);
            },
        }
        Settling {
            display,
            keyboard,
            display_override,
            keyboard_override,
            display_ended,
            keyboard_ended,
            error,
        }
    }

    /// Whether control is paused.
    fn is_paused(&self, now: u64) -> (b: bool)
        ensures
            b == self@.paused(now as int),
    {
        before(now, self.paused_until) || (self.open_pause && self.paused_until.is_some())
    }

    /// Whether `apply` goes by what the devices read.
    pub fn looks(&self, now: u64) -> (b: bool)
        ensures
            b == self@.looks(now as int),
    {
        !self.idle && !before(now, self.idle_resume_grace_until) && (!self.is_paused(now)
            || self.idle_resume_grace_until.is_some())
    }

    /// Whether a decision is made at all.
    pub fn acts(&self, now: u64) -> (b: bool)
        ensures
            b == self@.acts(now as int),
    {
        !self.idle && !before(now, self.idle_resume_grace_until) && !self.is_paused(now)
    }

    /// Whether `apply` can be called.
    pub fn can_apply(&self, now: u64, lux: Single, reads: &DecisionReads) -> (b: bool)
        ensures
            b == self@.can_decide(now as int, lux@, *reads),
    {
        if !self.acts(now) {
            return true;
        }
        let s = self.settle(now, lux, reads);
        if s.error.is_some() {
            return true;
        }
        (s.display_override.is_some() || !self.cfg.display.enabled || target_exists(
            &self.cfg.display,
            lux,
        )) && (s.keyboard_override.is_some() || !self.cfg.keyboard.enabled || target_exists(
            &self.cfg.keyboard,
            lux,
        ))
    }

    /// Decides which transitions to make for the light there is. Idleness, the
    /// time left to others after it, a pause and manual overrides are
    /// respected.
    pub fn apply(
        &mut self,
        now: u64,
        lux: Single,
        force: bool,
        reads: &DecisionReads,
    ) -> (r: Result<Decision, ReadError>)
        requires
            old(self)@.can_decide(now as int, lux@, *reads),
        ensures
            final(self)@ == old(self)@.decided(now as int, lux@, *reads),
            old(self).wf() ==> final(self).wf(),
            match r {
                Ok(decision) => {
                    &&& old(self)@.acts(now as int) ==> old(self)@.settled(
                        now as int,
                        lux@,
                        *reads,
                    ).1 is None
                    &&& old(self)@.calls_for(decision, now as int, lux@, force, *reads)
                },
                Err(e) => old(self)@.acts(now as int) && old(self)@.settled(
                    now as int,
                    lux@,
                    *reads,
                ).1 == Some(e),
            },
    {
        let nothing = Decision { display: None, keyboard: None, changed: false };
        if self.idle || before(now, self.idle_resume_grace_until) {
            return Ok(nothing);
        }
        if self.is_paused(now) {
            if self.idle_resume_grace_until.is_some() {
                self.idle_resume_grace_until = None;
                self.sync_baselines(&reads.after_grace);
            }
            return Ok(nothing);
        }
        let s = self.settle(now, lux, reads);
        self.idle_resume_grace_until = None;
        self.paused_until = None;
        self.display = s.display;
        self.keyboard = s.keyboard;
        self.display_override = s.display_override;
        self.keyboard_override = s.keyboard_override;
        if s.display_ended {
            self.last_targets.display = None;
        }
        if s.keyboard_ended {
            self.last_targets.keyboard = None;
        }
        if let Some(e) = s.error {
            return Err(e);
        }
        let nudge_ended = self.cfg.display.enabled && self.display_override.is_none()
            && light_moved(self.nudge_anchor, &self.cfg.display, lux);
        if nudge_ended {
            self.nudge_pct = 0;
            self.nudge_anchor = None;
            self.last_targets.display = None;
        } else if self.nudge_anchor.is_none() && self.nudge_pct != 0 {
            self.nudge_anchor = anchor_pct(&self.cfg.display, lux);
        }
        let display_target = if self.display_override.is_some() || !self.cfg.display.enabled {
            None
        } else {
            Some(compute_target(&self.cfg.display, lux, self.nudge_pct))
        };
        let keyboard_target = if self.keyboard_override.is_some() || !self.cfg.keyboard.enabled {
            None
        } else {
            Some(compute_target(&self.cfg.keyboard, lux, 0))
        };
        let display_needs = display_target.is_some() && (force || s.display_ended || nudge_ended
            || target_changed(
            self.last_targets.display,
            display_target,
            self.cfg.display.hysteresis_pct,
        ));
        let keyboard_needs = keyboard_target.is_some() && (force || s.keyboard_ended
            || target_changed(
            self.last_targets.keyboard,
            keyboard_target,
            self.cfg.keyboard.hysteresis_pct,
        ));
        Ok(
            Decision {
                display: if display_needs && self.display.is_some() {
                    display_target
                } else {
                    None
                },
                keyboard: if keyboard_needs && self.keyboard.is_some() {
                    keyboard_target
                } else {
                    None
                },
                changed: display_needs || keyboard_needs,
            },
        )
    }
}

/// Whether a deadline is set and yet to come.
fn before(now: u64, until: Option<u128>) -> (b: bool)
    ensures
        b == (until matches Some(until) && now < until),
{
    match until {
        Some(until) => (now as u128) < until,
        None => false,
    }
}

/// While the seat is idle, is left to others after that, or control is paused,
/// no transition is decided upon. Nothing changes, but for the end of the time
/// left to others.
pub proof fn law_hands_off(
    m: StateModel,
    decision: Decision,
    now: int,
    lux: Number,
    force: bool,
    reads: DecisionReads,
)
    requires
        m.idle || (m.grace_until is Some && now < m.grace_until->0) || (m.paused_until is Some
            && (m.open_pause || now < m.paused_until->0)),
        m.calls_for(decision, now, lux, force, reads),
    ensures
        decision.display is None,
        decision.keyboard is None,
        !decision.changed,
        m.decided(now, lux, reads) == m || m.decided(now, lux, reads) == (StateModel {
            grace_until: None,
            ..m.synced(reads.after_grace)
        }),
{
}

/// An override that is over, by its deadline or by a change of the light, ends
/// with the next decision, and does not come back for the value set by hand;
/// the target is acted upon however little it has changed.
pub proof fn law_override_ends(
    m: StateModel,
    now: int,
    lux: Number,
    force: bool,
    reads: DecisionReads,
)
    requires
        m.acts(now),
    ensures
        m.display.suspension matches Some(s) ==> (now >= s.until || drifted(
            s.anchor,
            lux,
            m.cfg.override_lux_drift_pct@,
        )) && m.display.unchanged(
            reads.after_override.display,
            reads.external.display,
        ) ==> {
            &&& m.decided(now, lux, reads).display.suspension is None
            &&& m.cfg.display.enabled ==> m.display_needed(now, lux, force, reads)
        },
        m.keyboard.suspension matches Some(s) ==> (now >= s.until || drifted(
            s.anchor,
            lux,
            m.cfg.override_lux_drift_pct@,
        )) && m.keyboard.unchanged(
            reads.after_override.keyboard,
            reads.external.keyboard,
        ) ==> {
            &&& m.decided(now, lux, reads).keyboard.suspension is None
            &&& m.cfg.keyboard.enabled ==> m.keyboard_needed(now, lux, force, reads)
        },
{
}

/// An override that is not over stays, and its channel gets no transition.
pub proof fn law_override_holds(
    m: StateModel,
    decision: Decision,
    now: int,
    lux: Number,
    force: bool,
    reads: DecisionReads,
)
    requires
        m.calls_for(decision, now, lux, force, reads),
    ensures
        m.display.suspension matches Some(s) ==> now < s.until && !drifted(
            s.anchor,
            lux,
            m.cfg.override_lux_drift_pct@,
        ) ==> {
            &&& m.decided(now, lux, reads).display.suspension == Some(s)
            &&& decision.display is None
        },
        m.keyboard.suspension matches Some(s) ==> now < s.until && !drifted(
            s.anchor,
            lux,
            m.cfg.override_lux_drift_pct@,
        ) ==> {
            &&& m.decided(now, lux, reads).keyboard.suspension == Some(s)
            &&& decision.keyboard is None
        },
{
}

/// As long as the devices can be read, the channels do not influence each
/// other: what is decided of one depends neither on the other's state and
/// device nor, for the keyboard, on the shift of the display's target.
pub proof fn law_channels_are_independent(
    m: StateModel,
    n: StateModel,
    now: int,
    lux: Number,
    force: bool,
    reads: DecisionReads,
    other: DecisionReads,
)
    requires
        m.cfg == n.cfg,
        m.idle == n.idle,
        m.grace_until == n.grace_until,
        m.paused_until == n.paused_until,
        m.open_pause == n.open_pause,
        m.settled(now, lux, reads).1 is None,
        n.settled(now, lux, other).1 is None,
    ensures
        m.display == n.display && m.nudge_pct == n.nudge_pct && m.nudge_anchor == n.nudge_anchor
            && reads.after_grace.display
            == other.after_grace.display && reads.after_pause.display == other.after_pause.display
            && reads.after_override.display == other.after_override.display
            && reads.external.display == other.external.display ==> {
            &&& m.decided(now, lux, reads).display == n.decided(now, lux, other).display
            &&& m.display_needed(now, lux, force, reads) == n.display_needed(now, lux, force, other)
        },
        m.keyboard == n.keyboard && reads.after_grace.keyboard == other.after_grace.keyboard
            && reads.after_pause.keyboard == other.after_pause.keyboard
            && reads.after_override.keyboard == other.after_override.keyboard
            && reads.external.keyboard == other.external.keyboard ==> {
            &&& m.decided(now, lux, reads).keyboard == n.decided(now, lux, other).keyboard
            &&& m.keyboard_needed(now, lux, force, reads) == n.keyboard_needed(
                now,
                lux,
                force,
                other,
            )
        },
{
}

/// Resuming ends a pause and all overrides. The values that the devices have
/// are taken over, so that they do not suspend a channel again, and the next
/// decision acts upon the targets however little they have changed.
pub proof fn law_resume_starts_over(
    m: StateModel,
    asked: int,
    readings: Readings,
    now: int,
    lux: Number,
    force: bool,
    reads: DecisionReads,
)
    requires
        !m.idle,
        m.grace_until is None,
    ensures
        ({
            let resumed = m.commanded(Request::Resume, Some(lux), asked, readings);
            let after = resumed.decided(now, lux, reads);
            &&& resumed.paused_until is None
            &&& resumed.display.suspension is None
            &&& resumed.keyboard.suspension is None
            &&& m.display.unchanged(readings.display, reads.external.display) ==> {
                &&& after.display.suspension is None
                &&& m.cfg.display.enabled ==> resumed.display_needed(now, lux, force, reads)
            }
            &&& m.keyboard.unchanged(readings.keyboard, reads.external.keyboard) ==> {
                &&& after.keyboard.suspension is None
                &&& m.cfg.keyboard.enabled ==> resumed.keyboard_needed(now, lux, force, reads)
            }
        }),
{
}

/// A shift lasts until the light changes. Once the display's curve leads
/// elsewhere than when the shift was asked for, and by the hysteresis at least,
/// the next decision that looks for the display's target ends the shift, and
/// acts upon the target without it.
pub proof fn law_nudge_ends_when_the_light_changes(
    m: StateModel,
    decision: Decision,
    now: int,
    lux: Number,
    force: bool,
    reads: DecisionReads,
)
    requires
        m.acts(now),
        m.cfg.display.enabled,
        m.settled(now, lux, reads).1 is None,
        m.settled(now, lux, reads).0.display.suspension is None,
        m.calls_for(decision, now, lux, force, reads),
    ensures
        m.nudge_anchor matches Some(anchor) ==> {
            let pct = curve_target(m.cfg.display, lux);
            !anchor.same(pct) && m.cfg.display.hysteresis_pct@.le(anchor.minus(pct).absolute())
                ==> {
                &&& m.decided(now, lux, reads).nudge_pct == 0
                &&& m.decided(now, lux, reads).nudge_anchor is None
                &&& m.decided(now, lux, reads).display.last_target is None
                &&& m.display.backlight is Some ==> number_of(decision.display) == Some(
                    target_of(m.cfg.display, lux, 0),
                )
            }
        },
{
}

/// A shift is kept by decisions in unchanged light, with any hysteresis, and
/// until the display's curve has moved by the hysteresis; one that is asked for
/// before the light is known is kept by the first decision. A target that is
/// acted upon meanwhile is shifted.
pub proof fn law_nudge_holds_in_steady_light(
    m: StateModel,
    decision: Decision,
    delta: i32,
    asked_in: Option<Number>,
    asked: int,
    readings: Readings,
    now: int,
    lux: Number,
    force: bool,
    reads: DecisionReads,
)
    requires
        asked_in is None || asked_in == Some(lux) || curve_target(m.cfg.display, asked_in->0).minus(
            curve_target(m.cfg.display, lux),
        ).absolute().lt(m.cfg.display.hysteresis_pct@),
        m.commanded(Request::Nudge { delta }, asked_in, asked, readings).calls_for(
            decision,
            now,
            lux,
            force,
            reads,
        ),
    ensures
        ({
            let shifted = m.commanded(Request::Nudge { delta }, asked_in, asked, readings);
            let nudge_pct = nudged(m.nudge_pct, delta as int);
            &&& shifted.decided(now, lux, reads).nudge_pct == nudge_pct
            &&& decision.display is Some ==> number_of(decision.display) == Some(
                target_of(m.cfg.display, lux, nudge_pct),
            )
        }),
{
}

/// A shift concerns the display only: what is decided of the keyboard is the
/// same with any shift.
pub proof fn law_nudge_shifts_the_display_only(
    m: StateModel,
    nudge_pct: int,
    nudge_anchor: Option<Number>,
    now: int,
    lux: Number,
    force: bool,
    reads: DecisionReads,
)
    ensures
        ({
            let other = StateModel { nudge_pct, nudge_anchor, ..m };
            &&& other.decided(now, lux, reads).keyboard == m.decided(now, lux, reads).keyboard
            &&& other.keyboard_needed(now, lux, force, reads) == m.keyboard_needed(
                now,
                lux,
                force,
                reads,
            )
        }),
{
}

/// A decision is made unless the seat is idle or left to others or control is
/// paused. For a channel that is in use, not suspended and left alone by others,
/// a transition is decided upon if that is forced, if there was no target
/// before, or if the target is at least the hysteresis away from the last one,
/// and otherwise none.
pub proof fn law_decision_follows_the_light(
    m: StateModel,
    decision: Decision,
    now: int,
    lux: Number,
    force: bool,
    reads: DecisionReads,
)
    requires
        !m.idle,
        m.grace_until is None,
        m.paused_until is None,
        m.calls_for(decision, now, lux, force, reads),
    ensures
        ({
            let channel = m.cfg.keyboard;
            let target = target_of(channel, lux, 0);
            let acts = force || m.keyboard.last_target is None || channel.hysteresis_pct@.le(
                m.keyboard.last_target->0.minus(target).absolute(),
            );
            channel.enabled && m.keyboard.suspension is None && m.keyboard.undisturbed(
                reads.external.keyboard,
            ) ==> {
                &&& acts ==> decision.changed
                &&& acts && m.keyboard.backlight is Some ==> number_of(decision.keyboard) == Some(
                    target,
                )
                &&& !acts ==> decision.keyboard is None
            }
        }),
        ({
            let channel = m.cfg.display;
            let pct = curve_target(channel, lux);
            let over = m.nudge_anchor matches Some(anchor) && !anchor.same(pct)
                && channel.hysteresis_pct@.le(anchor.minus(pct).absolute());
            let target = target_of(
                channel,
                lux,
                if over {
                    0
                } else {
                    m.nudge_pct
                },
            );
            let acts = force || over || m.display.last_target is None || channel.hysteresis_pct@.le(
                m.display.last_target->0.minus(target).absolute(),
            );
            channel.enabled && m.display.suspension is None && m.display.undisturbed(
                reads.external.display,
            ) ==> {
                &&& acts ==> decision.changed
                &&& acts && m.display.backlight is Some ==> number_of(decision.display) == Some(
                    target,
                )
                &&& !acts ==> decision.display is None
            }
        }),
{
}

/// The hysteresis in real numbers: a keyboard that is in use, not suspended and
/// left alone by others gets a transition for a target that differs from the
/// last one by more than the hysteresis, and none for one that differs by less,
/// up to rounding. So does a display with a shift that is yet to be anchored, or
/// none.
pub proof fn law_hysteresis_decides(
    m: StateModel,
    decision: Decision,
    now: int,
    lux: Number,
    reads: DecisionReads,
)
    requires
        !m.idle,
        m.grace_until is None,
        m.paused_until is None,
        m.calls_for(decision, now, lux, false, reads),
    ensures
        ({
            let channel = m.cfg.keyboard;
            let target = target_of(channel, lux, 0);
            let last = m.keyboard.last_target;
            let change = abs_real(last->0.value() - target.value());
            let slack = change * exp2(-24) + exp2(-150);
            m.keyboard.backlight is Some && channel.enabled && m.keyboard.suspension is None
                && m.keyboard.undisturbed(reads.external.keyboard) && last is Some
                && moderate(last->0) && moderate(target) && channel.hysteresis_pct@ is Finite ==> {
                &&& change > channel.hysteresis_pct@.value() + slack ==> number_of(
                    decision.keyboard,
                ) == Some(target)
                &&& change < channel.hysteresis_pct@.value() - slack
                    ==> decision.keyboard is None
            }
        }),
        ({
            let channel = m.cfg.display;
            let target = target_of(channel, lux, m.nudge_pct);
            let last = m.display.last_target;
            let change = abs_real(last->0.value() - target.value());
            let slack = change * exp2(-24) + exp2(-150);
            m.display.backlight is Some && channel.enabled && m.display.suspension is None
                && m.display.undisturbed(reads.external.display) && m.nudge_anchor is None
                && last is Some
                && moderate(last->0) && moderate(target) && channel.hysteresis_pct@ is Finite ==> {
                &&& change > channel.hysteresis_pct@.value() + slack ==> number_of(
                    decision.display,
                ) == Some(target)
                &&& change < channel.hysteresis_pct@.value() - slack
                    ==> decision.display is None
            }
        }),
{
    law_decision_follows_the_light(m, decision, now, lux, false, reads);
    let display_target = target_of(m.cfg.display, lux, m.nudge_pct);
    if m.display.last_target is Some && moderate(m.display.last_target->0) && moderate(
        display_target,
    ) {
        lemma_distance(m.display.last_target->0, display_target);
    }
    let keyboard_target = target_of(m.cfg.keyboard, lux, 0);
    if m.keyboard.last_target is Some && moderate(m.keyboard.last_target->0) && moderate(
        keyboard_target,
    ) {
        lemma_distance(m.keyboard.last_target->0, keyboard_target);
    }
}

/// A change by others suspends its own channel when a decision is made, from
/// then on for the time that is configured and in the light there is. Nothing
/// else suspends a channel, and a suspended one gets no transition.
pub proof fn law_decision_yields_to_others(
    m: StateModel,
    decision: Decision,
    now: int,
    lux: Number,
    force: bool,
    reads: DecisionReads,
)
    requires
        !m.idle,
        m.grace_until is None,
        m.paused_until is None,
        reads.external.display is Ok,
        reads.external.keyboard is Ok,
        m.calls_for(decision, now, lux, force, reads),
    ensures
        m.display.suspension is None ==> {
            let after = m.decided(now, lux, reads).display;
            &&& m.display.undisturbed(reads.external.display) ==> after.suspension is None
            &&& !m.display.undisturbed(reads.external.display) ==> {
                &&& decision.display is None
                &&& after.suspension matches Some(s)
                &&& s.until == now + m.cfg.override_timeout_s * 1_000_000_000
                &&& s.anchor == lux
            }
        },
        m.keyboard.suspension is None ==> {
            let after = m.decided(now, lux, reads).keyboard;
            &&& m.keyboard.undisturbed(reads.external.keyboard) ==> after.suspension is None
            &&& !m.keyboard.undisturbed(reads.external.keyboard) ==> {
                &&& decision.keyboard is None
                &&& after.suspension matches Some(s)
                &&& s.until == now + m.cfg.override_timeout_s * 1_000_000_000
                &&& s.anchor == lux
            }
        },
{
}

/// A decision fails if and only if a device that is not suspended and that
/// something was written to cannot be read. The display's failure comes first.
pub proof fn law_unreadable_devices_are_reported(
    m: StateModel,
    now: int,
    lux: Number,
    reads: DecisionReads,
)
    requires
        m.grace_until is None,
        m.paused_until is None,
        m.display.suspension is None,
        m.keyboard.suspension is None,
    ensures
        ({
            let error = m.settled(now, lux, reads).1;
            let display_written = m.display.backlight is Some
                && m.display.backlight->0.last_written is Some;
            let keyboard_written = m.keyboard.backlight is Some
                && m.keyboard.backlight->0.last_written is Some;
            &&& reads.external.display matches Err(e) ==> display_written ==> error == Some(e)
            &&& reads.external.keyboard matches Err(e) ==> keyboard_written && (
            reads.external.display is Ok || !display_written) ==> error == Some(e)
            &&& (reads.external.display is Ok || !display_written) && (reads.external.keyboard is Ok
                || !keyboard_written) ==> error is None
        }),
{
}

/// Once the time left to others or a pause is over, the next decision takes the
/// values that the devices have over, so that they do not suspend a channel.
pub proof fn law_control_returns(m: StateModel, now: int, lux: Number, reads: DecisionReads)
    requires
        !m.idle,
        reads.external.display is Ok,
        reads.external.keyboard is Ok,
        m.display.suspension is None,
        m.keyboard.suspension is None,
    ensures
        m.grace_until matches Some(until) ==> m.paused_until is None && now >= until ==> {
            let after = m.decided(now, lux, reads);
            &&& after.grace_until is None
            &&& m.display.unchanged(reads.after_grace.display, reads.external.display)
                ==> after.display.suspension is None
            &&& m.keyboard.unchanged(reads.after_grace.keyboard, reads.external.keyboard)
                ==> after.keyboard.suspension is None
        },
        m.paused_until matches Some(until) ==> m.grace_until is None && now >= until
            && !m.open_pause ==> {
            let after = m.decided(now, lux, reads);
            &&& after.paused_until is None
            &&& m.display.unchanged(reads.after_pause.display, reads.external.display)
                ==> after.display.suspension is None
            &&& m.keyboard.unchanged(reads.after_pause.keyboard, reads.external.keyboard)
                ==> after.keyboard.suspension is None
        },
{
}

/// What each command and each change of the seat does: a pause sets its end, a
/// year ahead if it lasts until it is ended, resuming clears the pause, the
/// overrides and the last targets, a shift is added up to its limits, an active
/// seat is left to others for the time that is configured. Nothing else changes.
pub proof fn law_commands_do_what_they_say(
    m: StateModel,
    seconds: u64,
    delta: i32,
    lux: Option<Number>,
    now: int,
    readings: Readings,
)
    ensures
        ({
            let after = m.commanded(Request::Pause { seconds }, lux, now, readings);
            &&& after == (StateModel {
                paused_until: after.paused_until,
                open_pause: seconds == 0,
                ..m
            })
            &&& seconds > 0 ==> after.paused_until == Some(now + seconds * 1_000_000_000)
            &&& seconds == 0 ==> after.paused_until == Some(now + 31_536_000 * 1_000_000_000)
        }),
        ({
            let after = m.commanded(Request::Nudge { delta }, lux, now, readings);
            let sum = m.nudge_pct + delta;
            &&& after == (StateModel {
                nudge_pct: after.nudge_pct,
                nudge_anchor: after.nudge_anchor,
                ..m
            })
            &&& -50 <= sum <= 50 ==> after.nudge_pct == sum
            &&& sum < -50 ==> after.nudge_pct == -50
            &&& sum > 50 ==> after.nudge_pct == 50
        }),
        ({
            let after = m.commanded(Request::Resume, lux, now, readings);
            &&& after == (StateModel {
                paused_until: None,
                open_pause: false,
                display: after.display,
                keyboard: after.keyboard,
                ..m
            })
            &&& after.display.suspension is None && after.display.last_target is None
            &&& after.keyboard.suspension is None && after.keyboard.last_target is None
            &&& m.display.backlight matches Some(b) ==> readings.display matches Ok(raw)
                ==> after.display.backlight == Some(
                Backlight { max: b.max, last_written: Some(raw) },
            )
            &&& m.keyboard.backlight matches Some(b) ==> readings.keyboard matches Ok(raw)
                ==> after.keyboard.backlight == Some(
                Backlight { max: b.max, last_written: Some(raw) },
            )
        }),
        m.commanded(Request::Status, lux, now, readings) == m,
        m.notified(IdleEvent::Idled, now) == (StateModel { idle: true, ..m }),
        m.notified(IdleEvent::Resumed, now) == (StateModel {
            idle: false,
            grace_until: Some(now + m.cfg.idle_resume_grace_ms * 1_000_000),
            ..m
        }),
{
}

/// The status tells what is known: the last sample of the light, the brightness
/// of each device that can be read as a percentage, the end of a pause, and each
/// channel's own override.
pub proof fn law_status_tells_the_truth(
    state: State,
    status: StatusReply,
    sample: Option<LuxSample>,
    now: u64,
    unix_now: u64,
    readings: Readings,
)
    requires
        state.reports(status, sample, now, unix_now, readings),
    ensures
        sample matches Some(sample) ==> status.lux_raw == sample.raw && status.lux_smoothed
            == sample.smoothed,
        sample is None ==> status.lux_raw@.same(Number::of_int(0)) && status.lux_smoothed@.same(
            Number::of_int(0),
        ),
        status.idle == state.idle,
        status.nudge_pct == state.nudge_pct,
        status.display_override_active == (state.display_override is Some),
        status.keyboard_override_active == (state.keyboard_override is Some),
        (status.paused_until_unix is Some) == (state.paused_until is Some),
        state.paused_until matches Some(until) ==> {
            let left = status.paused_until_unix->0 - unix_now;
            &&& now >= until ==> left == 0
            &&& now < until ==> left * 1_000_000_000 <= until - now < (left + 1) * 1_000_000_000
        },
        (status.display_pct is Some) == (state.display is Some && readings.display is Ok),
        (status.keyboard_pct is Some) == (state.keyboard is Some && readings.keyboard is Ok),
        state.display matches Some(b) ==> readings.display matches Ok(raw)
            ==> status.display_pct->0@ == pct_of(raw, b.max),
        state.keyboard matches Some(b) ==> readings.keyboard matches Ok(raw)
            ==> status.keyboard_pct->0@ == pct_of(raw, b.max),
{
}

/// A shift is anchored where the light is known: on what the display's curve
/// gives when it is asked for, or else at the first decision that is made.
pub proof fn law_nudge_is_anchored(
    m: StateModel,
    delta: i32,
    asked_in: Option<Number>,
    asked: int,
    readings: Readings,
    now: int,
    lux: Number,
    reads: DecisionReads,
)
    requires
        m.cfg.display.curve@.len() > 0,
    ensures
        ({
            let shifted = m.commanded(Request::Nudge { delta }, asked_in, asked, readings);
            &&& asked_in matches Some(light) ==> shifted.nudge_anchor == Some(
                curve_target(m.cfg.display, light),
            )
            &&& asked_in is None ==> shifted.nudge_anchor is None
        }),
        !m.idle && m.grace_until is None && m.paused_until is None && reads.external.display is Ok
            && reads.external.keyboard is Ok && m.nudge_anchor is None && m.nudge_pct != 0
            ==> m.decided(now, lux, reads).nudge_anchor == Some(curve_target(m.cfg.display, lux)),
        m.nudge_anchor is None && m.nudge_pct == 0 ==> m.decided(
            now,
            lux,
            reads,
        ).nudge_anchor is None,
{
}

/// With a configuration without faults whose floors are no higher than 100
/// percent, every decision can be made.
pub proof fn law_usable_configuration_is_served(
    m: StateModel,
    now: int,
    lux: Number,
    reads: DecisionReads,
)
    requires
        m.cfg.fault() is None,
        m.cfg.display.min_pct@.le(Number::of_int(100)),
        m.cfg.keyboard.min_pct@.le(Number::of_int(100)),
    ensures
        m.can_decide(now, lux, reads),
{
}

/// Every command is carried out: a pause and resuming always, a shift as long as
/// the sum can be counted, and the status as long as the end of a pause can.
pub proof fn law_commands_are_carried_out(
    m: StateModel,
    seconds: u64,
    delta: i32,
    now: int,
    unix_now: int,
)
    ensures
        m.can_handle(Request::Pause { seconds }, now, unix_now),
        m.can_handle(Request::Resume, now, unix_now),
        -0x8000_0000 <= m.nudge_pct + delta <= 0x7fff_ffff ==> m.can_handle(
            Request::Nudge { delta },
            now,
            unix_now,
        ),
        m.paused_until is None ==> m.can_handle(Request::Status, now, unix_now),
        m.paused_until matches Some(until) ==> 0 <= unix_now && now <= until && unix_now
            * 1_000_000_000 + (until - now) <= u64::MAX * 1_000_000_000 ==> m.can_handle(
            Request::Status,
            now,
            unix_now,
        ),
{
}

/// A device that is in use and not usable keeps the daemon from starting, for
/// the reason that it is not usable, and nothing else does.
pub proof fn law_obstacles(channel: Channel, probe: DeviceProbe)
    ensures
        !channel.enabled ==> obstacle(channel, probe) is None,
        opened(channel, probe) is Ok ==> obstacle(channel, probe) is None,
        opened(channel, probe) matches Err(fault) ==> channel.enabled ==> obstacle(channel, probe)
            == Some(fault),
{
}

/// Whatever keeps a decision from being made, only the time that was waited for,
/// the overrides, the shift and the last targets change with one: not the pause
/// that lasts, the seat, the light that the last transitions were made for, nor
/// the configuration.
pub proof fn law_decision_leaves_the_rest(
    m: StateModel,
    now: int,
    lux: Number,
    reads: DecisionReads,
)
    ensures
        ({
            let after = m.decided(now, lux, reads);
            &&& after.cfg == m.cfg
            &&& after.idle == m.idle
            &&& after.open_pause == m.open_pause
            &&& after.last_lux == m.last_lux
            &&& after.nudge_pct == m.nudge_pct || after.nudge_pct == 0
            &&& after.display.last_target == m.display.last_target
                || after.display.last_target is None
            &&& after.keyboard.last_target == m.keyboard.last_target
                || after.keyboard.last_target is None
            &&& m.keyboard.suspension is None ==> after.keyboard.last_target
                == m.keyboard.last_target
        }),
{
}

/// The first decision after the time left to others or a pause goes by the same
/// rule: a channel that is in use, not suspended and not changed since the wait
/// was over gets a transition if that is forced, if there was no target before,
/// or if the target is at least the hysteresis away from the last one.
pub proof fn law_decision_after_a_wait(
    m: StateModel,
    decision: Decision,
    now: int,
    lux: Number,
    force: bool,
    reads: DecisionReads,
)
    requires
        !m.idle,
        m.grace_until is Some || m.paused_until is Some,
        m.grace_until is Some ==> now >= m.grace_until->0,
        m.paused_until is Some ==> !m.open_pause && now >= m.paused_until->0,
        m.calls_for(decision, now, lux, force, reads),
    ensures
        ({
            let channel = m.cfg.keyboard;
            let target = target_of(channel, lux, 0);
            let taken_over = if m.paused_until is Some {
                reads.after_pause.keyboard
            } else {
                reads.after_grace.keyboard
            };
            let acts = force || m.keyboard.last_target is None || channel.hysteresis_pct@.le(
                m.keyboard.last_target->0.minus(target).absolute(),
            );
            channel.enabled && m.keyboard.suspension is None && m.keyboard.backlight is Some
                && m.keyboard.unchanged(taken_over, reads.external.keyboard) ==> {
                &&& acts ==> number_of(decision.keyboard) == Some(target)
                &&& !acts ==> decision.keyboard is None
            }
        }),
        ({
            let channel = m.cfg.display;
            let target = target_of(channel, lux, m.nudge_pct);
            let taken_over = if m.paused_until is Some {
                reads.after_pause.display
            } else {
                reads.after_grace.display
            };
            let acts = force || m.display.last_target is None || channel.hysteresis_pct@.le(
                m.display.last_target->0.minus(target).absolute(),
            );
            channel.enabled && m.display.suspension is None && m.display.backlight is Some
                && m.nudge_anchor is None && m.display.unchanged(
                taken_over,
                reads.external.display,
            ) ==> {
                &&& acts ==> number_of(decision.display) == Some(target)
                &&& !acts ==> decision.display is None
            }
        }),
{
}

/// It matters what the devices read if and only if the seat is in use and the
/// time left to others is over, unless control is paused and nothing else was
/// waited for. Where it does not, a decision changes nothing.
pub proof fn law_when_devices_are_looked_at(
    m: StateModel,
    now: int,
    lux: Number,
    reads: DecisionReads,
)
    ensures
        m.looks(now) <==> {
            &&& !m.idle
            &&& m.grace_until is Some ==> now >= m.grace_until->0
            &&& m.paused_until is Some && (m.open_pause || now < m.paused_until->0)
                ==> m.grace_until is Some
        },
        !m.looks(now) ==> m.decided(now, lux, reads) == m,
{
}

/// Nothing is decided upon, and no target counts as changed, if neither channel
/// has anything to act upon: each is not in use, or suspended for the time being,
/// or left alone by others with a target closer to the last one than the
/// hysteresis.
pub proof fn law_nothing_to_act_upon(
    m: StateModel,
    decision: Decision,
    now: int,
    lux: Number,
    reads: DecisionReads,
)
    requires
        m.nudge_anchor is None,
        m.paused_until is None,
        m.grace_until is None,
        m.calls_for(decision, now, lux, false, reads),
        !m.cfg.display.enabled || (m.display.suspension is Some && now
            < m.display.suspension->0.until && !drifted(
            m.display.suspension->0.anchor,
            lux,
            m.cfg.override_lux_drift_pct@,
        )) || (m.display.suspension is None && m.display.undisturbed(reads.external.display)
            && m.display.last_target is Some && !m.cfg.display.hysteresis_pct@.le(
            m.display.last_target->0.minus(
                target_of(m.cfg.display, lux, m.nudge_pct),
            ).absolute(),
        )),
        !m.cfg.keyboard.enabled || (m.keyboard.suspension is Some && now
            < m.keyboard.suspension->0.until && !drifted(
            m.keyboard.suspension->0.anchor,
            lux,
            m.cfg.override_lux_drift_pct@,
        )) || (m.keyboard.suspension is None && m.keyboard.undisturbed(reads.external.keyboard)
            && m.keyboard.last_target is Some && !m.cfg.keyboard.hysteresis_pct@.le(
            m.keyboard.last_target->0.minus(target_of(m.cfg.keyboard, lux, 0)).absolute(),
        )),
    ensures
        decision.display is None,
        decision.keyboard is None,
        !decision.changed,
{
}

}
