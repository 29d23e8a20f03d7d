//! The control loop: what each event does to the daemon's state, and what is
//! to be done about it.
//!
//! Every wait condition is an event, and one thread owns all state. What the
//! loop needs from outside is handed in with the event: the clocks, what the
//! sensor and the devices read.

use crate::channel::{
    anchor_pct, anchored, curve_anchor, drifted, explains, initial, lemma_distance, light_moved,
    moderate, moved, number_of, target_of, ChannelModel, ChannelReads, ChannelState, Pass,
    PassModel, NANOS_PER_SECOND,
};
use crate::config::{Channel, Config};
use crate::curve::curve_target;
use crate::idle::IdleEvent;
use crate::ipc::{bad_request, Reply, Request, StatusReply};
use crate::output::{pct_of, raw_of, Backlight, ChannelKind, DeviceProbe, OpenError, ReadError};
use crate::ramp::{law_ramp_ends_at_target, ramp_values};
use crate::rounding::exp2;
use crate::sensor::{average, Sensor};
use crate::single::{abs_real, Number, Single};
use vstd::prelude::*;

verus! {

/// Nanoseconds in a millisecond.
pub const NANOS_PER_MILLI: u128 = 1_000_000;

/// What is told to be left of a pause that lasts until it is ended: a year.
pub const OPEN_PAUSE_S: u64 = 31_536_000;

/// How far the display's target can be shifted either way, in percent.
pub const NUDGE_LIMIT: i32 = 50;

/// What the devices' files hold now.
#[derive(Clone, Copy, Debug)]
pub struct Readings {
    pub display: Result<u32, ReadError>,
    pub keyboard: Result<u32, ReadError>,
}

/// What the devices' files held, each time that one pass reads them.
#[derive(Clone, Copy, Debug)]
pub struct PassReads {
    pub display: ChannelReads,
    pub keyboard: ChannelReads,
}

/// The daemon's configuration and state.
pub struct ReactorModel {
    pub cfg: Config,
    pub display_cfg: Channel,
    pub keyboard_cfg: Channel,
    pub alpha: Number,
    pub display: ChannelModel,
    pub keyboard: ChannelModel,
    pub raw: Number,
    pub smoothed: Number,
    pub average: Option<Number>,
    pub paused_until: Option<int>,
    pub open_pause: bool,
    pub idle: bool,
    pub in_grace: bool,
    pub arm_grace: bool,
    pub nudge_pct: int,
    pub nudge_anchor: Option<Number>,
}

/// All that the control loop knows.
#[derive(Debug)]
pub struct Reactor {
    pub cfg: Config,
    pub sensor: Sensor,
    pub display: ChannelState,
    pub keyboard: ChannelState,
    /// The last reading of the light sensor.
    pub raw: Single,
    /// The moving average of the readings.
    pub smoothed: Single,
    /// When a pause ends, or is told to end.
    pub paused_until: Option<u128>,
    /// The pause lasts until it is ended.
    pub open_pause: bool,
    /// The seat is idle.
    pub idle: bool,
    /// The seat is active again, but still left to others.
    pub in_grace: bool,
    /// The seat is active again, and the time left to others has yet to start.
    pub arm_grace: bool,
    /// Shift of the display's target, in percent.
    pub nudge_pct: i32,
    /// What the display's curve gave when its target was shifted, or in the
    /// first pass after that if the light was not known yet. The shift ends when
    /// the curve leads elsewhere.
    pub nudge_anchor: Option<Single>,
}

impl View for Reactor {
    type V = ReactorModel;

    open spec fn view(&self) -> ReactorModel {
        ReactorModel {
            cfg: self.cfg,
            display_cfg: self.display.cfg,
            keyboard_cfg: self.keyboard.cfg,
            alpha: self.sensor.alpha@,
            display: self.display@,
            keyboard: self.keyboard@,
            raw: self.raw@,
            smoothed: self.smoothed@,
            average: self.sensor.average(),
            paused_until: match self.paused_until {
                Some(until) => Some(until as int),
                None => None,
            },
            open_pause: self.open_pause,
            idle: self.idle,
            in_grace: self.in_grace,
            arm_grace: self.arm_grace,
            nudge_pct: self.nudge_pct as int,
            nudge_anchor: number_of(self.nudge_anchor),
        }
    }
}

impl ReactorModel {
    /// Whether a pass does anything at all.
    pub open spec fn acts(self, now: int) -> bool {
        &&& !self.idle
        &&& !self.arm_grace
        &&& !self.in_grace
        &&& !self.paused(now)
    }

    /// Whether nothing may be written: the seat is idle or left to others, or
    /// control was paused and no pass was made since.
    pub open spec fn holds_back(self) -> bool {
        self.idle || self.arm_grace || self.in_grace || self.paused_until is Some
    }

    /// Whether the light has changed since the display's target was shifted.
    pub open spec fn nudge_over(self) -> bool {
        moved(self.nudge_anchor, self.display_cfg, self.smoothed)
    }

    /// The shift of the display's target that is still due.
    pub open spec fn shift(self) -> int {
        if self.nudge_over() {
            0
        } else {
            self.nudge_pct
        }
    }

    /// Whether a pass ends the shift: the light has changed, and the display's
    /// target is looked for.
    pub open spec fn nudge_ends(self, now: int, force: bool, reads: PassReads) -> bool {
        &&& self.nudge_over()
        &&& self.display_cfg.enabled
        &&& self.display.settled(self.pass(now, force), reads.display).suspension is None
    }

    /// Whether control is paused.
    pub open spec fn paused(self, now: int) -> bool {
        self.paused_until matches Some(until) && (self.open_pause || now < until)
    }

    /// What a pass goes by.
    pub open spec fn pass(self, now: int, force: bool) -> PassModel {
        PassModel {
            now,
            lux: self.smoothed,
            drift_pct: self.cfg.override_lux_drift_pct@,
            timeout_s: self.cfg.override_timeout_s as int,
            steps: self.cfg.ramp_steps,
            force,
            resumed: self.paused_until is Some,
        }
    }

    /// The display after a pass, and whether a transition was started.
    pub open spec fn display_passed(self, now: int, force: bool, reads: PassReads) -> (
        ChannelModel,
        bool,
    ) {
        self.display.passed(
            self.display_cfg,
            self.pass(now, force || self.nudge_over()),
            self.shift(),
            reads.display,
        )
    }

    /// The keyboard after a pass, and whether a transition was started.
    pub open spec fn keyboard_passed(self, now: int, force: bool, reads: PassReads) -> (
        ChannelModel,
        bool,
    ) {
        self.keyboard.passed(self.keyboard_cfg, self.pass(now, force), 0, reads.keyboard)
    }

    /// Whether a transition is started in a pass.
    pub open spec fn ramp_starts(self, now: int, force: bool, reads: PassReads) -> bool {
        &&& self.acts(now)
        &&& self.display_passed(now, force, reads).1 || self.keyboard_passed(now, force, reads).1
    }

    /// Whether a pass can be made: channels that it looks for a target for
    /// have one, and a transition that it starts has steps.
    pub open spec fn can_apply(self, now: int, force: bool, reads: PassReads) -> bool {
        self.acts(now) ==> {
            let pass = self.pass(now, force);
            &&& self.display.passable(self.display_cfg, pass, reads.display)
            &&& self.keyboard.passable(self.keyboard_cfg, pass, reads.keyboard)
            &&& self.ramp_starts(now, force, reads) ==> self.cfg.ramp_steps > 0
        }
    }

    /// The state after a pass.
    pub open spec fn applied(self, now: int, force: bool, reads: PassReads) -> ReactorModel {
        if self.acts(now) {
            ReactorModel {
                display: self.display_passed(now, force, reads).0,
                keyboard: self.keyboard_passed(now, force, reads).0,
                paused_until: None,
                nudge_pct: if self.nudge_ends(now, force, reads) {
                    0
                } else {
                    self.nudge_pct
                },
                nudge_anchor: if self.nudge_ends(now, force, reads) {
                    None
                } else {
                    anchored(
                        self.nudge_anchor,
                        self.nudge_pct,
                        self.display_cfg,
                        self.smoothed,
                    )
                },
                ..self
            }
        } else {
            self
        }
    }

    /// The interval at which to step, if a pass started a transition.
    pub open spec fn interval_after(self, now: int, force: bool, reads: PassReads) -> Option<int> {
        if self.ramp_starts(now, force, reads) {
            Some(ramp_interval(self.cfg))
        } else {
            None
        }
    }

    /// Whether a request can be carried out: the time of a pause's end and the
    /// shift of the target must be within what the machine counts.
    pub open spec fn can_handle(self, request: Request, now: int, unix_now: int) -> bool {
        match request {
            Request::Status => self.paused_until matches Some(until) ==> pause_end_unix(
                until,
                now,
                unix_now,
            ) <= u64::MAX,
            Request::Nudge { delta } => i32::MIN <= self.nudge_pct + delta <= i32::MAX,
            _ => true,
        }
    }

    /// The state after a request.
    pub open spec fn requested(
        self,
        request: Request,
        now: int,
        readings: Readings,
    ) -> ReactorModel {
        match request {
            Request::Status => self,
            Request::Pause { seconds } => ReactorModel {
                paused_until: Some(pause_end(now, seconds)),
                open_pause: seconds == 0,
                ..self.quiet()
            },
            Request::Resume => {
                let fresh = self.starting_over(readings);
                ReactorModel {
                    paused_until: None,
                    open_pause: false,
                    display: ChannelModel { suspension: None, ..fresh.display },
                    keyboard: ChannelModel { suspension: None, ..fresh.keyboard },
                    ..fresh
                }
            },
            Request::Nudge { delta } => ReactorModel {
                nudge_pct: nudged(self.nudge_pct, delta as int),
                nudge_anchor: if self.average is Some {
                    curve_anchor(self.display_cfg, self.smoothed)
                } else {
                    None
                },
                ..self
            },
        }
    }

    /// After a reading of the light sensor.
    pub open spec fn sampled(self, raw: Number) -> ReactorModel {
        let smoothed = average(self.alpha, self.average, raw);
        ReactorModel { raw, smoothed, average: Some(smoothed), ..self }
    }

    /// After the seat became idle or active.
    pub open spec fn notified(self, event: IdleEvent) -> ReactorModel {
        match event {
            IdleEvent::Idled => ReactorModel { idle: true, ..self.quiet() },
            IdleEvent::Resumed => ReactorModel { idle: false, arm_grace: true, ..self.quiet() },
        }
    }

    /// After the time left to others has started, if it is due.
    pub open spec fn grace_started(self) -> ReactorModel {
        if self.arm_grace {
            ReactorModel { arm_grace: false, in_grace: true, ..self }
        } else {
            self
        }
    }

    /// After the time left to others is over.
    pub open spec fn grace_ended(self, readings: Readings) -> ReactorModel {
        ReactorModel { in_grace: false, ..self.starting_over(readings) }
    }

    /// Nothing is left to write of a transition.
    pub open spec fn quiet(self) -> ReactorModel {
        ReactorModel { display: self.display.quiet(), keyboard: self.keyboard.quiet(), ..self }
    }

    /// After a step of the transitions. They are dropped where nothing may be
    /// written.
    pub open spec fn stepped(self) -> ReactorModel {
        if self.holds_back() {
            self.quiet()
        } else {
            ReactorModel {
                display: self.display.stepped().0,
                keyboard: self.keyboard.stepped().0,
                ..self
            }
        }
    }

    /// What a step writes to the display.
    pub open spec fn display_write(self) -> Option<u32> {
        if self.holds_back() {
            None
        } else {
            self.display.stepped().1
        }
    }

    /// What a step writes to the keyboard's light.
    pub open spec fn keyboard_write(self) -> Option<u32> {
        if self.holds_back() {
            None
        } else {
            self.keyboard.stepped().1
        }
    }

    /// Both channels take what their devices have for their own, and forget
    /// their targets.
    pub open spec fn starting_over(self, readings: Readings) -> ReactorModel {
        ReactorModel {
            display: self.display.adopting(readings.display).forgetting(),
            keyboard: self.keyboard.adopting(readings.keyboard).forgetting(),
            ..self
        }
    }
}

/// The time from one step of a transition to the next.
pub open spec fn ramp_interval(cfg: Config) -> int {
    (cfg.ramp_duration_ms * NANOS_PER_MILLI) / cfg.ramp_steps as int
}

/// A sum limited to what the target can be shifted by.
pub open spec fn nudged(nudge_pct: int, delta: int) -> int {
    let sum = nudge_pct + delta;
    if sum < -NUDGE_LIMIT {
        -NUDGE_LIMIT
    } else if sum > NUDGE_LIMIT {
        NUDGE_LIMIT as int
    } else {
        sum
    }
}

/// When a pause ends that starts now, or is told to end.
pub open spec fn pause_end(now: int, seconds: u64) -> int {
    now + (if seconds == 0 {
        OPEN_PAUSE_S
    } else {
        seconds
    }) * NANOS_PER_SECOND
}

/// When a pause ends, in seconds on the wall clock.
pub open spec fn pause_end_unix(until: int, now: int, unix_now: int) -> int {
    unix_now + (if now < until {
        until - now
    } else {
        0
    }) / NANOS_PER_SECOND as int
}

impl Reactor {
    /// The target can be shifted only so far.
    pub open spec fn wf(self) -> bool {
        -NUDGE_LIMIT <= self.nudge_pct <= NUDGE_LIMIT
    }

    /// Whether a pass does anything at all, and so whether it needs to know what
    /// the devices read.
    pub fn acts(&self, now: u64) -> (b: bool)
        ensures
            b == self@.acts(now as int),
    {
        let paused = match self.paused_until {
            Some(until) => self.open_pause || (now as u128) < until,
            None => false,
        };
        !self.idle && !self.arm_grace && !self.in_grace && !paused
    }

    /// Decides the targets for the light there is, and starts transitions
    /// towards them. Idleness, the time left to others after it, a pause and
    /// manual overrides are respected. Tells at what interval to step, if a
    /// transition was started.
    pub fn apply(&mut self, now: u64, force: bool, reads: &PassReads) -> (interval: Option<u128>)
        requires
            old(self)@.can_apply(now as int, force, *reads),
        ensures
            final(self).sensor.device == old(self).sensor.device,
            final(self)@ == old(self)@.applied(now as int, force, *reads),
            match interval {
                Some(nanos) => old(self)@.interval_after(now as int, force, *reads) == Some(
                    nanos as int,
                ),
                None => old(self)@.interval_after(now as int, force, *reads) is None,
            },
    {
        if !self.acts(now) {
            return None;
        }
        let resumed = self.paused_until.is_some();
        self.paused_until = None;
        let pass = Pass {
            now,
            lux: self.smoothed,
            drift_pct: self.cfg.override_lux_drift_pct,
            timeout_s: self.cfg.override_timeout_s,
            steps: self.cfg.ramp_steps,
            force,
            resumed,
        };
        let display_ended = self.display.settle(&pass, &reads.display);
        let keyboard_ended = self.keyboard.settle(&pass, &reads.keyboard);
        let nudge_ended = self.display.cfg.enabled && self.display.override_state.is_none()
            && light_moved(self.nudge_anchor, &self.display.cfg, self.smoothed);
        if nudge_ended {
            self.nudge_pct = 0;
            self.nudge_anchor = None;
        } else if self.nudge_anchor.is_none() && self.nudge_pct != 0 {
            self.nudge_anchor = anchor_pct(&self.display.cfg, self.smoothed);
        }
        let display_started = self.display.aim(
            &pass,
            self.nudge_pct,
            force || display_ended || nudge_ended,
            reads.display.ramp_from,
        );
        let keyboard_started = self.keyboard.aim(
            &pass,
            0,
            force || keyboard_ended,
            reads.keyboard.ramp_from,
        );
        if display_started || keyboard_started {
            Some(self.cfg.ramp_duration_ms as u128 * NANOS_PER_MILLI / self.cfg.ramp_steps as u128)
        } else {
            None
        }
    }

    /// Both channels take what their devices have for their own.
    pub fn sync_baselines(&mut self, readings: &Readings)
        ensures
            final(self).sensor.device == old(self).sensor.device,
            final(self)@ == (ReactorModel {
                display: old(self)@.display.adopting(readings.display),
                keyboard: old(self)@.keyboard.adopting(readings.keyboard),
                ..old(self)@
            }),
    {
        self.display.sync_baseline(readings.display);
        self.keyboard.sync_baseline(readings.keyboard);
    }

    /// Whether `handle_request` can be called.
    pub fn accepts(&self, request: &Request, now: u64, unix_now: u64) -> (b: bool)
        ensures
            b == self@.can_handle(*request, now as int, unix_now as int),
    {
        match request {
            Request::Status => match self.paused_until {
                Some(until) => {
                    let left: u128 = if (now as u128) < until { until - now as u128 } else { 0 };
                    left / NANOS_PER_SECOND <= (u64::MAX - unix_now) as u128
                },
                None => true,
            },
            Request::Nudge { delta } => {
                let sum = self.nudge_pct as i64 + *delta as i64;
                i32::MIN as i64 <= sum && sum <= i32::MAX as i64
            },
            _ => true,
        }
    }

    /// What the status says.
    pub open spec fn reports(
        self,
        status: StatusReply,
        now: u64,
        unix_now: u64,
        readings: Readings,
    ) -> bool {
        &&& status.lux_raw == self.raw
        &&& status.lux_smoothed == self.smoothed
        &&& number_of(status.display_pct) == pct_now(self.display@.backlight, readings.display)
        &&& number_of(status.keyboard_pct) == pct_now(self.keyboard@.backlight, readings.keyboard)
        &&& match self.paused_until {
            Some(until) => status.paused_until_unix matches Some(unix) && unix == pause_end_unix(
                until as int,
                now as int,
                unix_now as int,
            ),
            None => status.paused_until_unix is None,
        }
        &&& status.display_override_active == (self.display@.suspension is Some)
        &&& status.keyboard_override_active == (self.keyboard@.suspension is Some)
        &&& status.idle == self.idle
        &&& status.nudge_pct == self.nudge_pct
    }

    /// Carries a request out and answers it.
    pub fn handle_request(
        &mut self,
        request: Request,
        now: u64,
        unix_now: u64,
        readings: &Readings,
    ) -> (reply: Reply)
        requires
            old(self)@.can_handle(request, now as int, unix_now as int),
        ensures
            final(self).sensor.device == old(self).sensor.device,
            final(self)@ == old(self)@.requested(request, now as int, *readings),
            old(self).wf() ==> final(self).wf(),
            match request {
                Request::Status => reply matches Reply::Status(status) && old(self).reports(
                    status,
                    now,
                    unix_now,
                    *readings,
                ),
                _ => reply is Done,
            },
    {
        match request {
            Request::Status => {
                let paused_until_unix = match self.paused_until {
                    Some(until) => {
                        let left: u128 = if (now as u128) < until {
                            until - now as u128
                        } else {
                            0
                        };
                        Some(unix_now + (left / NANOS_PER_SECOND) as u64)
                    },
                    None => None,
                };
                Reply::Status(
                    StatusReply {
                        lux_raw: self.raw,
                        lux_smoothed: self.smoothed,
                        display_pct: self.display.current_pct(readings.display),
                        keyboard_pct: self.keyboard.current_pct(readings.keyboard),
                        paused_until_unix,
                        display_override_active: self.display.override_state.is_some(),
                        keyboard_override_active: self.keyboard.override_state.is_some(),
                        idle: self.idle,
                        nudge_pct: self.nudge_pct,
                    },
                )
            },
            Request::Pause { seconds } => {
                let span = if seconds == 0 { OPEN_PAUSE_S } else { seconds };
                self.paused_until = Some(now as u128 + span as u128 * NANOS_PER_SECOND);
                self.open_pause = seconds == 0;
                self.drop_ramps();
                Reply::Done
            },
            Request::Resume => {
                self.paused_until = None;
                self.open_pause = false;
                self.display.override_state = None;
                self.keyboard.override_state = None;
                self.sync_baselines(readings);
                self.display.last_target = None;
                self.keyboard.last_target = None;
                Reply::Done
            },
            Request::Nudge { delta } => {
                let sum = self.nudge_pct + delta;
                self.nudge_pct =
                if sum < -NUDGE_LIMIT {
                    -NUDGE_LIMIT
                } else if sum > NUDGE_LIMIT {
                    NUDGE_LIMIT
                } else {
                    sum
                };
                self.nudge_anchor = match self.sensor.smoothed {
                    Some(_) => anchor_pct(&self.display.cfg, self.smoothed),
                    None => None,
                };
                Reply::Done
            },
        }
    }

    /// The initial state, and why a device is not usable.
    pub fn new(
        cfg: Config,
        sensor: Sensor,
        display_probe: &DeviceProbe,
        keyboard_probe: &DeviceProbe,
    ) -> (r: (Reactor, Option<OpenError>, Option<OpenError>))
        ensures
            r.0.wf(),
            r.0.cfg == cfg,
            r.0.sensor == sensor,
            r.0.display.cfg.alike(cfg.display),
            r.0.keyboard.cfg.alike(cfg.keyboard),
            r.0@ == (ReactorModel {
                cfg,
                display_cfg: r.0.display.cfg,
                keyboard_cfg: r.0.keyboard.cfg,
                alpha: sensor.alpha@,
                display: initial(r.0.display.cfg, *display_probe),
                keyboard: initial(r.0.keyboard.cfg, *keyboard_probe),
                raw: Number::of_int(0),
                smoothed: Number::of_int(0),
                average: sensor.average(),
                paused_until: None,
                open_pause: false,
                idle: false,
                in_grace: false,
                arm_grace: false,
                nudge_pct: 0,
                nudge_anchor: None,
            }),
            explains(r.0.display.cfg, *display_probe, r.1),
            explains(r.0.keyboard.cfg, *keyboard_probe, r.2),
    {
        let (display, display_error) = ChannelState::open(
            ChannelKind::Display,
            cfg.display.clone(),
            display_probe,
        );
        let (keyboard, keyboard_error) = ChannelState::open(
            ChannelKind::Keyboard,
            cfg.keyboard.clone(),
            keyboard_probe,
        );
        let zero = Single::from_u32(0);
        (
            Reactor {
                cfg,
                sensor,
                display,
                keyboard,
                raw: zero,
                smoothed: zero,
                paused_until: None,
                open_pause: false,
                idle: false,
                in_grace: false,
                arm_grace: false,
                nudge_pct: 0,
                nudge_anchor: None,
            },
            display_error,
            keyboard_error,
        )
    }

    /// Takes a reading of the light sensor, and makes a pass. A failed reading
    /// changes nothing.
    pub fn tick(
        &mut self,
        reading: Result<Single, ReadError>,
        now: u64,
        force: bool,
        reads: &PassReads,
    ) -> (r: Result<Option<u128>, ReadError>)
        requires
            reading matches Ok(raw) ==> old(self)@.sampled(raw@).can_apply(
                now as int,
                force,
                *reads,
            ),
        ensures
            final(self).sensor.device == old(self).sensor.device,
            match reading {
                Ok(raw) => {
                    let sampled = old(self)@.sampled(raw@);
                    &&& final(self)@ == sampled.applied(now as int, force, *reads)
                    &&& r matches Ok(interval)
                    &&& match interval {
                        Some(nanos) => sampled.interval_after(now as int, force, *reads) == Some(
                            nanos as int,
                        ),
                        None => sampled.interval_after(now as int, force, *reads) is None,
                    }
                },
                Err(e) => final(self)@ == old(self)@ && r == Err::<Option<u128>, ReadError>(e),
            },
    {
        let sample = match self.sensor.sample(reading) {
            Ok(sample) => sample,
            Err(e) => return Err(e),
        };
        self.raw = sample.raw;
        self.smoothed = sample.smoothed;
        Ok(self.apply(now, force, reads))
    }

    /// Answers a line from a client, given as a request or as why it is none.
    pub fn answer(
        &mut self,
        request: Result<Request, String>,
        now: u64,
        unix_now: u64,
        readings: &Readings,
    ) -> (reply: Reply)
        requires
            request matches Ok(request) ==> old(self)@.can_handle(
                request,
                now as int,
                unix_now as int,
            ),
        ensures
            final(self).sensor.device == old(self).sensor.device,
            old(self).wf() ==> final(self).wf(),
            match request {
                Ok(Request::Status) => {
                    &&& final(self)@ == old(self)@
                    &&& reply matches Reply::Status(status)
                    &&& old(self).reports(status, now, unix_now, *readings)
                },
                Ok(request) => {
                    &&& final(self)@ == old(self)@.requested(request, now as int, *readings)
                    &&& reply is Done
                },
                Err(cause) => {
                    &&& final(self)@ == old(self)@
                    &&& reply matches Reply::Error(message)
                    &&& message@ == "bad request: "@ + cause@
                },
            },
    {
        match request {
            Ok(request) => self.handle_request(request, now, unix_now, readings),
            Err(cause) => bad_request(cause.as_str()),
        }
    }

    /// Drops what is left to write of the transitions.
    fn drop_ramps(&mut self)
        ensures
            final(self).sensor.device == old(self).sensor.device,
            final(self).nudge_pct == old(self).nudge_pct,
            final(self)@ == old(self)@.quiet(),
    {
        self.display.drop_ramp();
        self.keyboard.drop_ramp();
    }

    /// Takes note of the seat becoming idle or active. From either on nothing
    /// more is written of the transitions under way.
    pub fn notify(&mut self, event: IdleEvent)
        ensures
            final(self).sensor.device == old(self).sensor.device,
            final(self)@ == old(self)@.notified(event),
    {
        self.drop_ramps();
        match event {
            IdleEvent::Idled => {
                self.idle = true;
            },
            IdleEvent::Resumed => {
                self.idle = false;
                self.arm_grace = true;
            },
        }
    }

    /// How long an active seat is left to others, in nanoseconds.
    pub fn grace_nanos(&self) -> (nanos: u128)
        ensures
            nanos == self.cfg.idle_resume_grace_ms * NANOS_PER_MILLI,
    {
        self.cfg.idle_resume_grace_ms as u128 * NANOS_PER_MILLI
    }

    /// Starts the time left to others if it is due, and tells after how many
    /// nanoseconds it is over.
    pub fn start_grace(&mut self) -> (r: Option<u128>)
        ensures
            final(self).sensor.device == old(self).sensor.device,
            final(self)@ == old(self)@.grace_started(),
            match r {
                Some(nanos) => old(self)@.arm_grace && nanos == old(self).cfg.idle_resume_grace_ms
                    * NANOS_PER_MILLI,
                None => !old(self)@.arm_grace,
            },
    {
        if self.arm_grace {
            self.arm_grace = false;
            self.in_grace = true;
            Some(self.grace_nanos())
        } else {
            None
        }
    }

    /// Ends the time left to others. Targets are forgotten, as the light may
    /// have changed meanwhile.
    pub fn end_grace(&mut self, readings: &Readings)
        ensures
            final(self).sensor.device == old(self).sensor.device,
            final(self)@ == old(self)@.grace_ended(*readings),
    {
        self.in_grace = false;
        self.sync_baselines(readings);
        self.display.last_target = None;
        self.keyboard.last_target = None;
    }

    /// Makes a step of the transitions under way, and tells what to write and
    /// whether that was the last step. Transitions are dropped where nothing may
    /// be written.
    pub fn ramp_tick(&mut self) -> (r: RampTick)
        ensures
            final(self).sensor.device == old(self).sensor.device,
            final(self)@ == old(self)@.stepped(),
            r.display == old(self)@.display_write(),
            r.keyboard == old(self)@.keyboard_write(),
            r.last == (final(self)@.display.ramp.len() == 0 && final(self)@.keyboard.ramp.len()
                == 0),
    {
        if self.idle || self.arm_grace || self.in_grace || self.paused_until.is_some() {
            self.drop_ramps();
            return RampTick { display: None, keyboard: None, last: true };
        }
        let display = self.display.ramp_step();
        let keyboard = self.keyboard.ramp_step();
        RampTick { display, keyboard, last: !self.display.ramping() && !self.keyboard.ramping() }
    }
}

/// What a step of the transitions writes.
#[derive(Clone, Copy, Debug)]
pub struct RampTick {
    pub display: Option<u32>,
    pub keyboard: Option<u32>,
    /// No transition is under way any more.
    pub last: bool,
}

/// The brightness that a device has, in percent, if it can be told.
pub open spec fn pct_now(backlight: Option<Backlight>, reading: Result<u32, ReadError>) -> Option<
    Number,
> {
    match (backlight, reading) {
        (Some(backlight), Ok(raw)) => Some(pct_of(raw, backlight.max)),
        _ => None,
    }
}

/// What the loop can wake up for.
#[derive(Clone, Copy, Debug)]
pub enum Source {
    /// It is time to read the light sensor.
    Timer,
    /// The daemon is asked to end.
    Signal,
    /// A client connects.
    Listener,
    /// The compositor has something to report.
    Wayland,
    /// The time left to others is over.
    Grace,
    /// It is time for a step of a transition.
    Ramp,
}

pub const TOKEN_TIMER: u64 = 1;

pub const TOKEN_SIGNAL: u64 = 2;

pub const TOKEN_LISTENER: u64 = 3;

pub const TOKEN_WAYLAND: u64 = 4;

pub const TOKEN_GRACE: u64 = 5;

pub const TOKEN_RAMP: u64 = 6;

impl Source {
    /// The token under which a source is registered.
    pub open spec fn token_of(self) -> u64 {
        match self {
            Source::Timer => TOKEN_TIMER,
            Source::Signal => TOKEN_SIGNAL,
            Source::Listener => TOKEN_LISTENER,
            Source::Wayland => TOKEN_WAYLAND,
            Source::Grace => TOKEN_GRACE,
            Source::Ramp => TOKEN_RAMP,
        }
    }

    /// The token under which to register a source.
    pub fn token(self) -> (token: u64)
        ensures
            token == self.token_of(),
    {
        match self {
            Source::Timer => TOKEN_TIMER,
            Source::Signal => TOKEN_SIGNAL,
            Source::Listener => TOKEN_LISTENER,
            Source::Wayland => TOKEN_WAYLAND,
            Source::Grace => TOKEN_GRACE,
            Source::Ramp => TOKEN_RAMP,
        }
    }

    /// The source registered under a token, if there is one.
    pub fn from_token(token: u64) -> (source: Option<Source>)
        ensures
            match source {
                Some(source) => source.token_of() == token,
                None => forall|source: Source| #[trigger] source.token_of() != token,
            },
    {
        if token == TOKEN_TIMER {
            Some(Source::Timer)
        } else if token == TOKEN_SIGNAL {
            Some(Source::Signal)
        } else if token == TOKEN_LISTENER {
            Some(Source::Listener)
        } else if token == TOKEN_WAYLAND {
            Some(Source::Wayland)
        } else if token == TOKEN_GRACE {
            Some(Source::Grace)
        } else if token == TOKEN_RAMP {
            Some(Source::Ramp)
        } else {
            None
        }
    }
}

/// Something that the loop woke up for, with what it needs to deal with it.
#[derive(Debug)]
pub enum Event {
    /// The light sensor was read.
    Tick { reading: Result<Single, ReadError>, now: u64, force: bool, reads: PassReads },
    /// The daemon is asked to end.
    Signal,
    /// A client sent a request, or something that is none for the given reason.
    Line { request: Result<Request, String>, now: u64, unix_now: u64, readings: Readings },
    /// The seat became idle or active.
    Idle(IdleEvent),
    /// The time left to others is over.
    Grace { readings: Readings },
    /// It is time for a step of the transitions.
    Ramp,
}

/// What is to be done about an event.
#[derive(Debug)]
pub enum Action {
    /// Wait for the next event.
    Wait,
    /// Report that the light sensor could not be read.
    Warn(ReadError),
    /// Wake up at an interval, in nanoseconds, for the steps of a transition.
    StepEvery(u128),
    /// Answer the client.
    Send(Reply),
    /// Write to the devices, and stop waking up for steps after the last one.
    Write(RampTick),
    /// End the daemon.
    Exit,
}

impl ReactorModel {
    /// Whether an event can be dealt with.
    pub open spec fn can_step(self, event: Event) -> bool {
        match event {
            Event::Tick { reading, now, force, reads } => reading matches Ok(raw) ==> self.sampled(
                raw@,
            ).can_apply(now as int, force, reads),
            Event::Line { request, now, unix_now, .. } => request matches Ok(request)
                ==> self.can_handle(request, now as int, unix_now as int),
            _ => true,
        }
    }

    /// The state after an event.
    pub open spec fn after(self, event: Event) -> ReactorModel {
        match event {
            Event::Tick { reading, now, force, reads } => match reading {
                Ok(raw) => self.sampled(raw@).applied(now as int, force, reads),
                Err(_) => self,
            },
            Event::Signal => self,
            Event::Line { request, now, readings, .. } => match request {
                Ok(request) => self.requested(request, now as int, readings),
                Err(_) => self,
            },
            Event::Idle(event) => self.notified(event),
            Event::Grace { readings } => self.grace_ended(readings),
            Event::Ramp => self.stepped(),
        }
    }
}

impl Reactor {
    /// Whether an action is the one that an event calls for.
    pub open spec fn calls_for(self, event: Event, action: Action) -> bool {
        match event {
            Event::Tick { reading, now, force, reads } => match reading {
                Ok(raw) => match self@.sampled(raw@).interval_after(now as int, force, reads) {
                    Some(interval) => action matches Action::StepEvery(nanos) && nanos == interval,
                    None => action is Wait,
                },
                Err(e) => action == Action::Warn(e),
            },
            Event::Signal => action is Exit,
            Event::Line { request, now, unix_now, readings } => {
                &&& action matches Action::Send(reply)
                &&& match request {
                    Ok(Request::Status) => reply matches Reply::Status(status) && self.reports(
                        status,
                        now,
                        unix_now,
                        readings,
                    ),
                    Ok(_) => reply is Done,
                    Err(cause) => reply matches Reply::Error(message) && message@
                        == "bad request: "@ + cause@,
                }
            },
            Event::Idle(_) => action is Wait,
            Event::Grace { .. } => action is Wait,
            Event::Ramp => {
                &&& action matches Action::Write(tick)
                &&& tick.display == self@.display_write()
                &&& tick.keyboard == self@.keyboard_write()
                &&& tick.last == (self@.stepped().display.ramp.len() == 0
                    && self@.stepped().keyboard.ramp.len() == 0)
            },
        }
    }

    /// Whether `step` can be called. Without steps to make transitions in, a
    /// reading of the light sensor is never taken on.
    pub fn can_step(&self, event: &Event) -> (b: bool)
        ensures
            b ==> self@.can_step(*event),
            self.cfg.ramp_steps > 0 && self@.can_step(*event) ==> b,
    {
        match event {
            Event::Tick { reading, now, force, reads } => match reading {
                Ok(raw) => {
                    if !self.acts(*now) {
                        return true;
                    }
                    let pass = Pass {
                        now: *now,
                        lux: self.sensor.average_with(*raw),
                        drift_pct: self.cfg.override_lux_drift_pct,
                        timeout_s: self.cfg.override_timeout_s,
                        steps: self.cfg.ramp_steps,
                        force: *force,
                        resumed: self.paused_until.is_some(),
                    };
                    self.cfg.ramp_steps > 0 && self.display.can_pass(&pass, &reads.display)
                        && self.keyboard.can_pass(&pass, &reads.keyboard)
                },
                Err(_) => true,
            },
            Event::Line { request, now, unix_now, .. } => match request {
                Ok(request) => self.accepts(request, *now, *unix_now),
                Err(_) => true,
            },
            _ => true,
        }
    }

    /// Deals with an event, and tells what is to be done about it.
    pub fn step(&mut self, event: Event) -> (action: Action)
        requires
            old(self)@.can_step(event),
        ensures
            final(self)@ == old(self)@.after(event),
            old(self).calls_for(event, action),
            old(self).wf() ==> final(self).wf(),
            final(self).sensor.device == old(self).sensor.device,
    {
        match event {
            Event::Tick { reading, now, force, reads } => match self.tick(
                reading,
                now,
                force,
                &reads,
            ) {
                Ok(Some(nanos)) => Action::StepEvery(nanos),
                Ok(None) => Action::Wait,
                Err(e) => Action::Warn(e),
            },
            Event::Signal => Action::Exit,
            Event::Line { request, now, unix_now, readings } => Action::Send(
                self.answer(request, now, unix_now, &readings),
            ),
            Event::Idle(event) => {
                self.notify(event);
                Action::Wait
            },
            Event::Grace { readings } => {
                self.end_grace(&readings);
                Action::Wait
            },
            Event::Ramp => Action::Write(self.ramp_tick()),
        }
    }
}

/// While the seat is idle, is left to others or about to be, or control is
/// paused, a pass changes nothing and starts nothing.
pub proof fn law_hands_off(m: ReactorModel, now: int, force: bool, reads: PassReads)
    requires
        m.idle || m.arm_grace || m.in_grace || (m.paused_until is Some && (m.open_pause || now
            < m.paused_until->0)),
    ensures
        m.applied(now, force, reads) == m,
        m.interval_after(now, force, reads) is None,
{
}

/// Nothing is written while the seat is idle, is left to others or about to be,
/// or control is paused, whatever there was left of a transition.
pub proof fn law_nothing_is_written_meanwhile(m: ReactorModel, now: int)
    requires
        m.idle || m.arm_grace || m.in_grace || (m.paused_until is Some && (m.open_pause || now
            < m.paused_until->0)),
    ensures
        m.display_write() is None,
        m.keyboard_write() is None,
        m.after(Event::Ramp).display.ramp.len() == 0,
        m.after(Event::Ramp).keyboard.ramp.len() == 0,
{
}

/// From the moment on that the seat becomes idle or active, or that a pause is
/// asked for, nothing is left to write of any transition.
pub proof fn law_transitions_are_dropped(
    m: ReactorModel,
    event: IdleEvent,
    seconds: u64,
    asked: int,
    readings: Readings,
)
    ensures
        m.notified(event).display.stepped().1 is None,
        m.notified(event).keyboard.stepped().1 is None,
        m.requested(Request::Pause { seconds }, asked, readings).display.stepped().1 is None,
        m.requested(Request::Pause { seconds }, asked, readings).keyboard.stepped().1 is None,
{
}

/// A pause lasts exactly as long as was asked for: until then passes change
/// nothing and nothing is written to either channel, from then on passes do
/// their work again, unless the seat is idle or left to others. A pause of zero
/// seconds does not end by itself.
pub proof fn law_pause_lasts(
    m: ReactorModel,
    seconds: u64,
    asked: int,
    readings: Readings,
    now: int,
    force: bool,
    reads: PassReads,
)
    ensures
        ({
            let paused = m.requested(Request::Pause { seconds }, asked, readings);
            let until = asked + seconds * NANOS_PER_SECOND;
            &&& seconds == 0 || now < until ==> paused.applied(now, force, reads) == paused
            &&& paused.display_write() is None
            &&& paused.keyboard_write() is None
            &&& seconds > 0 && now >= until && !m.idle && !m.arm_grace && !m.in_grace ==> {
                &&& paused.acts(now)
                &&& paused.applied(now, force, reads).paused_until is None
            }
        }),
{
}

/// While a pause lasts, the status tells when it ends, to the second.
pub proof fn law_status_tells_the_end_of_a_pause(
    seconds: u64,
    asked: int,
    unix_asked: int,
    passed: int,
)
    requires
        0 < seconds,
        0 <= passed <= seconds,
    ensures
        pause_end_unix(
            pause_end(asked, seconds),
            asked + passed * NANOS_PER_SECOND,
            unix_asked + passed,
        ) == unix_asked + seconds,
{
    let left = seconds - passed;
    assert(left * NANOS_PER_SECOND == seconds * NANOS_PER_SECOND - passed * NANOS_PER_SECOND)
        by (nonlinear_arith)
        requires
            left == seconds - passed,
    ;
    assert((left * NANOS_PER_SECOND) / NANOS_PER_SECOND as int == left) by (nonlinear_arith);
}

/// Resuming ends a pause and all overrides. The values that the devices have
/// are taken over, so that they do not suspend a channel again, and the next
/// pass acts upon the targets however little they have changed.
pub proof fn law_resume_starts_over(
    m: ReactorModel,
    asked: int,
    readings: Readings,
    now: int,
    force: bool,
    reads: PassReads,
)
    requires
        !m.idle,
        !m.arm_grace,
        !m.in_grace,
    ensures
        ({
            let resumed = m.requested(Request::Resume, asked, readings);
            let after = resumed.applied(now, force, reads);
            &&& resumed.paused_until is None
            &&& resumed.display.suspension is None
            &&& resumed.keyboard.suspension is None
            &&& m.display.unchanged(readings.display, reads.display.external) ==> {
                &&& after.display.suspension is None
                &&& m.display_cfg.enabled ==> after.display.last_target == Some(
                    target_of(m.display_cfg, m.smoothed, m.shift()),
                )
            }
            &&& m.keyboard.unchanged(readings.keyboard, reads.keyboard.external) ==> {
                &&& after.keyboard.suspension is None
                &&& m.keyboard_cfg.enabled ==> after.keyboard.last_target == Some(
                    target_of(m.keyboard_cfg, m.smoothed, 0),
                )
            }
        }),
{
}

/// From the moment on that the seat becomes active again, passes change nothing
/// and nothing is written, before the time left to others starts and until it
/// is over.
pub proof fn law_active_seat_is_left_to_others(
    m: ReactorModel,
    now: int,
    force: bool,
    reads: PassReads,
)
    ensures
        ({
            let back = m.notified(IdleEvent::Resumed);
            let started = back.grace_started();
            &&& !back.idle
            &&& back.applied(now, force, reads) == back
            &&& back.display_write() is None
            &&& back.keyboard_write() is None
            &&& started.in_grace
            &&& started.applied(now, force, reads) == started
            &&& started.display_write() is None
            &&& started.keyboard_write() is None
        }),
{
}

/// After the time left to others, the values that the devices have are taken
/// over, so that they do not suspend a channel, and the next pass that is made
/// acts upon the targets however little they have changed. Overrides stay.
pub proof fn law_control_returns_after_idleness(
    m: ReactorModel,
    readings: Readings,
    now: int,
    force: bool,
    reads: PassReads,
)
    requires
        !m.idle,
        !m.arm_grace,
        m.paused_until is None,
    ensures
        ({
            let back = m.grace_ended(readings);
            let after = back.applied(now, force, reads);
            &&& back.display.suspension == m.display.suspension
            &&& back.keyboard.suspension == m.keyboard.suspension
            &&& m.display.suspension is None && m.display.unchanged(
                readings.display,
                reads.display.external,
            ) ==> {
                &&& after.display.suspension is None
                &&& m.display_cfg.enabled ==> after.display.last_target == Some(
                    target_of(m.display_cfg, m.smoothed, m.shift()),
                )
            }
            &&& m.keyboard.suspension is None && m.keyboard.unchanged(
                readings.keyboard,
                reads.keyboard.external,
            ) ==> {
                &&& after.keyboard.suspension is None
                &&& m.keyboard_cfg.enabled ==> after.keyboard.last_target == Some(
                    target_of(m.keyboard_cfg, m.smoothed, 0),
                )
            }
        }),
{
}

/// The channels do not influence each other: what a pass makes of one depends
/// neither on the other's state, configuration and device nor, for the
/// keyboard, on the shift of the display's target.
pub proof fn law_channels_are_independent(
    m: ReactorModel,
    n: ReactorModel,
    now: int,
    force: bool,
    reads: PassReads,
    other: PassReads,
)
    requires
        m.pass(now, force) == n.pass(now, force),
        m.acts(now) == n.acts(now),
    ensures
        m.display == n.display && m.display_cfg == n.display_cfg && m.nudge_pct == n.nudge_pct
            && m.nudge_anchor == n.nudge_anchor && reads.display == other.display ==> m.applied(
            now,
            force,
            reads,
        ).display == n.applied(now, force, other).display,
        m.keyboard == n.keyboard && m.keyboard_cfg == n.keyboard_cfg && reads.keyboard
            == other.keyboard ==> m.applied(now, force, reads).keyboard == n.applied(
            now,
            force,
            other,
        ).keyboard,
{
}

/// A shift concerns the display only: a request for one changes nothing else,
/// and what a pass makes of the keyboard is the same with any shift.
pub proof fn law_nudge_shifts_the_display_only(
    m: ReactorModel,
    delta: i32,
    asked: int,
    readings: Readings,
    nudge_pct: int,
    nudge_anchor: Option<Number>,
    now: int,
    force: bool,
    reads: PassReads,
)
    ensures
        ({
            let asked_for = m.requested(Request::Nudge { delta }, asked, readings);
            asked_for == (ReactorModel {
                nudge_pct: asked_for.nudge_pct,
                nudge_anchor: asked_for.nudge_anchor,
                ..m
            })
        }),
        ({
            let other = ReactorModel { nudge_pct, nudge_anchor, ..m };
            other.applied(now, force, reads).keyboard == m.applied(now, force, reads).keyboard
        }),
{
}

/// A shift lasts until the light changes. Once the display's curve leads
/// elsewhere than when the shift was asked for, and by the hysteresis at least,
/// the next pass that looks for the display's target ends the shift, and acts
/// upon the target without it.
pub proof fn law_nudge_ends_when_the_light_changes(
    m: ReactorModel,
    now: int,
    force: bool,
    reads: PassReads,
)
    requires
        m.acts(now),
        m.display_cfg.enabled,
        m.display.settled(m.pass(now, force), reads.display).suspension is None,
    ensures
        m.nudge_anchor matches Some(anchor) ==> {
            let pct = curve_target(m.display_cfg, m.smoothed);
            let after = m.applied(now, force, reads);
            !anchor.same(pct) && m.display_cfg.hysteresis_pct@.le(anchor.minus(pct).absolute())
                ==> {
                &&& after.nudge_pct == 0
                &&& after.nudge_anchor is None
                &&& after.display.last_target == Some(target_of(m.display_cfg, m.smoothed, 0))
            }
        },
{
}

/// A shift is kept by passes in unchanged light, with any hysteresis, and until
/// the display's curve has moved by the hysteresis; and a target that is acted
/// upon meanwhile is shifted.
pub proof fn law_nudge_holds_in_steady_light(
    m: ReactorModel,
    delta: i32,
    asked: int,
    readings: Readings,
    lux: Number,
    now: int,
    force: bool,
    reads: PassReads,
)
    requires
        lux == m.smoothed || curve_target(m.display_cfg, m.smoothed).minus(
            curve_target(m.display_cfg, lux),
        ).absolute().lt(m.display_cfg.hysteresis_pct@),
    ensures
        ({
            let shifted = m.requested(Request::Nudge { delta }, asked, readings);
            let later = ReactorModel { smoothed: lux, ..shifted };
            &&& later.applied(now, force, reads).nudge_pct == nudged(m.nudge_pct, delta as int)
            &&& later.display_passed(now, force, reads) == later.display.passed(
                m.display_cfg,
                later.pass(now, force),
                nudged(m.nudge_pct, delta as int),
                reads.display,
            )
        }),
{
}

/// A shift that is asked for before the light is known is kept by the first
/// pass, whatever the light is then, and lasts from there on until it changes.
pub proof fn law_nudge_survives_the_first_reading(
    m: ReactorModel,
    delta: i32,
    asked: int,
    readings: Readings,
    raw: Number,
    now: int,
    force: bool,
    reads: PassReads,
)
    requires
        m.average is None,
    ensures
        ({
            let shifted = m.requested(Request::Nudge { delta }, asked, readings).sampled(raw);
            let after = shifted.applied(now, force, reads);
            &&& after.nudge_pct == nudged(m.nudge_pct, delta as int)
            &&& shifted.shift() == nudged(m.nudge_pct, delta as int)
            &&& shifted.acts(now) && after.nudge_pct != 0 ==> after.nudge_anchor == curve_anchor(
                m.display_cfg,
                raw,
            )
        }),
{
}

/// Shifts add up as long as their sum is within the limits, and no event moves
/// the shift out of them.
pub proof fn law_nudges_add_up_within_limits(m: ReactorModel, event: Event, first: int, second: int)
    requires
        -NUDGE_LIMIT <= m.nudge_pct <= NUDGE_LIMIT,
    ensures
        -NUDGE_LIMIT <= m.after(event).nudge_pct <= NUDGE_LIMIT,
        -NUDGE_LIMIT <= m.nudge_pct + first <= NUDGE_LIMIT ==> nudged(
            nudged(m.nudge_pct, first),
            second,
        ) == nudged(m.nudge_pct, first + second),
{
}

/// A request for the status, a line that is no request and a failed reading of
/// the light sensor change nothing.
pub proof fn law_nothing_changes_without_cause(
    m: ReactorModel,
    now: u64,
    unix_now: u64,
    readings: Readings,
    cause: String,
    error: ReadError,
    force: bool,
    reads: PassReads,
)
    ensures
        m.after(Event::Line { request: Ok(Request::Status), now, unix_now, readings }) == m,
        m.after(Event::Line { request: Err(cause), now, unix_now, readings }) == m,
        m.after(Event::Tick { reading: Err(error), now, force, reads }) == m,
{
}

/// With a configuration without faults whose floors are no higher than 100
/// percent, every pass can be made.
pub proof fn law_usable_configuration_is_served(
    m: ReactorModel,
    now: int,
    force: bool,
    reads: PassReads,
)
    requires
        m.cfg.fault() is None,
        m.display_cfg.alike(m.cfg.display),
        m.keyboard_cfg.alike(m.cfg.keyboard),
        m.cfg.display.min_pct@.le(Number::of_int(100)),
        m.cfg.keyboard.min_pct@.le(Number::of_int(100)),
    ensures
        m.can_apply(now, force, reads),
{
}

/// A pass is made unless the seat is idle or left to others or control is
/// paused. For a channel that is in use, not suspended and left alone by others,
/// it acts upon the target if it is forced, if there was no target before, or if
/// the target is at least the hysteresis away from the last one; a transition is
/// then started unless the device has the target's raw value, zero if it cannot
/// be read. Otherwise it leaves the channel as it is.
pub proof fn law_pass_follows_the_light(m: ReactorModel, now: int, force: bool, reads: PassReads)
    requires
        !m.idle,
        !m.arm_grace,
        !m.in_grace,
        m.paused_until is None,
    ensures
        ({
            let channel = m.keyboard_cfg;
            let target = target_of(channel, m.smoothed, 0);
            let after = m.applied(now, force, reads).keyboard;
            let acts = force || m.keyboard.last_target is None || channel.hysteresis_pct@.le(
                m.keyboard.last_target->0.minus(target).absolute(),
            );
            channel.enabled && m.keyboard.suspension is None && m.keyboard.undisturbed(
                reads.keyboard.external,
            ) ==> {
                &&& !acts ==> after == m.keyboard
                &&& acts ==> after.last_target == Some(target) && after.suspension is None
                &&& m.keyboard.backlight matches Some(backlight) ==> acts ==> {
                    let to = raw_of(target, backlight.max) as u32;
                    let from = match reads.keyboard.ramp_from {
                        Ok(raw) => raw,
                        Err(_) => 0,
                    };
                    &&& from == to ==> after.ramp.len() == 0
                    &&& from != to ==> {
                        &&& after.ramp == ramp_values(from, to, m.cfg.ramp_steps)
                        &&& m.interval_after(now, force, reads) is Some
                    }
                }
            }
        }),
        ({
            let channel = m.display_cfg;
            let pct = curve_target(channel, m.smoothed);
            let over = m.nudge_anchor matches Some(anchor) && !anchor.same(pct)
                && channel.hysteresis_pct@.le(anchor.minus(pct).absolute());
            let target = target_of(
                channel,
                m.smoothed,
                if over {
                    0
                } else {
                    m.nudge_pct
                },
            );
            let after = m.applied(now, force, reads).display;
            let acts = force || over || m.display.last_target is None || channel.hysteresis_pct@.le(
                m.display.last_target->0.minus(target).absolute(),
            );
            channel.enabled && m.display.suspension is None && m.display.undisturbed(
                reads.display.external,
            ) ==> {
                &&& !acts ==> after == m.display
                &&& acts ==> after.last_target == Some(target) && after.suspension is None
                &&& m.display.backlight matches Some(backlight) ==> acts ==> {
                    let to = raw_of(target, backlight.max) as u32;
                    let from = match reads.display.ramp_from {
                        Ok(raw) => raw,
                        Err(_) => 0,
                    };
                    &&& from == to ==> after.ramp.len() == 0
                    &&& from != to ==> {
                        &&& after.ramp == ramp_values(from, to, m.cfg.ramp_steps)
                        &&& m.interval_after(now, force, reads) is Some
                    }
                }
            }
        }),
{
}

/// A change by others suspends its own channel in a pass that is made, from then
/// on for the time that is configured and in the light there is, and drops what
/// was left of a transition. Nothing else suspends a channel.
pub proof fn law_pass_yields_to_others(m: ReactorModel, now: int, force: bool, reads: PassReads)
    requires
        !m.idle,
        !m.arm_grace,
        !m.in_grace,
        m.paused_until is None,
    ensures
        m.display.suspension is None ==> {
            let after = m.applied(now, force, reads).display;
            &&& m.display.undisturbed(reads.display.external) ==> after.suspension is None
            &&& !m.display.undisturbed(reads.display.external) ==> {
                &&& after.suspension matches Some(s)
                &&& s.until == now + m.cfg.override_timeout_s * 1_000_000_000
                &&& s.anchor == m.smoothed
                &&& after.ramp.len() == 0
                &&& after.last_target == m.display.last_target
            }
        },
        m.keyboard.suspension is None ==> {
            let after = m.applied(now, force, reads).keyboard;
            &&& m.keyboard.undisturbed(reads.keyboard.external) ==> after.suspension is None
            &&& !m.keyboard.undisturbed(reads.keyboard.external) ==> {
                &&& after.suspension matches Some(s)
                &&& s.until == now + m.cfg.override_timeout_s * 1_000_000_000
                &&& s.anchor == m.smoothed
                &&& after.ramp.len() == 0
                &&& after.last_target == m.keyboard.last_target
            }
        },
{
}

/// A suspended channel stays as it is in a pass before its deadline in light
/// that has not drifted. In a pass at its deadline or in light that has, it is
/// taken back, and its target is acted upon.
pub proof fn law_pass_ends_overrides(m: ReactorModel, now: int, force: bool, reads: PassReads)
    requires
        !m.idle,
        !m.arm_grace,
        !m.in_grace,
        m.paused_until is None,
    ensures
        m.display.suspension matches Some(s) ==> {
            let over = now >= s.until || drifted(
                s.anchor,
                m.smoothed,
                m.cfg.override_lux_drift_pct@,
            );
            let after = m.applied(now, force, reads).display;
            &&& !over ==> after == m.display
            &&& over && m.display.unchanged(reads.display.after_override, reads.display.external)
                ==> {
                &&& after.suspension is None
                &&& m.display_cfg.enabled ==> after.last_target == Some(
                    target_of(m.display_cfg, m.smoothed, m.shift()),
                )
            }
        },
        m.keyboard.suspension matches Some(s) ==> {
            let over = now >= s.until || drifted(
                s.anchor,
                m.smoothed,
                m.cfg.override_lux_drift_pct@,
            );
            let after = m.applied(now, force, reads).keyboard;
            &&& !over ==> after == m.keyboard
            &&& over && m.keyboard.unchanged(reads.keyboard.after_override, reads.keyboard.external)
                ==> {
                &&& after.suspension is None
                &&& m.keyboard_cfg.enabled ==> after.last_target == Some(
                    target_of(m.keyboard_cfg, m.smoothed, 0),
                )
            }
        },
{
}

/// A pass changes nothing but the channels, a pause that is over and a shift
/// that ends. In particular it leaves a shift that has not ended, what was last
/// seen of the light, and the seat.
pub proof fn law_pass_leaves_the_rest(m: ReactorModel, now: int, force: bool, reads: PassReads)
    ensures
        ({
            let after = m.applied(now, force, reads);
            &&& after.cfg == m.cfg
            &&& after.raw == m.raw
            &&& after.smoothed == m.smoothed
            &&& after.average == m.average
            &&& after.idle == m.idle
            &&& after.in_grace == m.in_grace
            &&& after.arm_grace == m.arm_grace
            &&& after.open_pause == m.open_pause
            &&& after.nudge_pct == m.nudge_pct || after.nudge_pct == 0
            &&& after.paused_until == m.paused_until || (after.paused_until is None && now
                >= m.paused_until->0 && !m.open_pause)
        }),
{
}

/// The time between two steps is the duration of a transition divided by the
/// steps, to the nanosecond, and steps are asked for if and only if a channel
/// has a new transition.
pub proof fn law_steps_fill_the_duration(m: ReactorModel, now: int, force: bool, reads: PassReads)
    requires
        m.cfg.ramp_steps > 0,
        m.display.ramp.len() == 0,
        m.keyboard.ramp.len() == 0,
    ensures
        ({
            let after = m.applied(now, force, reads);
            &&& (m.interval_after(now, force, reads) is Some) == (after.display.ramp.len() > 0
                || after.keyboard.ramp.len() > 0)
            &&& m.interval_after(now, force, reads) matches Some(nanos) ==> nanos
                * m.cfg.ramp_steps <= m.cfg.ramp_duration_ms * 1_000_000 < (nanos + 1)
                * m.cfg.ramp_steps
        }),
{
    let duration = m.cfg.ramp_duration_ms * 1_000_000;
    let steps = m.cfg.ramp_steps as int;
    let nanos = duration / steps;
    assert(nanos * steps <= duration < (nanos + 1) * steps) by (nonlinear_arith)
        requires
            nanos == duration / steps,
            steps > 0,
    ;
    lemma_new_ramp(
        m.display,
        m.display_cfg,
        m.pass(now, force || m.nudge_over()),
        m.shift(),
        reads.display,
    );
    lemma_new_ramp(m.keyboard, m.keyboard_cfg, m.pass(now, force), 0, reads.keyboard);
}

/// Without a transition under way, a pass leaves one under way if and only if
/// it starts it.
proof fn lemma_new_ramp(
    m: ChannelModel,
    channel: Channel,
    pass: PassModel,
    nudge_pct: int,
    reads: ChannelReads,
)
    requires
        m.ramp.len() == 0,
        pass.steps > 0,
    ensures
        m.passed(channel, pass, nudge_pct, reads).1 == (m.passed(
            channel,
            pass,
            nudge_pct,
            reads,
        ).0.ramp.len() > 0),
{
    if m.backlight is Some {
        let from = match reads.ramp_from {
            Ok(raw) => raw,
            Err(_) => 0,
        };
        let to = raw_of(target_of(channel, pass.lux, nudge_pct), m.backlight->0.max) as u32;
        law_ramp_ends_at_target(from, to, pass.steps);
    }
}

/// Unless the seat is idle or left to others or control is paused, a step writes
/// the next value of each transition, limited to full brightness, and leaves the
/// values after it.
pub proof fn law_steps_are_made(m: ReactorModel)
    requires
        !m.idle,
        !m.arm_grace,
        !m.in_grace,
        m.paused_until is None,
    ensures
        m.display.suspension is None && m.display.ramp.len() > 0 ==> {
            &&& m.display.backlight matches Some(backlight) ==> m.display_write() == Some(
                if m.display.ramp[0] <= backlight.max {
                    m.display.ramp[0]
                } else {
                    backlight.max
                },
            )
            &&& m.after(Event::Ramp).display.ramp == m.display.ramp.skip(1)
        },
        m.keyboard.suspension is None && m.keyboard.ramp.len() > 0 ==> {
            &&& m.keyboard.backlight matches Some(backlight) ==> m.keyboard_write() == Some(
                if m.keyboard.ramp[0] <= backlight.max {
                    m.keyboard.ramp[0]
                } else {
                    backlight.max
                },
            )
            &&& m.after(Event::Ramp).keyboard.ramp == m.keyboard.ramp.skip(1)
        },
{
}

/// A reading of the light sensor is what the next pass goes by: it becomes the
/// last reading, and the average with it the light that the targets are for.
pub proof fn law_reading_is_taken(
    m: ReactorModel,
    raw: Single,
    now: u64,
    force: bool,
    reads: PassReads,
)
    ensures
        ({
            let light = average(m.alpha, m.average, raw@);
            let lit = ReactorModel {
                raw: raw@,
                smoothed: light,
                average: Some(light),
                ..m
            };
            m.after(Event::Tick { reading: Ok(raw), now, force, reads }) == lit.applied(
                now as int,
                force,
                reads,
            )
        }),
{
}

/// What each request does: a pause sets its end, a year ahead if it lasts until
/// it is ended, and drops the transitions, resuming clears the pause, the
/// overrides and the last targets, and a shift is added up to its limits.
/// Nothing else changes.
pub proof fn law_requests_do_what_they_say(
    m: ReactorModel,
    seconds: u64,
    delta: i32,
    now: u64,
    unix_now: u64,
    readings: Readings,
)
    ensures
        ({
            let after = m.after(
                Event::Line { request: Ok(Request::Pause { seconds }), now, unix_now, readings },
            );
            &&& after == (ReactorModel {
                paused_until: after.paused_until,
                open_pause: seconds == 0,
                display: ChannelModel { ramp: Seq::empty(), ..m.display },
                keyboard: ChannelModel { ramp: Seq::empty(), ..m.keyboard },
                ..m
            })
            &&& seconds > 0 ==> after.paused_until == Some(now + seconds * 1_000_000_000)
            &&& seconds == 0 ==> after.paused_until == Some(now + 31_536_000 * 1_000_000_000)
        }),
        ({
            let after = m.after(
                Event::Line { request: Ok(Request::Nudge { delta }), now, unix_now, readings },
            );
            let sum = m.nudge_pct + delta;
            &&& after == (ReactorModel {
                nudge_pct: after.nudge_pct,
                nudge_anchor: after.nudge_anchor,
                ..m
            })
            &&& -50 <= sum <= 50 ==> after.nudge_pct == sum
            &&& sum < -50 ==> after.nudge_pct == -50
            &&& sum > 50 ==> after.nudge_pct == 50
        }),
        ({
            let after = m.after(
                Event::Line { request: Ok(Request::Resume), now, unix_now, readings },
            );
            &&& after == (ReactorModel {
                paused_until: None,
                open_pause: false,
                display: after.display,
                keyboard: after.keyboard,
                ..m
            })
            &&& after.display.suspension is None && after.display.last_target is None
            &&& after.keyboard.suspension is None && after.keyboard.last_target is None
            &&& m.display.backlight matches Some(b) ==> readings.display matches Ok(raw)
                ==> after.display.backlight == Some(
                Backlight { max: b.max, last_written: Some(raw) },
            )
            &&& m.keyboard.backlight matches Some(b) ==> readings.keyboard matches Ok(raw)
                ==> after.keyboard.backlight == Some(
                Backlight { max: b.max, last_written: Some(raw) },
            )
        }),
{
}

/// What each change of the seat does: transitions are dropped, and an active seat
/// is left to others. When that is over, the values that the devices have are
/// taken over, and the targets are forgotten. Nothing else changes.
pub proof fn law_changes_of_the_seat(m: ReactorModel, readings: Readings)
    ensures
        ({
            let still = ReactorModel {
                display: ChannelModel { ramp: Seq::empty(), ..m.display },
                keyboard: ChannelModel { ramp: Seq::empty(), ..m.keyboard },
                ..m
            };
            &&& m.after(Event::Idle(IdleEvent::Idled)) == (ReactorModel { idle: true, ..still })
            &&& m.after(Event::Idle(IdleEvent::Resumed)) == (ReactorModel {
                idle: false,
                arm_grace: true,
                ..still
            })
        }),
        m.grace_started() == (if m.arm_grace {
            ReactorModel { arm_grace: false, in_grace: true, ..m }
        } else {
            m
        }),
        ({
            let after = m.after(Event::Grace { readings });
            &&& after == (ReactorModel {
                in_grace: false,
                display: after.display,
                keyboard: after.keyboard,
                ..m
            })
            &&& after.display == (ChannelModel {
                backlight: after.display.backlight,
                last_target: None,
                ..m.display
            })
            &&& after.keyboard == (ChannelModel {
                backlight: after.keyboard.backlight,
                last_target: None,
                ..m.keyboard
            })
            &&& m.display.backlight matches Some(b) ==> readings.display matches Ok(raw)
                ==> after.display.backlight == Some(
                Backlight { max: b.max, last_written: Some(raw) },
            )
            &&& m.keyboard.backlight matches Some(b) ==> readings.keyboard matches Ok(raw)
                ==> after.keyboard.backlight == Some(
                Backlight { max: b.max, last_written: Some(raw) },
            )
        }),
{
}

/// The end of a pause on the wall clock is as far from now as on the other clock,
/// in whole seconds, and is now once the pause is over.
pub proof fn law_end_of_a_pause_in_wall_time(until: int, now: int, unix_now: int)
    ensures
        ({
            let left = pause_end_unix(until, now, unix_now) - unix_now;
            &&& now >= until ==> left == 0
            &&& now < until ==> left * 1_000_000_000 <= until - now < (left + 1) * 1_000_000_000
        }),
{
}

/// The status tells what is known: the light, the brightness of each device that
/// can be read as a percentage, the end of a pause, and each channel's own
/// override.
pub proof fn law_status_tells_the_truth(
    r: Reactor,
    status: StatusReply,
    now: u64,
    unix_now: u64,
    readings: Readings,
)
    requires
        r.reports(status, now, unix_now, readings),
    ensures
        status.lux_raw == r.raw,
        status.lux_smoothed == r.smoothed,
        status.idle == r.idle,
        status.nudge_pct == r.nudge_pct,
        status.display_override_active == r.display.override_state.is_some(),
        status.keyboard_override_active == r.keyboard.override_state.is_some(),
        (status.paused_until_unix is Some) == (r.paused_until is Some),
        r.paused_until matches Some(until) ==> {
            let left = status.paused_until_unix->0 - unix_now;
            &&& now >= until ==> left == 0
            &&& now < until ==> left * 1_000_000_000 <= until - now < (left + 1) * 1_000_000_000
        },
        (status.display_pct is Some) == (r.display.backlight is Some && readings.display is Ok),
        (status.keyboard_pct is Some) == (r.keyboard.backlight is Some && readings.keyboard is Ok),
        r.display.backlight matches Some(b) ==> readings.display matches Ok(raw)
            ==> status.display_pct matches Some(pct) && pct@ == pct_of(raw, b.max),
        r.keyboard.backlight matches Some(b) ==> readings.keyboard matches Ok(raw)
            ==> status.keyboard_pct matches Some(pct) && pct@ == pct_of(raw, b.max),
{
}

/// Sources are told apart by their tokens.
pub proof fn law_tokens_are_distinct(a: Source, b: Source)
    requires
        a.token_of() == b.token_of(),
    ensures
        a == b,
{
}

/// The hysteresis in real numbers: a pass acts upon a target of a channel that is
/// in use, not suspended and left alone by others if it differs from the last
/// one by more than the hysteresis, and leaves the channel as it is if it differs
/// by less, up to rounding. For the display that is so with a shift that is yet
/// to be anchored, or none.
pub proof fn law_hysteresis_decides(m: ReactorModel, now: int, reads: PassReads)
    requires
        !m.idle,
        !m.arm_grace,
        !m.in_grace,
        m.paused_until is None,
    ensures
        ({
            let channel = m.keyboard_cfg;
            let target = target_of(channel, m.smoothed, 0);
            let last = m.keyboard.last_target;
            let change = abs_real(last->0.value() - target.value());
            let slack = change * exp2(-24) + exp2(-150);
            let after = m.applied(now, false, reads).keyboard;
            channel.enabled && m.keyboard.suspension is None && m.keyboard.undisturbed(
                reads.keyboard.external,
            ) && last is Some && moderate(last->0) && moderate(target)
                && channel.hysteresis_pct@ is Finite ==> {
                &&& change > channel.hysteresis_pct@.value() + slack ==> after.last_target == Some(
                    target,
                )
                &&& change < channel.hysteresis_pct@.value() - slack ==> after == m.keyboard
            }
        }),
        ({
            let channel = m.display_cfg;
            let target = target_of(channel, m.smoothed, m.nudge_pct);
            let last = m.display.last_target;
            let change = abs_real(last->0.value() - target.value());
            let slack = change * exp2(-24) + exp2(-150);
            let after = m.applied(now, false, reads).display;
            channel.enabled && m.display.suspension is None && m.display.undisturbed(
                reads.display.external,
            ) && m.nudge_anchor is None && last is Some && moderate(last->0) && moderate(target)
                && channel.hysteresis_pct@ is Finite ==> {
                &&& change > channel.hysteresis_pct@.value() + slack ==> after.last_target == Some(
                    target,
                )
                &&& change < channel.hysteresis_pct@.value() - slack ==> after == m.display
            }
        }),
{
    law_pass_follows_the_light(m, now, false, reads);
    lemma_apart(m.display.last_target, target_of(m.display_cfg, m.smoothed, m.nudge_pct));
    lemma_apart(m.keyboard.last_target, target_of(m.keyboard_cfg, m.smoothed, 0));
}

/// How far a target is from the last one, up to rounding.
proof fn lemma_apart(last: Option<Number>, target: Number)
    ensures
        ({
            let change = abs_real(last->0.value() - target.value());
            let slack = change * exp2(-24) + exp2(-150);
            let difference = last->0.minus(target).absolute();
            last is Some && moderate(last->0) && moderate(target) ==> {
                &&& difference is Finite
                &&& change - slack <= difference.value() <= change + slack
            }
        }),
{
    if last is Some && moderate(last->0) && moderate(target) {
        lemma_distance(last->0, target);
    }
}

/// A shift is anchored where the light is known: on what the display's curve
/// gives when it is asked for, or else in the first pass that is made.
pub proof fn law_nudge_is_anchored(
    m: ReactorModel,
    delta: i32,
    asked: int,
    readings: Readings,
    now: int,
    force: bool,
    reads: PassReads,
)
    requires
        m.display_cfg.curve@.len() > 0,
    ensures
        ({
            let shifted = m.requested(Request::Nudge { delta }, asked, readings);
            let pct = curve_target(m.display_cfg, m.smoothed);
            &&& m.average is Some ==> shifted.nudge_anchor == Some(pct)
            &&& m.average is None ==> shifted.nudge_anchor is None
            &&& !m.idle && !m.arm_grace && !m.in_grace && m.paused_until is None
                && m.nudge_anchor is None && m.nudge_pct != 0 ==> m.applied(
                now,
                force,
                reads,
            ).nudge_anchor == Some(pct)
            &&& m.nudge_anchor is None && m.nudge_pct == 0 ==> m.applied(
                now,
                force,
                reads,
            ).nudge_anchor is None
        }),
{
}

/// The first pass after a pause takes the values that the devices have over, so
/// that they do not suspend a channel, and acts upon the targets however little
/// they have changed.
pub proof fn law_pass_after_a_pause(m: ReactorModel, now: int, force: bool, reads: PassReads)
    requires
        !m.idle,
        !m.arm_grace,
        !m.in_grace,
        !m.open_pause,
        m.paused_until is Some,
        now >= m.paused_until->0,
    ensures
        ({
            let after = m.applied(now, force, reads);
            &&& after.paused_until is None
            &&& m.display.suspension is None && m.display.unchanged(
                reads.display.after_pause,
                reads.display.external,
            ) ==> {
                &&& after.display.suspension is None
                &&& m.display_cfg.enabled ==> after.display.last_target == Some(
                    target_of(m.display_cfg, m.smoothed, m.shift()),
                )
            }
            &&& m.keyboard.suspension is None && m.keyboard.unchanged(
                reads.keyboard.after_pause,
                reads.keyboard.external,
            ) ==> {
                &&& after.keyboard.suspension is None
                &&& m.keyboard_cfg.enabled ==> after.keyboard.last_target == Some(
                    target_of(m.keyboard_cfg, m.smoothed, 0),
                )
            }
        }),
{
}

/// The shift that is due is the one that was asked for, until the display's curve
/// leads elsewhere than to its anchor.
pub proof fn law_shift_that_is_due(m: ReactorModel)
    ensures
        m.nudge_anchor is None ==> m.shift() == m.nudge_pct,
        m.nudge_anchor matches Some(anchor) ==> {
            let pct = curve_target(m.display_cfg, m.smoothed);
            let over = !anchor.same(pct) && m.display_cfg.hysteresis_pct@.le(
                anchor.minus(pct).absolute(),
            );
            m.shift() == (if over {
                0
            } else {
                m.nudge_pct
            })
        },
{
}

/// Every event is answered by its own action: an end, a warning with the cause,
/// a reply, what to write and whether that was the last of it.
pub proof fn law_events_are_answered(
    r: Reactor,
    action: Action,
    cause: String,
    error: ReadError,
    seconds: u64,
    delta: i32,
    now: u64,
    unix_now: u64,
    readings: Readings,
    force: bool,
    reads: PassReads,
    event: IdleEvent,
)
    ensures
        r.calls_for(Event::Signal, action) <==> action is Exit,
        r.calls_for(Event::Idle(event), action) <==> action is Wait,
        r.calls_for(Event::Grace { readings }, action) <==> action is Wait,
        r.calls_for(Event::Tick { reading: Err(error), now, force, reads }, action) <==> action
            == Action::Warn(error),
        r.calls_for(Event::Line { request: Err(cause), now, unix_now, readings }, action)
            ==> {
            &&& action matches Action::Send(Reply::Error(message))
            &&& message@ == "bad request: "@ + cause@
        },
        r.calls_for(
            Event::Line { request: Ok(Request::Pause { seconds }), now, unix_now, readings },
            action,
        ) <==> action == Action::Send(Reply::Done),
        r.calls_for(Event::Line { request: Ok(Request::Resume), now, unix_now, readings }, action)
            <==> action == Action::Send(Reply::Done),
        r.calls_for(
            Event::Line { request: Ok(Request::Nudge { delta }), now, unix_now, readings },
            action,
        ) <==> action == Action::Send(Reply::Done),
        r.calls_for(Event::Line { request: Ok(Request::Status), now, unix_now, readings }, action)
            ==> {
            &&& action matches Action::Send(Reply::Status(status))
            &&& r.reports(status, now, unix_now, readings)
        },
        r.calls_for(Event::Ramp, action) ==> {
            &&& action matches Action::Write(tick)
            &&& tick.display == r@.display_write()
            &&& tick.keyboard == r@.keyboard_write()
            &&& tick.last <==> r@.after(Event::Ramp).display.ramp.len() == 0 && r@.after(
                Event::Ramp,
            ).keyboard.ramp.len() == 0
        },
{
}

/// A new interval is set if and only if a reading of the light sensor starts a
/// transition.
pub proof fn law_readings_are_answered(
    r: Reactor,
    action: Action,
    raw: Single,
    now: u64,
    force: bool,
    reads: PassReads,
)
    requires
        r.calls_for(Event::Tick { reading: Ok(raw), now, force, reads }, action),
    ensures
        ({
            let light = average(r.sensor.alpha@, r.sensor.average(), raw@);
            let lit = ReactorModel { raw: raw@, smoothed: light, average: Some(light), ..r@ };
            match lit.interval_after(now as int, force, reads) {
                Some(interval) => action matches Action::StepEvery(nanos) && nanos == interval,
                None => action is Wait,
            }
        }),
{
}

/// Every request is carried out: a pause and resuming always, a shift as long as
/// the sum can be counted, and the status as long as the end of a pause can.
pub proof fn law_requests_are_carried_out(
    m: ReactorModel,
    seconds: u64,
    delta: i32,
    now: int,
    unix_now: int,
)
    ensures
        m.can_handle(Request::Pause { seconds }, now, unix_now),
        m.can_handle(Request::Resume, now, unix_now),
        -0x8000_0000 <= m.nudge_pct + delta <= 0x7fff_ffff ==> m.can_handle(
            Request::Nudge { delta },
            now,
            unix_now,
        ),
        m.paused_until is None ==> m.can_handle(Request::Status, now, unix_now),
        m.paused_until matches Some(until) ==> 0 <= unix_now && now <= until && unix_now
            * 1_000_000_000 + (until - now) <= u64::MAX * 1_000_000_000 ==> m.can_handle(
            Request::Status,
            now,
            unix_now,
        ),
{
}

}
