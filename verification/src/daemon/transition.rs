//! Making the transitions that were decided upon: the display's first, then the
//! keyboard's, each value followed by a pause.
//!
//! Each step says what is to be done outside, and is handed back with what came
//! of it. The state may change between the steps: a transition is given up as
//! soon as nothing may be written any more.

use crate::channel::{queue_of, ChannelModel, NANOS_PER_SECOND};
use crate::daemon::{Decision, DecisionReads, State, StateModel};
use crate::idle::IdleEvent;
use crate::ipc::Request;
use crate::output::{lemma_raw_fits, raw_of, step_nanos, Backlight, ChannelKind, ReadError};
use crate::ramp::{law_ramp_ends_at_target, ramp_values};
use crate::reactor::{Readings, NANOS_PER_MILLI};
use crate::single::{Number, Single};
use std::collections::VecDeque;
use vstd::prelude::*;

verus! {

/// The transitions that are still to be made.
#[derive(Clone, Copy, Debug)]
pub struct Rest {
    pub display: Option<Single>,
    pub keyboard: Option<Single>,
    /// The light that they were decided upon for.
    pub lux: Single,
    /// A target has changed, whether or not there is a device to show it.
    pub changed: bool,
}

/// A device is to be read, to make a transition from there.
#[derive(Debug)]
pub struct Reading {
    pub kind: ChannelKind,
    pub target: Single,
    pub rest: Rest,
}

/// A value is to be written.
#[derive(Debug)]
pub struct Writing {
    pub kind: ChannelKind,
    pub target: Single,
    /// What to write.
    pub raw: u32,
    /// The values that come after it.
    pub values: VecDeque<u32>,
    pub pause_nanos: u128,
    pub rest: Rest,
}

/// Some time is to pass.
#[derive(Debug)]
pub struct Pausing {
    pub kind: ChannelKind,
    pub target: Single,
    /// The values that come after it.
    pub values: VecDeque<u32>,
    pub pause_nanos: u128,
    pub rest: Rest,
}

/// Why a transition could not be made.
#[derive(Clone, Copy, Debug)]
pub enum Failure {
    Read(ReadError),
    Write,
}

/// What is to be done next.
#[derive(Debug)]
pub enum Step {
    /// Read the device of a channel.
    Read(Reading),
    /// Write a value to the device of a channel.
    Write(Writing),
    /// Let some time pass.
    Sleep(Pausing),
    /// Nothing: all transitions are made.
    Done,
    /// Nothing: the transitions are given up.
    GivenUp,
    /// Report that a transition could not be made.
    Failed(Failure),
}

/// What is to be done next, as a value.
pub enum StepModel {
    Read { kind: ChannelKind, target: Single, rest: Rest },
    Write {
        kind: ChannelKind,
        target: Single,
        raw: u32,
        values: Seq<u32>,
        pause: int,
        rest: Rest,
    },
    Sleep { kind: ChannelKind, target: Single, values: Seq<u32>, pause: int, rest: Rest },
    Done,
    GivenUp,
    Failed(Failure),
}

impl View for Step {
    type V = StepModel;

    open spec fn view(&self) -> StepModel {
        match self {
            Step::Read(r) => StepModel::Read { kind: r.kind, target: r.target, rest: r.rest },
            Step::Write(w) => StepModel::Write {
                kind: w.kind,
                target: w.target,
                raw: w.raw,
                values: w.values@,
                pause: w.pause_nanos as int,
                rest: w.rest,
            },
            Step::Sleep(p) => StepModel::Sleep {
                kind: p.kind,
                target: p.target,
                values: p.values@,
                pause: p.pause_nanos as int,
                rest: p.rest,
            },
            Step::Done => StepModel::Done,
            Step::GivenUp => StepModel::GivenUp,
            Step::Failed(f) => StepModel::Failed(*f),
        }
    }
}

impl StateModel {
    /// The next transition is turned to, if there is one: the new state, and
    /// what is to be done.
    pub open spec fn turning(self, rest: Rest) -> (StateModel, StepModel) {
        if rest.display is Some && self.display.backlight is Some {
            (
                self,
                StepModel::Read {
                    kind: ChannelKind::Display,
                    target: rest.display->0,
                    rest: Rest { display: None, ..rest },
                },
            )
        } else if rest.keyboard is Some && self.keyboard.backlight is Some {
            (
                self,
                StepModel::Read {
                    kind: ChannelKind::Keyboard,
                    target: rest.keyboard->0,
                    rest: Rest { display: None, keyboard: None, ..rest },
                },
            )
        } else if rest.changed {
            (StateModel { last_lux: rest.lux@, ..self }, StepModel::Done)
        } else {
            (self, StepModel::Done)
        }
    }

    /// A transition is made: its target is the last one of its channel.
    pub open spec fn reaching(self, kind: ChannelKind, target: Single) -> StateModel {
        self.with_channel(
            kind,
            ChannelModel { last_target: Some(target@), ..self.channel(kind) },
        )
    }

    /// A transition is given up. Its channel, and those whose transitions were
    /// still to be made, forget their targets.
    pub open spec fn giving_up(self, kind: ChannelKind, rest: Rest) -> StateModel {
        let display = kind == ChannelKind::Display || rest.display is Some;
        let keyboard = kind == ChannelKind::Keyboard || rest.keyboard is Some;
        StateModel {
            display: if display {
                self.display.forgetting()
            } else {
                self.display
            },
            keyboard: if keyboard {
                self.keyboard.forgetting()
            } else {
                self.keyboard
            },
            ..self
        }
    }

    /// A transition goes on with its next value: the new state, and what is to
    /// be done.
    pub open spec fn going_on(
        self,
        kind: ChannelKind,
        target: Single,
        values: Seq<u32>,
        pause: int,
        rest: Rest,
        now: int,
    ) -> (StateModel, StepModel) {
        if values.len() == 0 {
            self.reaching(kind, target).turning(rest)
        } else {
            match self.writes(kind, values[0], now) {
                Some(raw) => (
                    self,
                    StepModel::Write { kind, target, raw, values: values.skip(1), pause, rest },
                ),
                None => (self.giving_up(kind, rest), StepModel::GivenUp),
            }
        }
    }

    /// A device was read: the new state, and what is to be done.
    pub open spec fn after_reading(
        self,
        kind: ChannelKind,
        target: Single,
        rest: Rest,
        reading: Result<u32, ReadError>,
        now: int,
    ) -> (StateModel, StepModel) {
        let m = self.channel(kind);
        match (m.backlight, reading) {
            (None, _) => self.turning(rest),
            (_, Err(e)) => (self, StepModel::Failed(Failure::Read(e))),
            (Some(backlight), Ok(from)) => {
                let to = raw_of(target@, backlight.max);
                let steps = self.cfg.ramp_steps;
                let pause = step_nanos(self.cfg.ramp_duration_ms * NANOS_PER_MILLI, steps as int);
                if from == to {
                    self.with_channel(kind, m.adopting(Ok(from))).reaching(kind, target).turning(
                        rest,
                    )
                } else {
                    self.going_on(
                        kind,
                        target,
                        ramp_values(from, to as u32, steps),
                        pause,
                        rest,
                        now,
                    )
                }
            },
        }
    }
}

impl State {
    /// Turns to the next transition, if there is one.
    fn turn(&mut self, rest: Rest) -> (step: Step)
        ensures
            old(self).wf() ==> final(self).wf(),
            (final(self)@, step@) == old(self)@.turning(rest),
    {
        if let (Some(target), Some(_)) = (rest.display, self.display) {
            return Step::Read(
                Reading {
                    kind: ChannelKind::Display,
                    target,
                    rest: Rest { display: None, ..rest },
                },
            );
        }
        if let (Some(target), Some(_)) = (rest.keyboard, self.keyboard) {
            return Step::Read(
                Reading {
                    kind: ChannelKind::Keyboard,
                    target,
                    rest: Rest { display: None, keyboard: None, ..rest },
                },
            );
        }
        if rest.changed {
            self.last_lux = rest.lux;
        }
        Step::Done
    }

    /// Records that the transition of a channel was made.
    fn reach(&mut self, kind: ChannelKind, target: Single)
        ensures
            old(self).wf() ==> final(self).wf(),
            final(self)@ == old(self)@.reaching(kind, target),
    {
        match kind {
            ChannelKind::Display => {
                self.last_targets.display = Some(target);
            },
            ChannelKind::Keyboard => {
                self.last_targets.keyboard = Some(target);
            },
        }
    }

    /// Gives the transition of a channel up, and those still to be made, so that
    /// the next decision takes them up again.
    fn give_up(&mut self, kind: ChannelKind, rest: &Rest)
        ensures
            old(self).wf() ==> final(self).wf(),
            final(self)@ == old(self)@.giving_up(kind, *rest),
    {
        let (display, keyboard) = match kind {
            ChannelKind::Display => (true, rest.keyboard.is_some()),
            ChannelKind::Keyboard => (rest.display.is_some(), true),
        };
        if display {
            self.last_targets.display = None;
        }
        if keyboard {
            self.last_targets.keyboard = None;
        }
    }

    /// What to write for a value of a transition, if anything may be written.
    fn allowed(&self, kind: ChannelKind, value: u32, now: u64) -> (write: Option<u32>)
        ensures
            write == self@.writes(kind, value, now as int),
    {
        let (slot, over) = match kind {
            ChannelKind::Display => (self.display, self.display_override),
            ChannelKind::Keyboard => (self.keyboard, self.keyboard_override),
        };
        match slot {
            Some(backlight) => if self.acts(now) && over.is_none() {
                Some(backlight.limit(value))
            } else {
                None
            },
            None => None,
        }
    }

    /// Goes on with the next value of a transition.
    fn go_on(
        &mut self,
        kind: ChannelKind,
        target: Single,
        values: VecDeque<u32>,
        pause_nanos: u128,
        rest: Rest,
        now: u64,
    ) -> (step: Step)
        ensures
            old(self).wf() ==> final(self).wf(),
            (final(self)@, step@) == old(self)@.going_on(
                kind,
                target,
                values@,
                pause_nanos as int,
                rest,
                now as int,
            ),
    {
        let mut values = values;
        match values.pop_front() {
            None => {
                self.reach(kind, target);
                self.turn(rest)
            },
            Some(value) => match self.allowed(kind, value, now) {
                Some(raw) => Step::Write(
                    Writing { kind, target, raw, values, pause_nanos, rest },
                ),
                None => {
                    self.give_up(kind, &rest);
                    Step::GivenUp
                },
            },
        }
    }

    /// Starts to make the transitions that were decided upon for some light.
    pub fn start(&mut self, decision: Decision, lux: Single) -> (step: Step)
        ensures
            old(self).wf() ==> final(self).wf(),
            (final(self)@, step@) == old(self)@.turning(
                (Rest {
                    display: decision.display,
                    keyboard: decision.keyboard,
                    lux,
                    changed: decision.changed,
                }),
            ),
    {
        self.turn(
            Rest {
                display: decision.display,
                keyboard: decision.keyboard,
                lux,
                changed: decision.changed,
            },
        )
    }

    /// Starts a transition from what its device reads.
    pub fn after_read(
        &mut self,
        step: Reading,
        reading: Result<u32, ReadError>,
        now: u64,
    ) -> (next: Step)
        ensures
            old(self).wf() ==> final(self).wf(),
            (final(self)@, next@) == old(self)@.after_reading(
                step.kind,
                step.target,
                step.rest,
                reading,
                now as int,
            ),
    {
        let Reading { kind, target, rest } = step;
        let slot = match kind {
            ChannelKind::Display => self.display,
            ChannelKind::Keyboard => self.keyboard,
        };
        let mut backlight = match slot {
            Some(backlight) => backlight,
            None => return self.turn(rest),
        };
        let duration_nanos = self.cfg.ramp_duration_ms as u128 * NANOS_PER_MILLI;
        let plan = match backlight.ramp_to(target, duration_nanos, self.cfg.ramp_steps, reading) {
            Ok(plan) => plan,
            Err(e) => return Step::Failed(Failure::Read(e)),
        };
        match kind {
            ChannelKind::Display => {
                self.display = Some(backlight);
            },
            ChannelKind::Keyboard => {
                self.keyboard = Some(backlight);
            },
        }
        self.go_on(kind, target, queue_of(&plan.values), plan.pause_nanos, rest, now)
    }

    /// Takes note of whether a value was written.
    pub fn after_write(&mut self, step: Writing, written: bool) -> (next: Step)
        ensures
            old(self).wf() ==> final(self).wf(),
            final(self)@ == old(self)@.with_channel(
                step.kind,
                old(self)@.channel(step.kind).recorded(step.raw, written),
            ),
            next@ == (if written {
                StepModel::Sleep {
                    kind: step.kind,
                    target: step.target,
                    values: step.values@,
                    pause: step.pause_nanos as int,
                    rest: step.rest,
                }
            } else {
                StepModel::Failed(Failure::Write)
            }),
    {
        let slot = match step.kind {
            ChannelKind::Display => &mut self.display,
            ChannelKind::Keyboard => &mut self.keyboard,
        };
        if let Some(mut backlight) = *slot {
            let _ = backlight.write_raw(step.raw, written);
            *slot = Some(backlight);
        }
        if !written {
            return Step::Failed(Failure::Write);
        }
        Step::Sleep(
            Pausing {
                kind: step.kind,
                target: step.target,
                values: step.values,
                pause_nanos: step.pause_nanos,
                rest: step.rest,
            },
        )
    }

    /// Goes on after some time has passed.
    pub fn after_sleep(&mut self, step: Pausing, now: u64) -> (next: Step)
        ensures
            old(self).wf() ==> final(self).wf(),
            (final(self)@, next@) == old(self)@.going_on(
                step.kind,
                step.target,
                step.values@,
                step.pause_nanos as int,
                step.rest,
                now as int,
            ),
    {
        let Pausing { kind, target, values, pause_nanos, rest } = step;
        self.go_on(kind, target, values, pause_nanos, rest, now)
    }
}

/// From the moment on that the seat becomes idle or a pause is asked for,
/// nothing is written to either channel, even if a transition is under way. When
/// the seat becomes active, that is so until the time left to others is over.
pub proof fn law_nothing_is_written_meanwhile(
    m: StateModel,
    kind: ChannelKind,
    value: u32,
    lux: Option<Number>,
    seconds: u64,
    asked: int,
    readings: Readings,
    now: int,
)
    ensures
        m.notified(IdleEvent::Idled, asked).writes(kind, value, now) is None,
        now < asked + m.cfg.idle_resume_grace_ms * NANOS_PER_MILLI ==> m.notified(
            IdleEvent::Resumed,
            asked,
        ).writes(kind, value, now) is None,
        seconds == 0 || now < asked + seconds * NANOS_PER_SECOND ==> m.commanded(
            Request::Pause { seconds },
            lux,
            asked,
            readings,
        ).writes(kind, value, now) is None,
{
}

/// A transition that is given up is taken up again: the next decision that looks
/// for a target of its channel acts upon it, however close it is to an earlier
/// one. So it is with transitions that were still to be made.
pub proof fn law_given_up_transition_is_taken_up(
    m: StateModel,
    kind: ChannelKind,
    rest: Rest,
    now: int,
    lux: Number,
    force: bool,
    reads: DecisionReads,
)
    ensures
        ({
            let after = m.giving_up(kind, rest);
            let settled = after.settled(now, lux, reads).0;
            &&& (kind == ChannelKind::Display || rest.display is Some) && m.cfg.display.enabled
                && settled.display.suspension is None ==> after.display_needed(
                now,
                lux,
                force,
                reads,
            )
            &&& (kind == ChannelKind::Keyboard || rest.keyboard is Some) && m.cfg.keyboard.enabled
                && settled.keyboard.suspension is None ==> after.keyboard_needed(
                now,
                lux,
                force,
                reads,
            )
        }),
{
}

/// After a transition whose last value was written, that value is the target's,
/// limited to full brightness, and does not count as changed by others.
pub proof fn law_finished_transition_is_ours(
    m: StateModel,
    kind: ChannelKind,
    target: Single,
    from: u32,
)
    requires
        m.channel(kind).backlight is Some,
    ensures
        ({
            let backlight = m.channel(kind).backlight->0;
            let to = raw_of(target@, backlight.max) as u32;
            let last = ramp_values(from, to, m.cfg.ramp_steps).last();
            let after = m.with_channel(kind, m.channel(kind).recorded(last, true));
            &&& after.channel(kind).backlight->0.last_written == Some(backlight.limited(to))
            &&& !after.channel(kind).shows_change(Ok(backlight.limited(to)))
        }),
{
    law_ramp_ends_at_target(
        from,
        raw_of(target@, m.channel(kind).backlight->0.max) as u32,
        m.cfg.ramp_steps,
    );
}

/// The display's transition comes first, then the keyboard's, each from what its
/// device reads. When none is left all is done, and the light that they were
/// decided upon for is noted if a target had changed. A transition of a channel
/// without a device is passed over.
pub proof fn law_display_comes_first(m: StateModel, rest: Rest)
    ensures
        rest.display matches Some(target) ==> m.display.backlight is Some ==> m.turning(rest) == (
            m,
            StepModel::Read {
                kind: ChannelKind::Display,
                target,
                rest: Rest {
                    display: None,
                    keyboard: rest.keyboard,
                    lux: rest.lux,
                    changed: rest.changed,
                },
            },
        ),
        rest.keyboard matches Some(target) ==> m.keyboard.backlight is Some && (rest.display is None
            || m.display.backlight is None) ==> m.turning(rest) == (
            m,
            StepModel::Read {
                kind: ChannelKind::Keyboard,
                target,
                rest: Rest {
                    display: None,
                    keyboard: None,
                    lux: rest.lux,
                    changed: rest.changed,
                },
            },
        ),
        (rest.display is None || m.display.backlight is None) && (rest.keyboard is None
            || m.keyboard.backlight is None) ==> {
            &&& m.turning(rest).1 is Done
            &&& rest.changed ==> m.turning(rest).0 == (StateModel { last_lux: rest.lux@, ..m })
            &&& !rest.changed ==> m.turning(rest).0 == m
        },
{
}

/// A transition starts at what the device reads. One that is there already is
/// made at once: the reading is taken for our own. Any other goes by the even
/// values from there to the raw value of the target, the first of which, limited
/// to full brightness, is written, and its duration is divided by its steps to
/// the nanosecond. A device that cannot be read fails the transition.
pub proof fn law_transition_starts_at_the_device(
    m: StateModel,
    kind: ChannelKind,
    target: Single,
    rest: Rest,
    reading: Result<u32, ReadError>,
    now: int,
)
    requires
        !m.idle,
        m.grace_until is None,
        m.paused_until is None,
        m.channel(kind).suspension is None,
        m.channel(kind).backlight is Some,
        m.cfg.ramp_steps > 0,
    ensures
        reading matches Err(e) ==> m.after_reading(kind, target, rest, reading, now) == (
            m,
            StepModel::Failed(Failure::Read(e)),
        ),
        reading matches Ok(from) ==> {
            let max = m.channel(kind).backlight->0.max;
            let to = raw_of(target@, max) as u32;
            let values = ramp_values(from, to, m.cfg.ramp_steps);
            let after = m.after_reading(kind, target, rest, reading, now);
            &&& from == to ==> {
                let made = m.with_channel(
                    kind,
                    ChannelModel {
                        backlight: Some(Backlight { max, last_written: Some(from) }),
                        last_target: Some(target@),
                        ..m.channel(kind)
                    },
                );
                after == made.turning(rest)
            }
            &&& from != to ==> {
                &&& after.0 == m
                &&& after.1 matches StepModel::Write {
                    kind: k,
                    target: t,
                    raw,
                    values: next,
                    pause,
                    rest: r,
                }
                &&& k == kind && t == target && r == rest
                &&& raw == (if values[0] <= max {
                    values[0]
                } else {
                    max
                })
                &&& next == values.skip(1)
                &&& pause * m.cfg.ramp_steps <= m.cfg.ramp_duration_ms * 1_000_000 < (pause + 1)
                    * m.cfg.ramp_steps
            }
        },
{
    if reading is Ok {
        let max = m.channel(kind).backlight->0.max;
        lemma_raw_fits(target, max);
        law_ramp_ends_at_target(reading->Ok_0, raw_of(target@, max) as u32, m.cfg.ramp_steps);
    }
    let duration = m.cfg.ramp_duration_ms * 1_000_000;
    let steps = m.cfg.ramp_steps as int;
    let pause = duration / steps;
    assert(pause * steps <= duration < (pause + 1) * steps) by (nonlinear_arith)
        requires
            pause == duration / steps,
            steps > 0,
    ;
}

/// A transition under way writes its values in turn, each limited to full
/// brightness, as long as the seat is in use, control is not paused and the
/// channel is not suspended. After the last one the target is the channel's last
/// target, and the next transition is turned to.
pub proof fn law_values_are_written_in_turn(
    m: StateModel,
    kind: ChannelKind,
    target: Single,
    values: Seq<u32>,
    pause: int,
    rest: Rest,
    now: int,
)
    ensures
        values.len() == 0 ==> m.going_on(kind, target, values, pause, rest, now)
            == m.with_channel(
            kind,
            ChannelModel { last_target: Some(target@), ..m.channel(kind) },
        ).turning(rest),
        m.channel(kind).backlight matches Some(backlight) ==> values.len() > 0 ==> {
            let idle = m.idle || (m.grace_until is Some && now < m.grace_until->0) || (
            m.paused_until is Some && (m.open_pause || now < m.paused_until->0));
            let after = m.going_on(kind, target, values, pause, rest, now);
            &&& !idle && m.channel(kind).suspension is None ==> after == (
                m,
                StepModel::Write {
                    kind,
                    target,
                    raw: if values[0] <= backlight.max {
                        values[0]
                    } else {
                        backlight.max
                    },
                    values: values.skip(1),
                    pause,
                    rest,
                },
            )
            &&& idle || m.channel(kind).suspension is Some ==> {
                &&& after.1 is GivenUp
                &&& after.0.channel(kind).last_target is None
                &&& after.0.channel(kind).backlight == m.channel(kind).backlight
                &&& after.0.channel(kind).suspension == m.channel(kind).suspension
                &&& rest.display is Some ==> after.0.display.last_target is None
                &&& rest.keyboard is Some ==> after.0.keyboard.last_target is None
            }
        },
{
}

/// The display's state is what is replaced for the display, and the keyboard's
/// for the keyboard.
pub proof fn law_channels_are_not_mixed_up(m: StateModel, channel: ChannelModel)
    ensures
        m.channel(ChannelKind::Display) == m.display,
        m.channel(ChannelKind::Keyboard) == m.keyboard,
        m.with_channel(ChannelKind::Display, channel) == (StateModel { display: channel, ..m }),
        m.with_channel(ChannelKind::Keyboard, channel) == (StateModel { keyboard: channel, ..m }),
{
}

}
