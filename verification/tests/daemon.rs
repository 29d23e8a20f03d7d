use asahi_brightness::config::Config;
use asahi_brightness::daemon::transition::{Failure, Step};
use asahi_brightness::daemon::{sync_one, target_changed, Decision, DecisionReads, State};
use asahi_brightness::idle::IdleEvent;
use asahi_brightness::ipc::Request;
use asahi_brightness::output::{Backlight, ChannelKind, DeviceProbe, OpenError, ReadError};
use asahi_brightness::reactor::Readings;
use asahi_brightness::sensor::LuxSample;
use asahi_brightness::single::Single;

const SECOND: u64 = 1_000_000_000;

const NOW: u64 = 5000 * SECOND;

fn wrap(x: f32) -> Single {
    Single::from_bits(x.to_bits())
}

fn unwrap(s: Single) -> f32 {
    f32::from_bits(s.to_bits())
}

fn probe() -> DeviceProbe {
    DeviceProbe { exists: true, max_text: Ok("100\n".into()), writable: Ok(()) }
}

fn state() -> State {
    State::new(Config::default(), &probe(), &probe()).unwrap()
}

fn readings(display: u32, keyboard: u32) -> Readings {
    Readings { display: Ok(display), keyboard: Ok(keyboard) }
}

fn reads(display: u32, keyboard: u32) -> DecisionReads {
    let r = readings(display, keyboard);
    DecisionReads { after_grace: r, after_pause: r, after_override: r, external: r }
}

fn sample(lux: f32) -> Option<LuxSample> {
    Some(LuxSample { raw: wrap(lux), smoothed: wrap(lux) })
}

fn decide(s: &mut State, lux: f32, now: u64, reads: &DecisionReads) -> Decision {
    assert!(s.can_apply(now, wrap(lux), reads));
    s.apply(now, wrap(lux), false, reads).unwrap()
}

/// Makes the transitions that were decided upon, and gives the values written.
fn carry_out(
    s: &mut State,
    decision: Decision,
    lux: f32,
    now: u64,
    display: u32,
    keyboard: u32,
) -> (Vec<u32>, Vec<u32>) {
    let mut written = (Vec::new(), Vec::new());
    let mut step = s.start(decision, wrap(lux));
    loop {
        step = match step {
            Step::Read(reading) => {
                let raw = match reading.kind {
                    ChannelKind::Display => display,
                    ChannelKind::Keyboard => keyboard,
                };
                s.after_read(reading, Ok(raw), now)
            }
            Step::Write(writing) => {
                match writing.kind {
                    ChannelKind::Display => written.0.push(writing.raw),
                    ChannelKind::Keyboard => written.1.push(writing.raw),
                }
                s.after_write(writing, true)
            }
            Step::Sleep(pausing) => {
                assert_eq!(pausing.pause_nanos, 10_000_000);
                s.after_sleep(pausing, now)
            }
            Step::Done => return written,
            other => panic!("{other:?}"),
        };
    }
}

/// A decision, and the transitions that it asks for.
fn settle(
    s: &mut State,
    lux: f32,
    now: u64,
    display: u32,
    keyboard: u32,
) -> (Option<u32>, Option<u32>) {
    let decision = decide(s, lux, now, &reads(display, keyboard));
    let written = carry_out(s, decision, lux, now, display, keyboard);
    (written.0.last().copied(), written.1.last().copied())
}

/// The first step that writes.
fn first_write(s: &mut State, decision: Decision, lux: f32, now: u64, raw: u32) -> Step {
    match s.start(decision, wrap(lux)) {
        Step::Read(reading) => s.after_read(reading, Ok(raw), now),
        other => panic!("{other:?}"),
    }
}

#[test]
fn devices_must_be_usable() {
    let mut broken = probe();
    broken.exists = false;
    assert!(matches!(
        State::new(Config::default(), &broken, &probe()),
        Err(OpenError::NoDevice { .. })
    ));
    assert!(matches!(
        State::new(Config::default(), &probe(), &broken),
        Err(OpenError::NoDevice { .. })
    ));
    let mut config = Config::default();
    config.keyboard.enabled = false;
    let s = State::new(config, &probe(), &broken).unwrap();
    assert!(s.display.is_some() && s.keyboard.is_none());
}

#[test]
fn transitions_are_decided_and_made() {
    let mut s = state();
    assert_eq!(settle(&mut s, 50.0, NOW, 90, 90), (Some(30), Some(18)));
    assert_eq!(unwrap(s.last_lux), 50.0);
    assert_eq!(s.last_targets.display.map(unwrap), Some(30.0));
    assert_eq!(s.display.unwrap().last_written, Some(30));
    // The light hardly changes.
    let decision = decide(&mut s, 50.5, NOW + SECOND, &reads(30, 18));
    assert!(decision.display.is_none() && decision.keyboard.is_none() && !decision.changed);
}

#[test]
fn forced_decision_repeats_targets() {
    let mut s = state();
    settle(&mut s, 50.0, NOW, 90, 90);
    let decision = s.apply(NOW + SECOND, wrap(50.0), true, &reads(30, 18)).unwrap();
    assert_eq!(decision.display.map(unwrap), Some(30.0));
    assert_eq!(decision.keyboard.map(unwrap), Some(17.5));
}

#[test]
fn failed_transition_leaves_the_target_open() {
    let mut s = state();
    let decision = decide(&mut s, 50.0, NOW, &reads(90, 90));
    let step = match s.start(decision, wrap(50.0)) {
        Step::Read(reading) => s.after_read(reading, Err(ReadError::Unreadable), NOW),
        other => panic!("{other:?}"),
    };
    assert!(matches!(step, Step::Failed(Failure::Read(ReadError::Unreadable))));
    let step = match first_write(&mut s, decision, 50.0, NOW, 90) {
        Step::Write(writing) => s.after_write(writing, false),
        other => panic!("{other:?}"),
    };
    assert!(matches!(step, Step::Failed(Failure::Write)));
    assert!(s.last_targets.display.is_none());
    assert_eq!(unwrap(s.last_lux), 0.0);
    assert!(decide(&mut s, 50.0, NOW + SECOND, &reads(90, 90)).display.is_some());
}

#[test]
fn display_comes_before_the_keyboard() {
    let mut s = state();
    let decision = decide(&mut s, 50.0, NOW, &reads(90, 90));
    let mut step = s.start(decision, wrap(50.0));
    let mut order = Vec::new();
    loop {
        step = match step {
            Step::Read(reading) => {
                order.push(matches!(reading.kind, ChannelKind::Display));
                if order.len() == 2 {
                    assert_eq!(s.last_targets.display.map(unwrap), Some(30.0));
                    assert!(s.last_targets.keyboard.is_none());
                }
                s.after_read(reading, Ok(90), NOW)
            }
            Step::Write(writing) => s.after_write(writing, true),
            Step::Sleep(pausing) => s.after_sleep(pausing, NOW),
            Step::Done => break,
            other => panic!("{other:?}"),
        };
    }
    assert_eq!(order, vec![true, false]);
    assert_eq!(s.last_targets.keyboard.map(unwrap), Some(17.5));
    assert_eq!(unwrap(s.last_lux), 50.0);
}

#[test]
fn transition_to_the_same_value_is_ours() {
    let mut s = state();
    let decision = Decision { display: None, keyboard: Some(wrap(17.5)), changed: true };
    assert_eq!(carry_out(&mut s, decision, 50.0, NOW, 0, 18), (vec![], vec![]));
    assert_eq!(s.keyboard.unwrap().last_written, Some(18));
    assert_eq!(s.last_targets.keyboard.map(unwrap), Some(17.5));
}

#[test]
fn nothing_decided_is_nothing_done() {
    let mut s = state();
    let decision = Decision { display: None, keyboard: None, changed: false };
    assert!(matches!(s.start(decision, wrap(70.0)), Step::Done));
    assert_eq!(unwrap(s.last_lux), 0.0);
}

#[test]
fn given_up_transition_is_taken_up_again() {
    let mut s = state();
    settle(&mut s, 50.0, NOW, 90, 90);
    assert_eq!(s.last_targets.display.map(unwrap), Some(30.0));
    let decision = decide(&mut s, 170.0, NOW + SECOND, &reads(30, 18));
    let mut step = first_write(&mut s, decision, 170.0, NOW + SECOND, 30);
    let mut raw = 30;
    for _ in 0..10 {
        step = match step {
            Step::Write(writing) => {
                raw = writing.raw;
                s.after_write(writing, true)
            }
            other => panic!("{other:?}"),
        };
        if raw >= 40 {
            break;
        }
        step = match step {
            Step::Sleep(pausing) => s.after_sleep(pausing, NOW + SECOND),
            other => panic!("{other:?}"),
        };
    }
    // Half-way a pause is asked for.
    s.handle_command(Request::Pause { seconds: 1 }, sample(170.0), NOW + SECOND, 0, &readings(raw, 18));
    let step = match step {
        Step::Sleep(pausing) => s.after_sleep(pausing, NOW + SECOND),
        other => panic!("{other:?}"),
    };
    assert!(matches!(step, Step::GivenUp));
    assert!(s.last_targets.display.is_none() && s.last_targets.keyboard.is_none());
    // The light is what it was before.
    assert_eq!(settle(&mut s, 50.0, NOW + 3 * SECOND, raw, 18).0, Some(30));
}

#[test]
fn manual_changes_suspend_their_own_channel() {
    let mut s = state();
    settle(&mut s, 50.0, NOW, 90, 90);
    assert_eq!(settle(&mut s, 20.0, NOW + SECOND, 77, 18), (None, Some(25)));
    let over = s.display_override.unwrap();
    assert_eq!(over.until, (NOW + 61 * SECOND) as u128);
    assert_eq!(unwrap(over.lux_anchor), 20.0);
    assert!(s.keyboard_override.is_none());
}

#[test]
fn overrides_end_by_time_and_by_light() {
    let mut s = state();
    settle(&mut s, 50.0, NOW, 90, 90);
    settle(&mut s, 50.0, NOW + SECOND, 77, 2);
    assert!(s.display_override.is_some() && s.keyboard_override.is_some());
    assert_eq!(settle(&mut s, 50.0, NOW + 60 * SECOND, 77, 2), (None, None));
    assert_eq!(settle(&mut s, 50.0, NOW + 61 * SECOND, 77, 2), (Some(30), Some(18)));
    settle(&mut s, 50.0, NOW + 62 * SECOND, 77, 18);
    assert!(s.display_override.is_some());
    assert_eq!(settle(&mut s, 200.0, NOW + 63 * SECOND, 77, 18), (Some(55), Some(0)));
}

#[test]
fn override_in_the_dark_lasts_its_time() {
    let mut s = state();
    settle(&mut s, 0.0, NOW, 90, 90);
    settle(&mut s, 0.0, NOW + SECOND, 77, 40);
    assert!(s.display_override.is_some());
    settle(&mut s, 0.0, NOW + 2 * SECOND, 77, 40);
    assert!(s.display_override.is_some());
}

#[test]
fn unreadable_device_stops_a_decision() {
    let mut s = state();
    settle(&mut s, 50.0, NOW, 90, 90);
    let mut r = reads(30, 18);
    r.external.keyboard = Err(ReadError::NotANumber);
    assert!(s.can_apply(NOW + SECOND, wrap(200.0), &r));
    assert!(matches!(
        s.apply(NOW + SECOND, wrap(200.0), false, &r),
        Err(ReadError::NotANumber)
    ));
    r.external.display = Err(ReadError::Unreadable);
    assert!(matches!(
        s.apply(NOW + SECOND, wrap(200.0), false, &r),
        Err(ReadError::Unreadable)
    ));
    assert_eq!(s.last_targets.display.map(unwrap), Some(30.0));
}

#[test]
fn nudge_lasts_until_the_light_changes() {
    let mut s = state();
    settle(&mut s, 50.0, NOW, 90, 90);
    let r = readings(30, 18);
    s.handle_command(Request::Nudge { delta: 10 }, sample(50.0), NOW, 0, &r);
    assert_eq!(settle(&mut s, 50.0, NOW + SECOND, 30, 18).0, Some(40));
    settle(&mut s, 53.0, NOW + 2 * SECOND, 40, 18);
    assert_eq!(s.nudge_pct, 10);
    assert_eq!(settle(&mut s, 600.0, NOW + 3 * SECOND, 40, 18).0, Some(80));
    assert_eq!(s.nudge_pct, 0);
}

#[test]
fn transition_is_given_up_when_the_seat_becomes_idle() {
    for event in [IdleEvent::Idled, IdleEvent::Resumed] {
        let mut s = state();
        let decision = decide(&mut s, 50.0, NOW, &reads(90, 90));
        let step = match first_write(&mut s, decision, 50.0, NOW, 90) {
            Step::Write(writing) => s.after_write(writing, true),
            other => panic!("{other:?}"),
        };
        s.handle_idle(event, NOW);
        match step {
            Step::Sleep(pausing) => assert!(matches!(s.after_sleep(pausing, NOW), Step::GivenUp)),
            other => panic!("{other:?}"),
        }
    }
}

#[test]
fn writes_of_a_transition_are_limited() {
    let mut s = state();
    let decision = Decision { display: Some(wrap(50.0)), keyboard: None, changed: true };
    match first_write(&mut s, decision, 50.0, NOW, 4000) {
        Step::Write(writing) => assert_eq!(writing.raw, 100),
        other => panic!("{other:?}"),
    }
}

#[test]
fn devices_are_looked_at_only_when_it_matters() {
    let mut s = state();
    assert!(s.looks(NOW) && s.acts(NOW));
    s.handle_idle(IdleEvent::Idled, NOW);
    assert!(!s.looks(NOW) && !s.acts(NOW));
    s.handle_idle(IdleEvent::Resumed, NOW);
    assert!(!s.looks(NOW) && s.looks(NOW + SECOND));
    s.handle_command(Request::Pause { seconds: 5 }, sample(50.0), NOW, 0, &readings(30, 18));
    // The time left to others ends during the pause.
    assert!(s.looks(NOW + 2 * SECOND) && !s.acts(NOW + 2 * SECOND));
}

#[test]
fn nudge_holds_without_hysteresis_in_unchanged_light() {
    for hysteresis in [0.0f32, -1.0] {
        let mut s = state();
        s.cfg.display.hysteresis_pct = wrap(hysteresis);
        settle(&mut s, 50.0, NOW, 90, 90);
        s.handle_command(Request::Nudge { delta: 10 }, sample(50.0), NOW, 0, &readings(30, 18));
        assert_eq!(settle(&mut s, 50.0, NOW + SECOND, 30, 18).0, Some(40));
        assert_eq!(s.nudge_pct, 10);
        assert_eq!(settle(&mut s, 51.0, NOW + 2 * SECOND, 40, 18).0, Some(30));
        assert_eq!(s.nudge_pct, 0);
    }
}

#[test]
fn nudge_before_the_first_sample_is_kept() {
    let mut s = state();
    let r = readings(90, 90);
    assert!(s.handle_command(Request::Nudge { delta: 10 }, None, NOW, 0, &r).is_none());
    let told = s.handle_command(Request::Status, None, NOW, 0, &r).unwrap();
    assert_eq!(unwrap(told.lux_raw), 0.0);
    assert_eq!(unwrap(told.lux_smoothed), 0.0);
    assert_eq!(settle(&mut s, 50.0, NOW, 90, 90).0, Some(40));
    assert_eq!(s.nudge_pct, 10);
    assert_eq!(settle(&mut s, 600.0, NOW + SECOND, 40, 18).0, Some(80));
    assert_eq!(s.nudge_pct, 0);
}

#[test]
fn idle_seat_and_the_time_after_are_left_to_others() {
    let mut s = state();
    settle(&mut s, 50.0, NOW, 90, 90);
    s.handle_idle(IdleEvent::Idled, NOW);
    assert_eq!(settle(&mut s, 200.0, NOW + SECOND, 10, 18), (None, None));
    s.handle_idle(IdleEvent::Resumed, NOW + SECOND);
    assert_eq!(s.idle_resume_grace_until, Some((NOW + SECOND + SECOND / 2) as u128));
    assert_eq!(settle(&mut s, 200.0, NOW + SECOND + SECOND / 4, 10, 18), (None, None));
    assert_eq!(settle(&mut s, 200.0, NOW + 2 * SECOND, 12, 18), (Some(55), Some(0)));
    assert!(s.idle_resume_grace_until.is_none() && s.display_override.is_none());
}

#[test]
fn pause_holds_while_the_time_after_idleness_ends() {
    let mut s = state();
    settle(&mut s, 50.0, NOW, 90, 90);
    s.handle_idle(IdleEvent::Resumed, NOW);
    s.handle_command(Request::Pause { seconds: 30 }, sample(50.0), NOW, 0, &readings(30, 18));
    assert_eq!(settle(&mut s, 200.0, NOW + SECOND, 60, 18), (None, None));
    assert!(s.idle_resume_grace_until.is_none());
    assert_eq!(s.display.unwrap().last_written, Some(60));
    assert_eq!(settle(&mut s, 200.0, NOW + 30 * SECOND, 61, 18), (Some(55), Some(0)));
    assert!(s.paused_until.is_none());
}

#[test]
fn pause_of_zero_seconds_waits_for_resume() {
    let mut s = state();
    let r = readings(90, 90);
    s.handle_command(Request::Pause { seconds: 0 }, sample(50.0), NOW, 0, &r);
    let later = NOW + 400 * 24 * 3600 * SECOND;
    assert_eq!(settle(&mut s, 50.0, later, 90, 90), (None, None));
    s.handle_command(Request::Resume, sample(50.0), later, 0, &r);
    assert_eq!(settle(&mut s, 50.0, later, 90, 90), (Some(30), Some(18)));
}

#[test]
fn commands_are_carried_out() {
    let mut s = state();
    settle(&mut s, 50.0, NOW, 90, 90);
    settle(&mut s, 50.0, NOW + SECOND, 77, 18);
    let r = readings(77, 18);
    assert!(s.handle_command(Request::Nudge { delta: 70 }, sample(50.0), NOW, 0, &r).is_none());
    assert_eq!(s.nudge_pct, 50);
    assert!(s.handle_command(Request::Pause { seconds: 5 }, sample(50.0), NOW, 0, &r).is_none());
    let told = s.handle_command(Request::Status, sample(50.0), NOW, 1000, &r).unwrap();
    assert_eq!(told.paused_until_unix, Some(1005));
    assert_eq!(told.display_pct.map(unwrap), Some(77.0));
    assert_eq!(unwrap(told.lux_raw), 50.0);
    assert!(told.display_override_active && !told.keyboard_override_active && !told.idle);
    assert_eq!(told.nudge_pct, 50);
    assert!(s.handle_command(Request::Resume, sample(50.0), NOW, 0, &r).is_none());
    assert!(s.paused_until.is_none() && s.display_override.is_none());
    assert!(s.last_targets.display.is_none() && s.last_targets.keyboard.is_none());
    assert_eq!(settle(&mut s, 50.0, NOW + 2 * SECOND, 77, 18), (Some(80), None));
}

#[test]
fn impossible_commands_are_told() {
    let mut s = state();
    s.handle_command(Request::Nudge { delta: 1 }, sample(0.0), NOW, 0, &readings(0, 0));
    assert!(!s.accepts(&Request::Nudge { delta: i32::MAX }, NOW, 0));
    assert!(s.accepts(&Request::Nudge { delta: i32::MIN }, NOW, 0));
    s.handle_command(Request::Pause { seconds: 0 }, sample(0.0), NOW, 0, &readings(0, 0));
    assert!(!s.accepts(&Request::Status, NOW, u64::MAX));
    assert!(s.accepts(&Request::Resume, NOW, u64::MAX));
    s.handle_command(Request::Resume, sample(0.0), NOW, 0, &readings(0, 0));
    s.cfg.display.min_pct = wrap(101.0);
    assert!(!s.can_apply(NOW, wrap(50.0), &reads(0, 0)));
}

#[test]
fn missing_device_is_not_synced() {
    let mut none: Option<Backlight> = None;
    sync_one(&mut none, Ok(3));
    assert!(none.is_none());
    let mut some = Some(Backlight { max: 9, last_written: None });
    sync_one(&mut some, Err(ReadError::Unreadable));
    assert_eq!(some.unwrap().last_written, None);
    sync_one(&mut some, Ok(3));
    assert_eq!(some.unwrap().last_written, Some(3));
}

#[test]
fn target_that_comes_or_goes_has_changed() {
    assert!(target_changed(None, Some(wrap(0.0)), wrap(2.0)));
    assert!(target_changed(Some(wrap(0.0)), None, wrap(2.0)));
    assert!(!target_changed(None, None, wrap(2.0)));
    assert!(target_changed(Some(wrap(5.0)), Some(wrap(7.0)), wrap(2.0)));
    assert!(!target_changed(Some(wrap(5.0)), Some(wrap(6.9)), wrap(2.0)));
}
