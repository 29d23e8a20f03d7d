use asahi_brightness::channel::ChannelReads;
use asahi_brightness::config::Config;
use asahi_brightness::idle::IdleEvent;
use asahi_brightness::ipc::{Reply, Request, StatusReply};
use asahi_brightness::output::{DeviceProbe, ReadError};
use asahi_brightness::reactor::{Action, Event, PassReads, Reactor, Readings, Source};
use asahi_brightness::sensor::{IioDevice, Sensor};
use asahi_brightness::single::Single;

const SECOND: u64 = 1_000_000_000;

const NOW: u64 = 5000 * SECOND;

fn wrap(x: f32) -> Single {
    Single::from_bits(x.to_bits())
}

fn unwrap(s: Single) -> f32 {
    f32::from_bits(s.to_bits())
}

fn probe() -> DeviceProbe {
    DeviceProbe { exists: true, max_text: Ok("100\n".into()), writable: Ok(()) }
}

fn reactor_with(config: Config) -> Reactor {
    let devices = vec![IioDevice { name: Some("aop-sensors-als\n".into()), has_lux: true }];
    let sensor = Sensor::new(wrap(1.0), &devices).unwrap();
    let (reactor, display_error, keyboard_error) = Reactor::new(config, sensor, &probe(), &probe());
    assert!(display_error.is_none() && keyboard_error.is_none());
    reactor
}

fn reactor() -> Reactor {
    reactor_with(Config::default())
}

fn channel_reads(raw: u32) -> ChannelReads {
    ChannelReads { after_pause: Ok(raw), after_override: Ok(raw), external: Ok(raw), ramp_from: Ok(raw) }
}

fn pass_reads(display: u32, keyboard: u32) -> PassReads {
    PassReads { display: channel_reads(display), keyboard: channel_reads(keyboard) }
}

fn readings(display: u32, keyboard: u32) -> Readings {
    Readings { display: Ok(display), keyboard: Ok(keyboard) }
}

fn step(reactor: &mut Reactor, event: Event) -> Action {
    assert!(reactor.can_step(&event));
    reactor.step(event)
}

fn tick(reactor: &mut Reactor, lux: f32, now: u64, display: u32, keyboard: u32) -> Action {
    let event =
        Event::Tick { reading: Ok(wrap(lux)), now, force: false, reads: pass_reads(display, keyboard) };
    step(reactor, event)
}

fn ask(reactor: &mut Reactor, request: Request, now: u64, display: u32, keyboard: u32) -> Reply {
    let event = Event::Line {
        request: Ok(request),
        now,
        unix_now: 1_700_000_000,
        readings: readings(display, keyboard),
    };
    match step(reactor, event) {
        Action::Send(reply) => reply,
        other => panic!("{other:?}"),
    }
}

fn status(reactor: &mut Reactor, now: u64, display: u32, keyboard: u32) -> StatusReply {
    match ask(reactor, Request::Status, now, display, keyboard) {
        Reply::Status(status) => status,
        other => panic!("{other:?}"),
    }
}

/// Makes all steps of the transitions under way, and gives the last values.
fn run_out(reactor: &mut Reactor) -> (Option<u32>, Option<u32>) {
    let (mut display, mut keyboard) = (None, None);
    loop {
        match step(reactor, Event::Ramp) {
            Action::Write(tick) => {
                if let Some(value) = tick.display {
                    assert!(reactor.display.ramp_written(value, true).is_ok());
                    display = Some(value);
                }
                if let Some(value) = tick.keyboard {
                    assert!(reactor.keyboard.ramp_written(value, true).is_ok());
                    keyboard = Some(value);
                }
                if tick.last {
                    return (display, keyboard);
                }
            }
            other => panic!("{other:?}"),
        }
    }
}

#[test]
fn first_reading_drives_both_channels() {
    let mut r = reactor();
    let action = tick(&mut r, 50.0, NOW, 90, 90);
    assert!(matches!(action, Action::StepEvery(10_000_000)));
    assert_eq!(r.display.last_target.map(unwrap), Some(30.0));
    assert_eq!(r.keyboard.last_target.map(unwrap), Some(17.5));
    assert_eq!(r.display.ramp.len(), 20);
    assert_eq!(run_out(&mut r), (Some(30), Some(18)));
}

#[test]
fn steady_light_writes_nothing() {
    let mut r = reactor();
    tick(&mut r, 50.0, NOW, 90, 90);
    run_out(&mut r);
    assert!(matches!(tick(&mut r, 50.5, NOW + SECOND, 30, 18), Action::Wait));
    assert!(!r.display.ramping() && !r.keyboard.ramping());
}

#[test]
fn failed_reading_of_the_sensor_changes_nothing() {
    let mut r = reactor();
    tick(&mut r, 50.0, NOW, 90, 90);
    let event = Event::Tick {
        reading: Err(ReadError::NotANumber),
        now: NOW + SECOND,
        force: true,
        reads: pass_reads(1, 1),
    };
    assert!(matches!(step(&mut r, event), Action::Warn(ReadError::NotANumber)));
    assert_eq!(unwrap(r.smoothed), 50.0);
    assert!(r.display.override_state.is_none());
}

#[test]
fn bright_light_switches_the_keyboard_off() {
    let mut r = reactor();
    tick(&mut r, 50.0, NOW, 30, 18);
    tick(&mut r, 5000.0, NOW + SECOND, 30, 18);
    assert_eq!(run_out(&mut r), (Some(100), Some(0)));
}

#[test]
fn manual_change_of_the_display_leaves_the_keyboard() {
    let mut r = reactor();
    tick(&mut r, 50.0, NOW, 90, 90);
    run_out(&mut r);
    // Somebody moves the display's slider while the light falls.
    tick(&mut r, 20.0, NOW + SECOND, 77, 18);
    assert!(r.display.override_state.is_some());
    assert!(r.keyboard.override_state.is_none());
    assert_eq!(run_out(&mut r), (None, Some(25)));
    let s = status(&mut r, NOW + SECOND, 77, 25);
    assert!(s.display_override_active && !s.keyboard_override_active);
}

#[test]
fn manual_change_of_the_keyboard_leaves_the_display() {
    let mut r = reactor();
    tick(&mut r, 50.0, NOW, 90, 90);
    run_out(&mut r);
    tick(&mut r, 20.0, NOW + SECOND, 30, 0);
    assert!(r.display.override_state.is_none());
    assert!(r.keyboard.override_state.is_some());
    let (display, keyboard) = run_out(&mut r);
    assert_eq!((display, keyboard), (Some(19), None));
}

#[test]
fn override_ends_after_its_time() {
    let mut r = reactor();
    tick(&mut r, 50.0, NOW, 90, 90);
    run_out(&mut r);
    tick(&mut r, 50.0, NOW + SECOND, 77, 18);
    assert!(matches!(tick(&mut r, 50.0, NOW + 60 * SECOND, 77, 18), Action::Wait));
    assert!(matches!(tick(&mut r, 50.0, NOW + 61 * SECOND, 77, 18), Action::StepEvery(_)));
    assert!(r.display.override_state.is_none());
    assert_eq!(run_out(&mut r).0, Some(30));
}

#[test]
fn override_ends_when_the_light_changes() {
    let mut r = reactor();
    tick(&mut r, 50.0, NOW, 90, 90);
    run_out(&mut r);
    tick(&mut r, 50.0, NOW + SECOND, 77, 18);
    assert!(r.display.override_state.is_some());
    tick(&mut r, 200.0, NOW + 2 * SECOND, 77, 18);
    assert!(r.display.override_state.is_none());
    assert_eq!(run_out(&mut r).0, Some(55));
}

#[test]
fn pause_covers_both_channels() {
    let mut r = reactor();
    assert!(matches!(ask(&mut r, Request::Pause { seconds: 30 }, NOW, 90, 90), Reply::Done));
    assert!(matches!(tick(&mut r, 50.0, NOW + 29 * SECOND, 90, 90), Action::Wait));
    assert!(r.display.last_target.is_none() && r.keyboard.last_target.is_none());
    assert!(matches!(tick(&mut r, 50.0, NOW + 30 * SECOND, 90, 90), Action::StepEvery(_)));
    assert_eq!(run_out(&mut r), (Some(30), Some(18)));
    assert!(r.paused_until.is_none());
}

#[test]
fn pause_of_zero_seconds_lasts_until_resume() {
    let mut r = reactor();
    ask(&mut r, Request::Pause { seconds: 0 }, NOW, 90, 90);
    let year = 365 * 24 * 3600;
    assert_eq!(status(&mut r, NOW, 90, 90).paused_until_unix, Some(1_700_000_000 + year));
    for later in [3600, year, 2 * year] {
        assert!(matches!(tick(&mut r, 50.0, NOW + later * SECOND, 90, 90), Action::Wait));
    }
    assert!(matches!(ask(&mut r, Request::Resume, NOW + 2 * year * SECOND, 90, 90), Reply::Done));
    assert_eq!(status(&mut r, NOW, 90, 90).paused_until_unix, None);
    let action = tick(&mut r, 50.0, NOW + 2 * year * SECOND, 90, 90);
    assert!(matches!(action, Action::StepEvery(_)));
}

#[test]
fn later_pause_replaces_an_earlier_one() {
    let mut r = reactor();
    ask(&mut r, Request::Pause { seconds: 0 }, NOW, 90, 90);
    ask(&mut r, Request::Pause { seconds: 5 }, NOW, 90, 90);
    assert!(matches!(tick(&mut r, 50.0, NOW + 4 * SECOND, 90, 90), Action::Wait));
    assert!(matches!(tick(&mut r, 50.0, NOW + 5 * SECOND, 90, 90), Action::StepEvery(_)));
}

#[test]
fn changes_during_a_pause_are_taken_over() {
    let mut r = reactor();
    tick(&mut r, 50.0, NOW, 90, 90);
    run_out(&mut r);
    ask(&mut r, Request::Pause { seconds: 10 }, NOW + SECOND, 30, 18);
    tick(&mut r, 50.0, NOW + 11 * SECOND, 70, 18);
    assert!(r.display.override_state.is_none());
    assert_eq!(run_out(&mut r).0, Some(30));
}

#[test]
fn resume_clears_pause_and_overrides() {
    let mut r = reactor();
    tick(&mut r, 50.0, NOW, 90, 90);
    run_out(&mut r);
    tick(&mut r, 50.0, NOW + SECOND, 77, 2);
    assert!(r.display.override_state.is_some() && r.keyboard.override_state.is_some());
    ask(&mut r, Request::Pause { seconds: 100 }, NOW + SECOND, 77, 2);
    assert!(matches!(ask(&mut r, Request::Resume, NOW + 2 * SECOND, 77, 2), Reply::Done));
    let s = status(&mut r, NOW + 2 * SECOND, 77, 2);
    assert!(!s.display_override_active && !s.keyboard_override_active);
    assert_eq!(s.paused_until_unix, None);
    tick(&mut r, 50.0, NOW + 3 * SECOND, 77, 2);
    assert_eq!(run_out(&mut r), (Some(30), Some(18)));
}

#[test]
fn nudge_shifts_the_display_only() {
    let mut r = reactor();
    tick(&mut r, 50.0, NOW, 90, 90);
    run_out(&mut r);
    assert!(matches!(ask(&mut r, Request::Nudge { delta: 10 }, NOW, 30, 18), Reply::Done));
    tick(&mut r, 50.0, NOW + SECOND, 30, 18);
    assert_eq!(r.keyboard.last_target.map(unwrap), Some(17.5));
    assert_eq!(run_out(&mut r), (Some(40), None));
}

#[test]
fn nudge_ends_when_the_light_changes() {
    let mut r = reactor();
    tick(&mut r, 50.0, NOW, 90, 90);
    run_out(&mut r);
    ask(&mut r, Request::Nudge { delta: 10 }, NOW, 30, 18);
    tick(&mut r, 50.0, NOW + SECOND, 30, 18);
    run_out(&mut r);
    // Light that hardly changes leaves the nudge.
    tick(&mut r, 53.0, NOW + 2 * SECOND, 40, 18);
    assert_eq!(r.nudge_pct, 10);
    tick(&mut r, 600.0, NOW + 3 * SECOND, 40, 18);
    assert_eq!(r.nudge_pct, 0);
    assert_eq!(r.display.last_target.map(unwrap), Some(80.0));
    assert_eq!(run_out(&mut r).0, Some(80));
    // It does not come back with the light.
    tick(&mut r, 50.0, NOW + 4 * SECOND, 80, 0);
    assert_eq!(r.display.last_target.map(unwrap), Some(30.0));
}

#[test]
fn nudge_that_ends_is_taken_off_even_by_a_hair() {
    let mut r = reactor();
    tick(&mut r, 50.0, NOW, 90, 90);
    run_out(&mut r);
    ask(&mut r, Request::Nudge { delta: 10 }, NOW, 30, 18);
    tick(&mut r, 50.0, NOW + SECOND, 30, 18);
    run_out(&mut r);
    // The curve now leads to where the nudged target was already.
    tick(&mut r, 113.0, NOW + 2 * SECOND, 40, 18);
    assert_eq!(r.nudge_pct, 0);
    assert_eq!(r.display.last_target.map(unwrap), Some(40.5));
}

#[test]
fn nudge_without_hysteresis_lasts_while_the_light_does() {
    for hysteresis in [0.0f32, -1.0] {
        let mut config = Config::default();
        config.display.hysteresis_pct = wrap(hysteresis);
        let mut r = reactor_with(config);
        tick(&mut r, 50.0, NOW, 90, 90);
        run_out(&mut r);
        ask(&mut r, Request::Nudge { delta: 10 }, NOW, 30, 18);
        tick(&mut r, 50.0, NOW + SECOND, 30, 18);
        assert_eq!(r.nudge_pct, 10);
        assert_eq!(r.display.last_target.map(unwrap), Some(40.0));
        run_out(&mut r);
        tick(&mut r, 51.0, NOW + 2 * SECOND, 40, 18);
        assert_eq!(r.nudge_pct, 0);
    }
}

#[test]
fn nudge_before_the_first_reading_is_kept() {
    let mut r = reactor();
    ask(&mut r, Request::Nudge { delta: 10 }, NOW, 90, 90);
    tick(&mut r, 50.0, NOW, 90, 90);
    assert_eq!(r.nudge_pct, 10);
    assert_eq!(r.display.last_target.map(unwrap), Some(40.0));
    run_out(&mut r);
    tick(&mut r, 600.0, NOW + SECOND, 40, 18);
    assert_eq!(r.nudge_pct, 0);
    assert_eq!(r.display.last_target.map(unwrap), Some(80.0));
}

#[test]
fn nudge_outlasts_an_override_in_unchanged_light() {
    let mut r = reactor();
    tick(&mut r, 50.0, NOW, 90, 90);
    run_out(&mut r);
    ask(&mut r, Request::Nudge { delta: 10 }, NOW, 30, 18);
    tick(&mut r, 50.0, NOW + SECOND, 77, 18);
    assert!(r.display.override_state.is_some());
    tick(&mut r, 50.0, NOW + 61 * SECOND, 77, 18);
    assert_eq!(r.display.last_target.map(unwrap), Some(40.0));
    assert_eq!(r.nudge_pct, 10);
}

#[test]
fn idle_seat_stops_a_transition() {
    let mut r = reactor();
    tick(&mut r, 50.0, NOW, 90, 90);
    assert!(r.display.ramping() && r.keyboard.ramping());
    step(&mut r, Event::Idle(IdleEvent::Idled));
    match step(&mut r, Event::Ramp) {
        Action::Write(t) => assert!(t.display.is_none() && t.keyboard.is_none() && t.last),
        other => panic!("{other:?}"),
    }
    assert!(!r.display.ramping() && !r.keyboard.ramping());
}

#[test]
fn pause_stops_a_transition() {
    let mut r = reactor();
    tick(&mut r, 50.0, NOW, 90, 90);
    ask(&mut r, Request::Pause { seconds: 5 }, NOW, 90, 90);
    assert!(!r.display.ramping() && !r.keyboard.ramping());
    assert_eq!(run_out(&mut r), (None, None));
    tick(&mut r, 50.0, NOW + 5 * SECOND, 85, 86);
    assert_eq!(run_out(&mut r), (Some(30), Some(18)));
}

#[test]
fn manual_change_stops_a_transition() {
    let mut r = reactor();
    tick(&mut r, 50.0, NOW, 90, 90);
    match step(&mut r, Event::Ramp) {
        Action::Write(t) => {
            assert!(r.display.ramp_written(t.display.unwrap(), true).is_ok());
            assert!(r.keyboard.ramp_written(t.keyboard.unwrap(), true).is_ok());
        }
        other => panic!("{other:?}"),
    }
    tick(&mut r, 50.0, NOW + SECOND, 10, 86);
    assert!(r.display.override_state.is_some());
    assert_eq!(run_out(&mut r), (None, Some(18)));
}

#[test]
fn passes_are_made_only_when_due() {
    let mut r = reactor();
    assert!(r.acts(NOW));
    ask(&mut r, Request::Pause { seconds: 5 }, NOW, 90, 90);
    assert!(!r.acts(NOW + 4 * SECOND) && r.acts(NOW + 5 * SECOND));
    step(&mut r, Event::Idle(IdleEvent::Resumed));
    assert!(!r.acts(NOW + 5 * SECOND));
}

#[test]
fn missing_device_does_not_keep_the_other_from_resuming() {
    let devices = vec![IioDevice { name: Some("aop-sensors-als".into()), has_lux: true }];
    let sensor = Sensor::new(wrap(1.0), &devices).unwrap();
    let mut missing = probe();
    missing.exists = false;
    let (mut r, _, error) = Reactor::new(Config::default(), sensor, &probe(), &missing);
    assert!(error.is_some());
    tick(&mut r, 50.0, NOW, 90, 0);
    run_out(&mut r);
    tick(&mut r, 50.0, NOW + SECOND, 70, 0);
    assert!(r.display.override_state.is_some());
    ask(&mut r, Request::Resume, NOW + 2 * SECOND, 70, 0);
    tick(&mut r, 50.0, NOW + 2 * SECOND, 70, 0);
    assert_eq!(run_out(&mut r), (Some(30), None));
}

#[test]
fn nudges_add_up_to_a_limit() {
    let mut r = reactor();
    ask(&mut r, Request::Nudge { delta: 30 }, NOW, 90, 90);
    ask(&mut r, Request::Nudge { delta: 10 }, NOW, 90, 90);
    assert_eq!(r.nudge_pct, 40);
    ask(&mut r, Request::Nudge { delta: 30 }, NOW, 90, 90);
    assert_eq!(r.nudge_pct, 50);
    ask(&mut r, Request::Nudge { delta: -1000 }, NOW, 90, 90);
    assert_eq!(status(&mut r, NOW, 90, 90).nudge_pct, -50);
}

#[test]
fn idle_seat_is_left_alone() {
    let mut r = reactor();
    assert!(matches!(step(&mut r, Event::Idle(IdleEvent::Idled)), Action::Wait));
    assert!(matches!(tick(&mut r, 50.0, NOW, 90, 90), Action::Wait));
    assert!(r.display.last_target.is_none());
    assert!(status(&mut r, NOW, 90, 90).idle);
    assert!(r.start_grace().is_none());
}

#[test]
fn active_seat_is_left_to_others_first() {
    let mut r = reactor();
    tick(&mut r, 50.0, NOW, 90, 90);
    run_out(&mut r);
    step(&mut r, Event::Idle(IdleEvent::Idled));
    step(&mut r, Event::Idle(IdleEvent::Resumed));
    // A reading comes in before the time left to others has started.
    assert!(matches!(tick(&mut r, 600.0, NOW + SECOND, 10, 18), Action::Wait));
    assert!(r.display.override_state.is_none());
    assert_eq!(r.display.last_target.map(unwrap), Some(30.0));
    assert_eq!(r.start_grace(), Some(500_000_000));
    assert_eq!(r.start_grace(), None);
    assert_eq!(r.grace_nanos(), 500_000_000);
    // The idle daemon has dimmed the display and is about to restore it.
    assert!(matches!(tick(&mut r, 50.0, NOW + SECOND, 10, 18), Action::Wait));
    assert!(matches!(step(&mut r, Event::Grace { readings: readings(31, 18) }), Action::Wait));
    assert!(r.display.last_target.is_none());
    tick(&mut r, 50.0, NOW + 2 * SECOND, 31, 18);
    assert!(r.display.override_state.is_none());
    assert_eq!(run_out(&mut r).0, Some(30));
}

#[test]
fn status_tells_what_is_seen_and_done() {
    let mut r = reactor();
    tick(&mut r, 50.0, NOW, 90, 90);
    ask(&mut r, Request::Pause { seconds: 30 }, NOW, 90, 90);
    let event = Event::Line {
        request: Ok(Request::Status),
        now: NOW + 10 * SECOND + 1,
        unix_now: 2000,
        readings: Readings { display: Ok(25), keyboard: Err(ReadError::Unreadable) },
    };
    match step(&mut r, event) {
        Action::Send(Reply::Status(s)) => {
            assert_eq!(unwrap(s.lux_raw), 50.0);
            assert_eq!(unwrap(s.lux_smoothed), 50.0);
            assert_eq!(s.display_pct.map(unwrap), Some(25.0));
            assert!(s.keyboard_pct.is_none());
            assert_eq!(s.paused_until_unix, Some(2019));
            assert!(!s.idle);
        }
        other => panic!("{other:?}"),
    }
}

#[test]
fn status_after_a_pause_that_is_over_tells_the_time() {
    let mut r = reactor();
    ask(&mut r, Request::Pause { seconds: 30 }, NOW, 90, 90);
    let s = status(&mut r, NOW + 300 * SECOND, 90, 90);
    assert_eq!(s.paused_until_unix, Some(1_700_000_000));
}

#[test]
fn line_that_is_no_request_is_answered() {
    let mut r = reactor();
    let event = Event::Line {
        request: Err("expected value".into()),
        now: NOW,
        unix_now: 0,
        readings: readings(0, 0),
    };
    match step(&mut r, event) {
        Action::Send(Reply::Error(message)) => assert_eq!(message, "bad request: expected value"),
        other => panic!("{other:?}"),
    }
}

#[test]
fn signal_ends_the_daemon() {
    assert!(matches!(step(&mut reactor(), Event::Signal), Action::Exit));
}

#[test]
fn tokens_tell_sources_apart() {
    for source in [
        Source::Timer,
        Source::Signal,
        Source::Listener,
        Source::Wayland,
        Source::Grace,
        Source::Ramp,
    ] {
        assert_eq!(Source::from_token(source.token()).unwrap().token(), source.token());
    }
    assert_eq!(Source::Timer.token(), 1);
    assert_eq!(Source::Ramp.token(), 6);
    assert!(Source::from_token(0).is_none());
    assert!(Source::from_token(7).is_none());
}

#[test]
fn impossible_events_are_told() {
    let mut config = Config::default();
    config.display.min_pct = wrap(150.0);
    let r = reactor_with(config);
    let event =
        Event::Tick { reading: Ok(wrap(50.0)), now: NOW, force: false, reads: pass_reads(1, 1) };
    assert!(!r.can_step(&event));
    let mut r = reactor();
    ask(&mut r, Request::Nudge { delta: -20 }, NOW, 0, 0);
    assert!(!r.accepts(&Request::Nudge { delta: i32::MIN }, NOW, 0));
    assert!(r.accepts(&Request::Nudge { delta: i32::MAX }, NOW, 0));
    ask(&mut r, Request::Pause { seconds: 10 }, NOW, 0, 0);
    assert!(!r.accepts(&Request::Status, NOW, u64::MAX));
    assert!(r.accepts(&Request::Status, NOW, u64::MAX - 10));
}
