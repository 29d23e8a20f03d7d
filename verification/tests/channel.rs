use asahi_brightness::channel::{
    anchor_pct, compute_target, expire_override, light_moved, target_changed, target_exists,
    ChannelOverride, ChannelReads, ChannelState, Pass,
};
use asahi_brightness::config::{Channel, Config};
use asahi_brightness::output::{ChannelKind, DeviceProbe, ReadError};
use asahi_brightness::single::Single;

const SECOND: u64 = 1_000_000_000;

/// A moment well after the clock's start.
const NOW: u64 = 1000 * SECOND;

fn wrap(x: f32) -> Single {
    Single::from_bits(x.to_bits())
}

fn unwrap(s: Single) -> f32 {
    f32::from_bits(s.to_bits())
}

fn at(secs_from_now: u64, anchor: f32) -> Option<ChannelOverride> {
    // `until` is in the future; expiry should hinge on drift, not the clock.
    Some(ChannelOverride {
        until: (NOW + secs_from_now * SECOND) as u128,
        lux_anchor: wrap(anchor),
    })
}

fn config() -> Channel {
    let mut channel = Config::default().display;
    channel.curve = vec![[wrap(0.0), wrap(10.0)], [wrap(100.0), wrap(60.0)]];
    channel.hysteresis_pct = wrap(2.0);
    channel
}

fn open(channel: Channel) -> ChannelState {
    let probe = DeviceProbe { exists: true, max_text: Ok("100\n".into()), writable: Ok(()) };
    let (state, error) = ChannelState::open(ChannelKind::Display, channel, &probe);
    assert!(error.is_none());
    state
}

fn reads(raw: u32) -> ChannelReads {
    ChannelReads { after_pause: Ok(raw), after_override: Ok(raw), external: Ok(raw), ramp_from: Ok(raw) }
}

fn pass(lux: f32) -> Pass {
    Pass {
        now: NOW,
        lux: wrap(lux),
        drift_pct: wrap(75.0),
        timeout_s: 60,
        steps: 4,
        force: false,
        resumed: false,
    }
}

/// A pass over one channel.
fn run(state: &mut ChannelState, pass: &Pass, reads: &ChannelReads) -> bool {
    assert!(state.can_pass(pass, reads));
    let ended = state.settle(pass, reads);
    state.aim(pass, 0, pass.force || ended, reads.ramp_from)
}

#[test]
fn override_in_the_dark_holds_on_drift() {
    // Anchor ~0 (dark room) must NOT auto-expire on drift, else a manual change
    // oscillates detect → override → expire every tick.
    let mut slot = at(60, 0.0);
    let expired = expire_override(&mut slot, wrap(0.0), wrap(75.0), NOW);
    assert!(!expired, "override at 0 lux should hold");
    assert!(slot.is_some());
}

#[test]
fn override_expires_on_large_drift() {
    // Bright room: lux moving 100 -> 300 is 200% drift, past the 75% band.
    let mut slot = at(60, 100.0);
    assert!(expire_override(&mut slot, wrap(300.0), wrap(75.0), NOW));
    assert!(slot.is_none());
}

#[test]
fn override_expires_on_timeout() {
    // Deadline in the past expires regardless of anchor.
    let mut slot = Some(ChannelOverride { until: (NOW - SECOND) as u128, lux_anchor: wrap(0.0) });
    assert!(expire_override(&mut slot, wrap(0.0), wrap(75.0), NOW));
}

#[test]
fn override_expires_at_its_bounds() {
    let mut slot = at(0, 0.0);
    assert!(expire_override(&mut slot, wrap(0.0), wrap(75.0), NOW));
    let mut slot = at(60, 100.0);
    assert!(!expire_override(&mut slot, wrap(175.0), wrap(75.0), NOW));
    assert!(!expire_override(&mut slot, wrap(25.0), wrap(75.0), NOW));
    assert!(slot.is_some());
    assert!(expire_override(&mut slot, wrap(176.0), wrap(75.0), NOW));
    let mut slot = at(60, 100.0);
    assert!(expire_override(&mut slot, wrap(24.0), wrap(75.0), NOW));
    let mut none: Option<ChannelOverride> = None;
    assert!(!expire_override(&mut none, wrap(25.0), wrap(75.0), NOW));
}

#[test]
fn target_is_shifted_within_its_range() {
    let channel = config();
    assert_eq!(unwrap(compute_target(&channel, wrap(50.0), 0)), 35.0);
    assert_eq!(unwrap(compute_target(&channel, wrap(50.0), 10)), 45.0);
    assert_eq!(unwrap(compute_target(&channel, wrap(50.0), -50)), 5.0);
    assert_eq!(unwrap(compute_target(&channel, wrap(100.0), 50)), 100.0);
}

#[test]
fn shift_does_not_light_up_what_is_off() {
    let keyboard = Config::default().keyboard;
    assert_eq!(unwrap(compute_target(&keyboard, wrap(500.0), 30)), 0.0);
    assert_eq!(unwrap(compute_target(&keyboard, wrap(149.0), 30)).round(), 30.0);
}

#[test]
fn zero_at_the_end_of_a_curve_is_raised_to_the_floor() {
    let mut channel = config();
    channel.curve = vec![[wrap(0.0), wrap(40.0)], [wrap(100.0), wrap(0.0)]];
    channel.min_pct = wrap(5.0);
    assert_eq!(unwrap(compute_target(&channel, wrap(100.0), 0)), 5.0);
    assert_eq!(unwrap(compute_target(&channel, wrap(100.0), -20)), 5.0);
    channel.min_pct = wrap(0.0);
    assert_eq!(unwrap(compute_target(&channel, wrap(100.0), 20)), 0.0);
}

#[test]
fn target_needs_a_curve_and_a_sensible_floor() {
    let mut channel = config();
    assert!(target_exists(&channel, wrap(50.0)));
    channel.min_pct = wrap(101.0);
    assert!(!target_exists(&channel, wrap(50.0)));
    channel.min_pct = wrap(f32::NAN);
    assert!(!target_exists(&channel, wrap(50.0)));
    channel.min_pct = wrap(5.0);
    channel.curve = vec![];
    assert!(!target_exists(&channel, wrap(50.0)));
    channel.cutoff_lux = Some(wrap(40.0));
    assert!(target_exists(&channel, wrap(50.0)));
}

#[test]
fn hysteresis_decides_on_changes() {
    assert!(target_changed(None, wrap(0.0), wrap(2.0)));
    assert!(!target_changed(Some(wrap(30.0)), wrap(31.9), wrap(2.0)));
    assert!(target_changed(Some(wrap(30.0)), wrap(32.0), wrap(2.0)));
    assert!(target_changed(Some(wrap(30.0)), wrap(28.0), wrap(2.0)));
}

#[test]
fn channel_is_opened_if_it_is_in_use() {
    let state = open(config());
    assert_eq!(state.backlight.unwrap().max, 100);
    let mut off = config();
    off.enabled = false;
    assert!(open(off).backlight.is_none());
    let broken = DeviceProbe { exists: false, max_text: Ok("1".into()), writable: Ok(()) };
    let (state, error) = ChannelState::open(ChannelKind::Display, config(), &broken);
    assert!(state.backlight.is_none());
    assert!(error.unwrap().message().starts_with("device path does not exist"));
}

#[test]
fn transition_leads_to_the_target() {
    let mut state = open(config());
    assert!(run(&mut state, &pass(50.0), &reads(15)));
    assert_eq!(state.last_target.map(unwrap), Some(35.0));
    assert!(state.ramping());
    for expected in [20u32, 25, 30, 35] {
        let value = state.ramp_step().unwrap();
        assert_eq!(value, expected);
        assert!(state.ramp_written(value, true).is_ok());
        assert!(!state.detect_external(Ok(value)));
    }
    assert!(!state.ramping());
    assert!(state.ramp_step().is_none());
    assert_eq!(state.backlight.unwrap().last_written, Some(35));
}

#[test]
fn failed_write_is_reported_and_not_taken_for_done() {
    let mut state = open(config());
    run(&mut state, &pass(50.0), &reads(15));
    let value = state.ramp_step().unwrap();
    assert!(state.ramp_written(value, false).is_err());
    assert_eq!(state.backlight.unwrap().last_written, None);
}

#[test]
fn small_changes_are_ignored() {
    let mut state = open(config());
    run(&mut state, &pass(50.0), &reads(15));
    assert!(!run(&mut state, &pass(53.0), &reads(15)));
    assert_eq!(state.last_target.map(unwrap), Some(35.0));
    let mut forced = pass(53.0);
    forced.force = true;
    assert!(run(&mut state, &forced, &reads(15)));
    assert_eq!(state.last_target.map(unwrap), Some(36.5));
}

#[test]
fn target_that_the_device_has_starts_nothing() {
    let mut state = open(config());
    assert!(!run(&mut state, &pass(50.0), &reads(35)));
    assert_eq!(state.last_target.map(unwrap), Some(35.0));
    assert!(!state.ramping());
}

#[test]
fn target_that_the_device_has_ends_a_transition() {
    let mut state = open(config());
    assert!(run(&mut state, &pass(50.0), &reads(15)));
    assert!(state.ramping());
    // The light changes, and the device happens to be where it should be.
    assert!(!run(&mut state, &pass(20.0), &reads(20)));
    assert_eq!(state.last_target.map(unwrap), Some(20.0));
    assert!(!state.ramping());
    assert!(state.ramp_step().is_none());
}

#[test]
fn change_by_others_ends_a_transition() {
    let mut state = open(config());
    state.sync_baseline(Ok(15));
    assert!(run(&mut state, &pass(50.0), &reads(15)));
    let value = state.ramp_step().unwrap();
    assert!(state.ramp_written(value, true).is_ok());
    assert!(!run(&mut state, &pass(50.0), &reads(80)));
    assert!(state.override_state.is_some());
    assert!(!state.ramping());
    assert!(state.ramp_step().is_none());
}

#[test]
fn suspended_channel_drops_its_transition() {
    let mut state = open(config());
    assert!(run(&mut state, &pass(50.0), &reads(15)));
    state.override_state = at(60, 50.0);
    assert!(state.ramp_step().is_none());
    assert!(!state.ramping());
}

#[test]
fn curve_moves_with_the_light() {
    let mut channel = config();
    let anchor = anchor_pct(&channel, wrap(50.0));
    assert_eq!(anchor.map(unwrap), Some(35.0));
    assert!(!light_moved(anchor, &channel, wrap(53.0)));
    assert!(light_moved(anchor, &channel, wrap(54.0)));
    assert!(light_moved(anchor, &channel, wrap(46.0)));
    assert!(!light_moved(None, &channel, wrap(90.0)));
    channel.curve = vec![];
    assert!(anchor_pct(&channel, wrap(50.0)).is_none());
    channel.cutoff_lux = Some(wrap(40.0));
    assert_eq!(anchor_pct(&channel, wrap(50.0)).map(unwrap), Some(0.0));
}

#[test]
fn unreadable_device_is_ramped_from_zero() {
    let mut state = open(config());
    let mut r = reads(15);
    r.ramp_from = Err(ReadError::Unreadable);
    assert!(run(&mut state, &pass(50.0), &r));
    assert_eq!(state.ramp_step(), Some(9));
}

#[test]
fn change_by_others_suspends() {
    let mut state = open(config());
    state.sync_baseline(Ok(35));
    assert!(!run(&mut state, &pass(100.0), &reads(80)));
    let over = state.override_state.unwrap();
    assert_eq!(over.until, (NOW + 60 * SECOND) as u128);
    assert_eq!(unwrap(over.lux_anchor), 100.0);
    assert!(state.last_target.is_none());
    // Suspended, the channel is left alone even if forced.
    let mut forced = pass(120.0);
    forced.force = true;
    assert!(!run(&mut state, &forced, &reads(80)));
    assert!(state.last_target.is_none());
}

#[test]
fn suspension_ends_without_coming_back() {
    let mut state = open(config());
    state.sync_baseline(Ok(35));
    run(&mut state, &pass(50.0), &reads(80));
    assert!(state.override_state.is_some());
    let mut later = pass(50.0);
    later.now = NOW + 60 * SECOND;
    assert!(run(&mut state, &later, &reads(80)));
    assert!(state.override_state.is_none());
    assert_eq!(state.last_target.map(unwrap), Some(35.0));
}

#[test]
fn drift_ends_a_suspension() {
    let mut state = open(config());
    state.sync_baseline(Ok(35));
    run(&mut state, &pass(40.0), &reads(80));
    assert!(run(&mut state, &pass(90.0), &reads(80)));
    assert!(state.override_state.is_none());
    assert_eq!(state.last_target.map(unwrap), Some(55.0));
}

#[test]
fn end_of_a_pause_adopts_and_reasserts() {
    let mut state = open(config());
    run(&mut state, &pass(50.0), &reads(35));
    state.sync_baseline(Ok(35));
    let mut resumed = pass(50.0);
    resumed.resumed = true;
    assert!(run(&mut state, &resumed, &reads(80)));
    assert!(state.override_state.is_none());
    assert_eq!(state.last_target.map(unwrap), Some(35.0));
}

#[test]
fn unreadable_device_suspends_nothing() {
    let mut state = open(config());
    state.sync_baseline(Ok(35));
    assert!(!state.detect_external(Err(ReadError::Unreadable)));
    assert!(state.current_pct(Err(ReadError::Unreadable)).is_none());
    assert_eq!(state.current_pct(Ok(35)).map(unwrap), Some(35.0));
}

#[test]
fn channel_without_a_device_has_nothing_to_write() {
    let broken = DeviceProbe { exists: false, max_text: Ok("1".into()), writable: Ok(()) };
    let (mut state, _) = ChannelState::open(ChannelKind::Display, config(), &broken);
    assert!(!run(&mut state, &pass(50.0), &reads(15)));
    assert_eq!(state.last_target.map(unwrap), Some(35.0));
    assert!(state.ramp_step().is_none());
    assert!(state.current_pct(Ok(3)).is_none());
}

#[test]
fn channel_without_a_target_cannot_be_passed() {
    let mut bad = config();
    bad.min_pct = wrap(200.0);
    let mut state = open(bad);
    assert!(!state.can_pass(&pass(50.0), &reads(15)));
    state.sync_baseline(Ok(35));
    // Changed by others, it needs no target.
    assert!(state.can_pass(&pass(50.0), &reads(80)));
    let mut resumed = pass(50.0);
    resumed.resumed = true;
    assert!(!state.can_pass(&resumed, &reads(80)));
}
