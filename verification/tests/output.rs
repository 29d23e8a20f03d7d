use asahi_brightness::config::{Channel, Config};
use asahi_brightness::output::{
    device_dir, pct_to_raw, raw_to_pct, Backlight, ChannelKind, DeviceProbe, OpenError, ReadError,
};
use asahi_brightness::single::Single;

fn wrap(x: f32) -> Single {
    Single::from_bits(x.to_bits())
}

fn unwrap(s: Single) -> f32 {
    f32::from_bits(s.to_bits())
}

fn display() -> Channel {
    Config::default().display
}

fn probe(max: &str) -> DeviceProbe {
    DeviceProbe { exists: true, max_text: Ok(max.to_string()), writable: Ok(()) }
}

fn open_error(channel: &Channel, probe: &DeviceProbe) -> OpenError {
    Backlight::open(ChannelKind::Display, channel, probe).unwrap_err()
}

#[test]
fn devices_are_in_the_directory_of_their_class() {
    let c = Config::default();
    assert_eq!(device_dir(&c.display).unwrap(), "/sys/class/backlight/apple-panel-bl");
    assert_eq!(device_dir(&c.keyboard).unwrap(), "/sys/class/leds/kbd_backlight");
}

#[test]
fn usable_device_is_opened() {
    let backlight = Backlight::open(ChannelKind::Display, &display(), &probe("509\n")).unwrap();
    assert_eq!(backlight.max, 509);
    assert_eq!(backlight.last_written, None);
}

#[test]
fn unknown_class_is_refused() {
    let mut channel = display();
    channel.class = "lamps".into();
    let error = open_error(&channel, &probe("509"));
    assert!(matches!(error, OpenError::UnknownClass { .. }));
    assert_eq!(error.message(), "unknown sysfs class: lamps");
    assert!(device_dir(&channel).is_err());
}

#[test]
fn missing_device_is_refused() {
    let mut p = probe("509");
    p.exists = false;
    let error = open_error(&display(), &p);
    assert!(matches!(error, OpenError::NoDevice { .. }));
    assert_eq!(
        error.message(),
        "device path does not exist: /sys/class/backlight/apple-panel-bl"
    );
}

#[test]
fn unreadable_maximum_is_refused() {
    let mut p = probe("");
    p.max_text = Err("gone".into());
    let error = open_error(&display(), &p);
    assert!(matches!(error, OpenError::MaxUnreadable { .. }));
    assert_eq!(error.message(), "reading max_brightness for apple-panel-bl");
    assert_eq!(error.cause().unwrap(), "gone");
}

#[test]
fn maximum_that_is_no_number_is_refused() {
    for text in ["many\n", "", "\n", "99999999999"] {
        let error = open_error(&display(), &probe(text));
        assert!(matches!(error, OpenError::MaxNotANumber { .. }));
        assert_eq!(error.message(), text.trim().parse::<u32>().unwrap_err().to_string());
        assert!(error.cause().is_none());
    }
    let error = open_error(&display(), &probe("many"));
    assert_eq!(error.message(), "invalid digit found in string");
}

#[test]
fn maximum_of_zero_is_refused() {
    let error = open_error(&display(), &probe("0\n"));
    assert!(matches!(error, OpenError::MaxZero { .. }));
    assert_eq!(error.message(), "max_brightness is zero for apple-panel-bl");
}

#[test]
fn device_that_cannot_be_written_is_refused() {
    let mut p = probe("509");
    p.writable = Err("Permission denied".into());
    let error = open_error(&display(), &p);
    assert!(matches!(error, OpenError::NotWritable { .. }));
    assert_eq!(
        error.message(),
        "/sys/class/backlight/apple-panel-bl/brightness not writable (Permission denied). \
         Install the udev rule and ensure your user is in 'video'."
    );
    for (device, path) in [("a/", "/sys/class/backlight/a/brightness"), ("", "/sys/class/backlight/brightness")] {
        let mut channel = display();
        channel.device = device.into();
        let message = open_error(&channel, &p).message();
        assert!(message.starts_with(&format!("{path} not writable (")), "{message}");
    }
}

#[test]
fn raw_values_survive_percent() {
    for max in [1u32, 2, 3, 7, 100, 255, 509, 4095, 32767, 65535] {
        for i in 0..=max.min(2000) {
            let raw = if max <= 2000 { i } else { ((max as u64 * i as u64) / 2000) as u32 };
            assert_eq!(pct_to_raw(raw_to_pct(raw, max), max), raw, "{raw} of {max}");
        }
    }
}

#[test]
fn raw_value_is_read() {
    let b = Backlight { max: 509, last_written: None };
    assert!(matches!(b.read_raw(Some("123\n")), Ok(123)));
    assert!(matches!(b.read_raw(Some("x")), Err(ReadError::NotANumber)));
    assert!(matches!(b.read_raw(None), Err(ReadError::Unreadable)));
}

#[test]
fn change_by_others_is_detected() {
    let b = Backlight { max: 509, last_written: Some(100) };
    for (current, changed) in [(98u32, true), (99, false), (100, false), (101, false), (102, true)] {
        assert_eq!(b.detect_external_change(Ok(current)).unwrap(), changed, "{current}");
    }
    assert!(b.detect_external_change(Err(ReadError::Unreadable)).is_err());
    let top = Backlight { max: u32::MAX, last_written: Some(u32::MAX) };
    assert!(!top.detect_external_change(Ok(u32::MAX - 1)).unwrap());
    assert!(top.detect_external_change(Ok(0)).unwrap());
}

#[test]
fn nothing_counts_as_changed_before_a_write() {
    let b = Backlight { max: 509, last_written: None };
    assert!(matches!(b.detect_external_change(Ok(7)), Ok(false)));
    assert!(matches!(b.detect_external_change(Err(ReadError::Unreadable)), Ok(false)));
}

#[test]
fn adopted_value_does_not_count_as_changed() {
    let mut b = Backlight { max: 509, last_written: Some(100) };
    assert!(b.sync_last_written(Err(ReadError::NotANumber)).is_err());
    assert_eq!(b.last_written, Some(100));
    assert!(b.sync_last_written(Ok(300)).is_ok());
    assert!(!b.detect_external_change(Ok(300)).unwrap());
}

#[test]
fn writes_are_limited_to_full_brightness() {
    let mut b = Backlight { max: 509, last_written: None };
    assert_eq!(b.limit(600), 509);
    assert_eq!(b.limit(12), 12);
    assert!(b.write_raw(600, true).is_ok());
    assert_eq!(b.last_written, Some(509));
    assert!(b.write_raw(3, false).is_err());
    assert_eq!(b.last_written, Some(509));
}

#[test]
fn current_brightness_is_a_percentage() {
    let b = Backlight { max: 200, last_written: None };
    assert_eq!(unwrap(b.current_pct(Ok(50)).unwrap()), 25.0);
    assert!(matches!(b.current_pct(Err(ReadError::Unreadable)), Err(ReadError::Unreadable)));
}

#[test]
fn percentages_are_those_of_the_hardware() {
    for max in [1u32, 3, 255, 509, 65535, 16777217, u32::MAX] {
        for i in 0..400u32 {
            let raw = ((max as u64 * i as u64) / 399) as u32;
            assert_eq!(unwrap(raw_to_pct(raw, max)), (raw as f32 / max as f32) * 100.0);
            let pct = i as f32 / 3.0 - 10.0;
            let expected = ((pct.clamp(0.0, 100.0) / 100.0) * max as f32).round() as u32;
            assert_eq!(pct_to_raw(wrap(pct), max), expected, "{pct} of {max}");
        }
    }
}

#[test]
fn raw_values_are_in_range_and_in_order() {
    let mut last = 0u32;
    for i in 0..=1000u32 {
        let raw = pct_to_raw(wrap(i as f32 / 10.0), 509);
        assert!(last <= raw && raw <= 509);
        last = raw;
    }
    assert_eq!(pct_to_raw(wrap(0.0), 509), 0);
    assert_eq!(pct_to_raw(wrap(100.0), 509), 509);
    assert_eq!(pct_to_raw(wrap(f32::NAN), 509), 0);
    assert_eq!(pct_to_raw(wrap(-20.0), 509), 0);
    assert_eq!(pct_to_raw(wrap(250.0), 509), 509);
}

#[test]
fn transition_is_planned_from_the_value_there_is() {
    let mut b = Backlight { max: 100, last_written: Some(3) };
    let plan = b.ramp_to(wrap(50.0), 200_000_000, 4, Ok(10)).unwrap();
    assert_eq!(plan.values, vec![20, 30, 40, 50]);
    assert_eq!(plan.pause_nanos, 50_000_000);
    assert_eq!(b.last_written, Some(3));
}

#[test]
fn transition_to_the_value_there_is_writes_nothing() {
    let mut b = Backlight { max: 100, last_written: Some(3) };
    let plan = b.ramp_to(wrap(50.0), 200_000_000, 4, Ok(50)).unwrap();
    assert!(plan.values.is_empty());
    assert_eq!(b.last_written, Some(50));
}

#[test]
fn transition_without_steps_pauses_briefly() {
    let mut b = Backlight { max: 100, last_written: None };
    let plan = b.ramp_to(wrap(50.0), 200_000_000, 0, Ok(10)).unwrap();
    assert_eq!(plan.values, vec![50]);
    assert_eq!(plan.pause_nanos, 10_000_000);
    assert!(b.ramp_to(wrap(50.0), 1, 4, Err(ReadError::Unreadable)).is_err());
}
