use asahi_brightness::config::{default_path, load, Channel, Config, ConfigError};
use asahi_brightness::single::Single;

fn wrap(x: f32) -> Single {
    Single::from_bits(x.to_bits())
}

fn unwrap(s: Single) -> f32 {
    f32::from_bits(s.to_bits())
}

fn points(channel: &Channel) -> Vec<[f32; 2]> {
    channel.curve.iter().map(|p| [unwrap(p[0]), unwrap(p[1])]).collect()
}

#[test]
fn default_configuration_is_as_documented() {
    let c = Config::default();
    assert_eq!(c.poll_interval_ms, 250);
    assert_eq!(c.ramp_duration_ms, 200);
    assert_eq!(c.ramp_steps, 20);
    assert_eq!(unwrap(c.ema_alpha), 0.2);
    assert_eq!(c.override_timeout_s, 60);
    assert_eq!(unwrap(c.override_lux_drift_pct), 75.0);
    assert_eq!(c.idle_timeout_ms, 30_000);
    assert_eq!(c.idle_resume_grace_ms, 500);
    assert!(c.display.enabled);
    assert_eq!(c.display.device, "apple-panel-bl");
    assert_eq!(c.display.class, "backlight");
    assert_eq!(unwrap(c.display.min_pct), 5.0);
    assert_eq!(unwrap(c.display.hysteresis_pct), 1.5);
    assert!(c.display.cutoff_lux.is_none());
    assert_eq!(
        points(&c.display),
        vec![[0.0, 5.0], [10.0, 15.0], [50.0, 30.0], [200.0, 55.0], [600.0, 80.0], [2000.0, 100.0]]
    );
    assert!(c.keyboard.enabled);
    assert_eq!(c.keyboard.device, "kbd_backlight");
    assert_eq!(c.keyboard.class, "leds");
    assert_eq!(unwrap(c.keyboard.min_pct), 0.0);
    assert_eq!(unwrap(c.keyboard.hysteresis_pct), 2.0);
    assert_eq!(c.keyboard.cutoff_lux.map(unwrap), Some(150.0));
    assert_eq!(points(&c.keyboard), vec![[0.0, 40.0], [20.0, 25.0], [80.0, 10.0], [150.0, 0.0]]);
}

#[test]
fn default_configuration_is_usable() {
    assert!(Config::default().validate().is_ok());
}

#[test]
fn empty_curve_is_refused() {
    let mut c = Config::default();
    c.keyboard.curve = vec![];
    let error = c.validate().unwrap_err();
    assert!(matches!(error, ConfigError::EmptyCurve { .. }));
    assert_eq!(error.message(), "curve for kbd_backlight is empty");
    c.keyboard.enabled = false;
    assert!(c.validate().is_ok());
}

#[test]
fn unsorted_curve_is_refused() {
    let mut c = Config::default();
    c.display.curve[2][0] = wrap(9.0);
    let error = c.validate().unwrap_err();
    assert!(matches!(error, ConfigError::UnsortedCurve { .. }));
    assert_eq!(error.message(), "curve for apple-panel-bl must be sorted by lux ascending");
    c.display.curve[2][0] = wrap(10.0);
    assert!(c.validate().is_ok());
    c.display.curve[2][0] = wrap(f32::NAN);
    assert!(matches!(c.validate(), Err(ConfigError::UnsortedCurve { .. })));
}

#[test]
fn weight_out_of_range_is_refused() {
    let mut c = Config::default();
    for bad in [-0.1f32, 1.1, f32::NAN, f32::INFINITY] {
        c.ema_alpha = wrap(bad);
        let error = c.validate().unwrap_err();
        assert!(matches!(error, ConfigError::AlphaOutOfRange));
        assert_eq!(error.message(), "ema_alpha must be in [0,1]");
    }
    for good in [0.0f32, -0.0, 1.0] {
        c.ema_alpha = wrap(good);
        assert!(c.validate().is_ok());
    }
}

#[test]
fn transitions_without_steps_are_refused() {
    let mut c = Config::default();
    c.ramp_steps = 0;
    let error = c.validate().unwrap_err();
    assert!(matches!(error, ConfigError::NoRampSteps));
    assert_eq!(error.message(), "ramp_steps must be > 0");
}

#[test]
fn first_fault_is_reported() {
    let mut c = Config::default();
    c.ramp_steps = 0;
    c.ema_alpha = wrap(2.0);
    c.keyboard.curve = vec![];
    assert!(matches!(c.validate(), Err(ConfigError::EmptyCurve { .. })));
    c.keyboard.enabled = false;
    assert!(matches!(c.validate(), Err(ConfigError::AlphaOutOfRange)));
}

#[test]
fn default_is_saved_unless_a_file_was_named() {
    let loaded = load(false, None).unwrap();
    assert!(loaded.save);
    assert_eq!(loaded.config.ramp_steps, 20);
    assert!(!load(true, None).unwrap().save);
}

#[test]
fn file_is_in_our_directory() {
    assert_eq!(
        default_path("/home/me/.config/asahi-brightness"),
        "/home/me/.config/asahi-brightness/config.toml"
    );
}

#[test]
fn file_is_checked() {
    let mut c = Config::default();
    c.ramp_steps = 5;
    let loaded = load(false, Some(c)).unwrap();
    assert!(!loaded.save);
    assert_eq!(loaded.config.ramp_steps, 5);
    let mut bad = Config::default();
    bad.ramp_steps = 0;
    assert!(matches!(load(true, Some(bad)), Err(ConfigError::NoRampSteps)));
}

#[test]
fn copy_of_a_channel_is_alike() {
    let c = Config::default();
    let copy = c.keyboard.clone();
    assert_eq!(copy.device, c.keyboard.device);
    assert_eq!(copy.class, c.keyboard.class);
    assert_eq!(points(&copy), points(&c.keyboard));
    assert_eq!(copy.cutoff_lux.map(unwrap), Some(150.0));
}
