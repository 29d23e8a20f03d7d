use asahi_brightness::output::ReadError;
use asahi_brightness::sensor::{IioDevice, NoSensor, Sensor};
use asahi_brightness::single::Single;

fn wrap(x: f32) -> Single {
    Single::from_bits(x.to_bits())
}

fn unwrap(s: Single) -> f32 {
    f32::from_bits(s.to_bits())
}

fn device(name: Option<&str>, has_lux: bool) -> IioDevice {
    IioDevice { name: name.map(|n| n.to_string()), has_lux }
}

fn sensor(alpha: f32) -> Sensor {
    Sensor::new(wrap(alpha), &vec![device(Some("aop-sensors-als\n"), true)]).unwrap()
}

#[test]
fn first_light_sensor_is_found() {
    let devices = vec![
        device(None, true),
        device(Some("accel"), true),
        device(Some("aop-sensors-als"), false),
        device(Some("aop-sensors-als\n"), true),
        device(Some("aop-sensors-als\n"), true),
    ];
    assert!(matches!(Sensor::discover(&devices), Ok(3)));
    assert_eq!(Sensor::new(wrap(0.2), &devices).unwrap().device, 3);
}

#[test]
fn missing_light_sensor_is_an_error() {
    assert!(Sensor::discover(&vec![]).is_err());
    assert!(Sensor::new(wrap(0.2), &vec![device(Some("als"), true)]).is_err());
    assert_eq!(
        NoSensor.message(),
        "no IIO device named 'aop-sensors-als' found under /sys/bus/iio/devices"
    );
}

#[test]
fn first_reading_is_the_average() {
    let mut s = sensor(0.2);
    assert_eq!(unwrap(s.last_smoothed()), 0.0);
    let sample = s.sample(Ok(wrap(120.0))).unwrap();
    assert_eq!(unwrap(sample.raw), 120.0);
    assert_eq!(unwrap(sample.smoothed), 120.0);
    assert_eq!(unwrap(s.last_smoothed()), 120.0);
}

#[test]
fn average_is_that_of_the_hardware() {
    let alpha = 0.2f32;
    let mut s = sensor(alpha);
    let mut average: Option<f32> = None;
    for i in 0..500 {
        let raw = ((i * 7919) % 2003) as f32 / 3.0;
        let expected = match average {
            None => raw,
            Some(previous) => alpha * raw + (1.0 - alpha) * previous,
        };
        assert_eq!(unwrap(s.average_with(wrap(raw))), expected);
        assert_eq!(unwrap(s.sample(Ok(wrap(raw))).unwrap().smoothed), expected);
        average = Some(expected);
    }
}

#[test]
fn average_lies_between_reading_and_past() {
    for alpha in [0.0f32, 0.2, 0.5, 1.0] {
        let mut s = sensor(alpha);
        let mut past = unwrap(s.sample(Ok(wrap(300.0))).unwrap().smoothed);
        for i in 0..300 {
            let raw = ((i * 7919) % 2003) as f32 / 7.0;
            let now = unwrap(s.sample(Ok(wrap(raw))).unwrap().smoothed);
            let slack = past.max(raw) / 2e6;
            assert!(past.min(raw) - slack <= now && now <= past.max(raw) + slack);
            past = now;
        }
    }
}

#[test]
fn failed_reading_leaves_the_average() {
    let mut s = sensor(0.5);
    s.sample(Ok(wrap(10.0))).unwrap();
    assert!(matches!(s.sample(Err(ReadError::Unreadable)), Err(ReadError::Unreadable)));
    assert!(matches!(s.sample(Err(ReadError::NotANumber)), Err(ReadError::NotANumber)));
    assert_eq!(unwrap(s.last_smoothed()), 10.0);
    assert_eq!(unwrap(s.sample(Ok(wrap(20.0))).unwrap().smoothed), 15.0);
}
