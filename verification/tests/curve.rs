use asahi_brightness::config::Channel;
use asahi_brightness::curve;
use asahi_brightness::single::Single;

fn wrap(x: f32) -> Single {
    Single::from_bits(x.to_bits())
}

fn make_channel(curve: Vec<[f32; 2]>, cutoff: Option<f32>, min: f32) -> Channel {
    Channel {
        enabled: true,
        device: "test".into(),
        class: "backlight".into(),
        min_pct: wrap(min),
        hysteresis_pct: wrap(1.0),
        cutoff_lux: cutoff.map(wrap),
        curve: curve.into_iter().map(|point| [wrap(point[0]), wrap(point[1])]).collect(),
    }
}

fn target_pct(channel: &Channel, lux: f32) -> f32 {
    f32::from_bits(curve::target_pct(channel, wrap(lux)).to_bits())
}

#[test]
fn interpolates_midpoint() {
    let channel = make_channel(vec![[0.0, 0.0], [100.0, 100.0]], None, 0.0);
    assert!((target_pct(&channel, 50.0) - 50.0).abs() < 1e-3);
}

#[test]
fn clamps_min_pct() {
    let channel = make_channel(vec![[0.0, 0.0], [100.0, 100.0]], None, 5.0);
    assert!((target_pct(&channel, 0.0) - 5.0).abs() < 1e-3);
}

#[test]
fn applies_cutoff() {
    let channel = make_channel(vec![[0.0, 50.0], [100.0, 50.0]], Some(150.0), 0.0);
    assert_eq!(target_pct(&channel, 200.0), 0.0);
    assert!((target_pct(&channel, 100.0) - 50.0).abs() < 1e-3);
}

#[test]
fn extrapolates_to_endpoints() {
    let channel = make_channel(vec![[10.0, 20.0], [100.0, 80.0]], None, 0.0);
    assert!((target_pct(&channel, 5.0) - 20.0).abs() < 1e-3);
    assert!((target_pct(&channel, 5000.0) - 80.0).abs() < 1e-3);
}

#[test]
fn cutoff_itself_switches_off() {
    let channel = make_channel(vec![[0.0, 50.0]], Some(150.0), 5.0);
    assert_eq!(target_pct(&channel, 150.0), 0.0);
    assert_eq!(target_pct(&channel, 149.99), 50.0);
}

#[test]
fn cutoff_needs_no_curve() {
    let channel = make_channel(vec![], Some(150.0), 5.0);
    assert_eq!(target_pct(&channel, 151.0), 0.0);
}

#[test]
fn floor_holds_between_points() {
    let channel = make_channel(vec![[0.0, 0.0], [100.0, 10.0], [200.0, 40.0]], None, 20.0);
    assert_eq!(target_pct(&channel, -5.0), 20.0);
    assert_eq!(target_pct(&channel, 50.0), 20.0);
    assert_eq!(target_pct(&channel, 150.0), 25.0);
}

#[test]
fn floor_holds_beyond_the_curve() {
    let channel = make_channel(vec![[0.0, 40.0], [150.0, 3.0]], None, 5.0);
    assert_eq!(target_pct(&channel, 150.0), 5.0);
    assert_eq!(target_pct(&channel, 9000.0), 5.0);
    let channel = make_channel(vec![[0.0, 40.0], [150.0, 3.0]], None, 2.0);
    assert_eq!(target_pct(&channel, 9000.0), 3.0);
}

#[test]
fn step_in_the_curve_takes_the_earlier_point() {
    let channel = make_channel(vec![[0.0, 10.0], [50.0, 20.0], [50.0, 60.0], [90.0, 60.0]], None, 0.0);
    assert_eq!(target_pct(&channel, 50.0), 20.0);
    assert_eq!(target_pct(&channel, 60.0), 60.0);
}

#[test]
fn light_that_is_no_number_gives_the_floor() {
    let channel = make_channel(vec![[0.0, 40.0], [150.0, 50.0]], Some(500.0), 7.0);
    assert_eq!(target_pct(&channel, f32::NAN), 7.0);
}

#[test]
fn targets_are_on_the_lines() {
    let points: [[f32; 2]; 4] = [[0.0, 40.0], [20.0, 25.0], [80.0, 10.0], [150.0, 0.0]];
    let channel = make_channel(points.to_vec(), None, 2.0);
    for i in 1..1500 {
        let lux = i as f32 / 10.0;
        let exact = points.windows(2).find_map(|pair| {
            let [[x0, y0], [x1, y1]] = [pair[0].map(f64::from), pair[1].map(f64::from)];
            let x = f64::from(lux);
            (x0 <= x && x <= x1).then_some(y0 + (x - x0) / (x1 - x0) * (y1 - y0))
        });
        assert!((f64::from(target_pct(&channel, lux)) - exact.unwrap().max(2.0)).abs() < 1e-3);
    }
}

#[test]
fn targets_are_those_of_the_hardware() {
    let points: [[f32; 2]; 6] =
        [[0.0, 5.0], [10.0, 15.0], [50.0, 30.0], [200.0, 55.0], [600.0, 80.0], [2000.0, 100.0]];
    let channel = make_channel(points.to_vec(), None, 5.0);
    for i in 1..20_000 {
        let lux = i as f32 / 11.0;
        let mut expected = 100.0f32;
        for pair in points.windows(2) {
            if lux >= pair[0][0] && lux <= pair[1][0] {
                let fraction = (lux - pair[0][0]) / (pair[1][0] - pair[0][0]);
                expected = (pair[0][1] + fraction * (pair[1][1] - pair[0][1])).max(5.0);
                break;
            }
        }
        assert_eq!(target_pct(&channel, lux), expected, "{lux}");
    }
}
