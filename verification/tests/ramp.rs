use asahi_brightness::ramp::ramp;

/// The values of a ramp, computed in double precision by the hardware.
fn in_hardware(from: u32, to: u32, steps: u32) -> Vec<u32> {
    if steps == 0 || from == to {
        return vec![to];
    }
    let start = from as f64;
    let span = to as f64 - start;
    (1..=steps).map(|i| (start + span * (i as f64 / steps as f64)).round() as u32).collect()
}

#[test]
fn monotonic_up() {
    let result = ramp(0, 100, 10);
    assert_eq!(result.last(), Some(&100));
    assert!(result.windows(2).all(|value| value[1] >= value[0]));
}

#[test]
fn monotonic_down() {
    let result = ramp(100, 0, 10);
    assert_eq!(result.last(), Some(&0));
    assert!(result.windows(2).all(|value| value[1] <= value[0]));
}

#[test]
fn no_change_returns_target() {
    let result = ramp(50, 50, 10);
    assert_eq!(result, vec![50]);
}

#[test]
fn even_ramp_has_even_steps() {
    assert_eq!(ramp(0, 100, 10), vec![10, 20, 30, 40, 50, 60, 70, 80, 90, 100]);
    assert_eq!(ramp(100, 0, 4), vec![75, 50, 25, 0]);
    assert_eq!(ramp(0, 10, 4), vec![3, 5, 8, 10]);
}

#[test]
fn ramp_without_steps_jumps() {
    assert_eq!(ramp(3, 90, 0), vec![90]);
    assert_eq!(ramp(3, 90, 1), vec![90]);
}

#[test]
fn ramp_has_as_many_values_as_steps() {
    assert_eq!(ramp(0, 3, 20).len(), 20);
    assert_eq!(ramp(0, u32::MAX, 7).len(), 7);
}

#[test]
fn ramp_stays_between_its_ends() {
    for (from, to) in [(17u32, 500u32), (500, 17), (0, u32::MAX), (u32::MAX, 0), (1, 2)] {
        for value in ramp(from, to, 33) {
            assert!(from.min(to) <= value && value <= from.max(to));
        }
    }
}

#[test]
fn ramps_are_even() {
    for (from, to, steps) in [(0u32, 509u32, 20u32), (509, 3, 7), (0, u32::MAX, 1000)] {
        for (i, value) in ramp(from, to, steps).into_iter().enumerate() {
            let span = to as i128 - from as i128;
            // Twice the distance to the exact value, in units of a step's share.
            let off = 2 * (value as i128 - from as i128) * steps as i128 - 2 * span * (i as i128 + 1);
            assert!(off.abs() <= steps as i128, "{value} of {from} to {to}");
        }
    }
}

#[test]
fn ramps_are_those_of_the_hardware() {
    let mut seed: u64 = 7;
    let mut next = || {
        seed = seed.wrapping_mul(6364136223846793005).wrapping_add(1442695040888963407);
        (seed >> 32) as u32
    };
    for round in 0..2000 {
        let (mut from, mut to) = (next(), next());
        if round % 2 == 0 {
            from %= 1000;
            to %= 1000;
        }
        let steps = next() % 60;
        assert_eq!(ramp(from, to, steps), in_hardware(from, to, steps), "{from} to {to} in {steps}");
    }
}
