use asahi_brightness::single::Single;

fn wrap(x: f32) -> Single {
    Single::from_bits(x.to_bits())
}

fn unwrap(s: Single) -> f32 {
    f32::from_bits(s.to_bits())
}

fn next(seed: &mut u64) -> u32 {
    *seed = seed.wrapping_mul(6364136223846793005).wrapping_add(1442695040888963407);
    (*seed >> 32) as u32
}

fn specials() -> Vec<f32> {
    vec![
        0.0,
        -0.0,
        1.0,
        -1.0,
        0.2,
        0.8,
        1.5,
        100.0,
        -100.0,
        16777216.0,
        16777217.0,
        4294967296.0,
        f32::MAX,
        f32::MIN,
        f32::MIN_POSITIVE,
        f32::from_bits(1),
        f32::from_bits(0x007f_ffff),
        f32::from_bits(0x8000_0001),
        f32::EPSILON,
        f32::INFINITY,
        f32::NEG_INFINITY,
        f32::NAN,
    ]
}

fn pairs() -> Vec<(f32, f32)> {
    let mut out: Vec<(f32, f32)> = Vec::new();
    for a in specials() {
        for b in specials() {
            out.push((a, b));
        }
    }
    let mut seed: u64 = 1;
    for _ in 0..40_000 {
        let a = f32::from_bits(next(&mut seed));
        let b = f32::from_bits(next(&mut seed));
        out.push((a, b));
        // Close exponents, where sums cancel and quotients are near one.
        let c = f32::from_bits((a.to_bits() & 0xff80_0000) | (b.to_bits() & 0x007f_ffff));
        out.push((a, c));
        out.push((a, -c));
        // Everyday magnitudes.
        out.push(((next(&mut seed) % 100_000) as f32 / 7.0, (next(&mut seed) % 1000) as f32 / 3.0));
    }
    out
}

fn assert_same(ours: Single, native: f32, what: &str, a: f32, b: f32) {
    if native.is_nan() {
        assert!(ours.is_nan(), "{what} of {a:e} and {b:e}");
    } else {
        assert_eq!(ours.to_bits(), native.to_bits(), "{what} of {a:e} and {b:e}");
    }
}

#[test]
fn sums_are_those_of_the_hardware() {
    for (a, b) in pairs() {
        assert_same(wrap(a).plus(wrap(b)), a + b, "sum", a, b);
    }
}

#[test]
fn differences_are_those_of_the_hardware() {
    for (a, b) in pairs() {
        assert_same(wrap(a).minus(wrap(b)), a - b, "difference", a, b);
    }
}

#[test]
fn products_are_those_of_the_hardware() {
    for (a, b) in pairs() {
        assert_same(wrap(a).times(wrap(b)), a * b, "product", a, b);
    }
}

#[test]
fn quotients_are_those_of_the_hardware() {
    for (a, b) in pairs() {
        assert_same(wrap(a).over(wrap(b)), a / b, "quotient", a, b);
    }
}

#[test]
fn order_is_that_of_the_hardware() {
    for (a, b) in pairs() {
        assert_eq!(wrap(a).le(wrap(b)), a <= b, "{a:e} <= {b:e}");
        assert_eq!(wrap(a).lt(wrap(b)), a < b, "{a:e} < {b:e}");
        assert_eq!(wrap(a).same(wrap(b)), a == b, "{a:e} == {b:e}");
    }
}

#[test]
fn larger_number_is_that_of_the_hardware() {
    for (a, b) in pairs() {
        let native = a.max(b);
        let ours = unwrap(wrap(a).max(wrap(b)));
        assert!(ours == native || (ours.is_nan() && native.is_nan()), "{a:e} and {b:e}");
    }
}

#[test]
fn clamped_number_is_that_of_the_hardware() {
    for (a, _) in pairs() {
        assert_same(wrap(a).clamp(wrap(5.0), wrap(100.0)), a.clamp(5.0, 100.0), "clamp", a, a);
    }
    assert_eq!(unwrap(wrap(3.0).clamp(wrap(5.0), wrap(100.0))), 5.0);
    assert_eq!(unwrap(wrap(300.0).clamp(wrap(5.0), wrap(100.0))), 100.0);
}

#[test]
fn sign_operations_are_those_of_the_hardware() {
    for (a, _) in pairs() {
        assert_same(wrap(a).absolute(), a.abs(), "absolute value", a, a);
        assert_same(wrap(a).negated(), -a, "negation", a, a);
        assert_eq!(wrap(a).is_nan(), a.is_nan());
    }
}

#[test]
fn integers_become_numbers_as_on_the_hardware() {
    let mut seed: u64 = 2;
    for i in 0..60_000u32 {
        let n = if i < 1000 { i } else { next(&mut seed) };
        assert_eq!(Single::from_u32(n).to_bits(), (n as f32).to_bits(), "{n}");
        assert_eq!(Single::from_i32(n as i32).to_bits(), (n as i32 as f32).to_bits(), "{n}");
    }
    assert_eq!(Single::from_u32(u32::MAX).to_bits(), (u32::MAX as f32).to_bits());
    assert_eq!(Single::from_i32(i32::MIN).to_bits(), (i32::MIN as f32).to_bits());
}

#[test]
fn numbers_become_integers_as_on_the_hardware() {
    for (a, b) in pairs() {
        assert_eq!(wrap(a).to_u32(), a.round() as u32, "{a:e}");
        assert_eq!(wrap(b).to_u32(), b.round() as u32, "{b:e}");
    }
    for (x, i) in [(0.5f32, 1u32), (0.49999997, 0), (2.5, 3), (-3.0, 0), (8388607.5, 8388608)] {
        assert_eq!(wrap(x).to_u32(), i);
    }
}

#[test]
fn fractions_are_rounded_once() {
    assert_eq!(unwrap(Single::ratio(1, 5)), 0.2);
    assert_eq!(unwrap(Single::ratio(3, 2)), 1.5);
    assert_eq!(unwrap(Single::ratio(1, 3)), 1.0 / 3.0);
}
