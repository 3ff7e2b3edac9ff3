use ground_station::binary32::Binary32;

fn samples() -> Vec<f32> {
    let mut samples = vec![
        0.0,
        -0.0,
        0.7,
        -0.7,
        1.0,
        399.99,
        400.0,
        1300.0,
        1300.5,
        8388607.5,
        16777216.0,
        4294967040.0,
        4294967296.0,
        -1.0,
        f32::MIN_POSITIVE,
        1.0e-45,
        f32::MAX,
        f32::MIN,
        f32::INFINITY,
        f32::NEG_INFINITY,
        f32::NAN,
    ];
    let mut bits: u32 = 0;
    for _ in 0..400 {
        samples.push(f32::from_bits(bits));
        bits = bits.wrapping_mul(1664525).wrapping_add(1013904223);
    }
    samples
}

fn of(x: f32) -> Binary32 {
    Binary32 { bits: x.to_bits() }
}

#[test]
fn order_is_that_of_the_numbers() {
    for &a in &samples() {
        assert_eq!(of(a).is_nan(), a.is_nan());
        for &b in &samples() {
            assert_eq!(of(a).less(of(b)), a < b, "{} {}", a, b);
        }
    }
}

#[test]
fn absolute_values() {
    for &a in &samples() {
        assert_eq!(of(a).abs().bits, a.abs().to_bits());
    }
}

#[test]
fn truncation_is_that_of_the_cast() {
    for &a in &samples() {
        assert_eq!(of(a).to_u32(), a as u32, "{}", a);
    }
    assert_eq!(of(1300.5).to_u32(), 1300);
    assert_eq!(of(f32::NAN).to_u32(), 0);
    assert_eq!(of(-3.0).to_u32(), 0);
    assert_eq!(of(1.0e20).to_u32(), u32::MAX);
}

#[test]
fn clamping_is_that_of_the_numbers() {
    for &a in &samples() {
        let clamped = of(a).clamp(of(400.0), of(1300.0));
        assert_eq!(clamped.bits, a.clamp(400.0, 1300.0).to_bits());
    }
}
