//! The integer drift test against the floating-point expression it stands for.

use balance_enforcer::level::Level;

fn level(value: f32) -> Level {
    Level::from_bits(value.to_bits())
}

fn agree(current: f32, target: f32, tolerance: f32) {
    let expected = (current - target).abs() < tolerance;
    let found = level(current).is_within(level(target), level(tolerance));
    assert_eq!(
        found,
        expected,
        "current {:#010x} target {:#010x} tolerance {:#010x}",
        current.to_bits(),
        target.to_bits(),
        tolerance.to_bits()
    );
}

/// A fixed sequence of well-mixed numbers.
struct Mix(u64);

impl Mix {
    fn next(&mut self) -> u32 {
        self.0 = self.0.wrapping_mul(6364136223846793005).wrapping_add(1442695040888963407);
        let x = self.0 ^ (self.0 >> 29);
        (x.wrapping_mul(0xbf58476d1ce4e5b9) >> 32) as u32
    }
}

#[test]
fn agrees_on_special_values() {
    let special = [
        0.0,
        -0.0,
        1.0,
        -1.0,
        0.02,
        0.5,
        f32::MIN_POSITIVE,
        f32::from_bits(1),
        f32::from_bits(2),
        f32::from_bits(3),
        f32::from_bits(0x007f_ffff),
        f32::from_bits(0x00ff_ffff),
        f32::from_bits(0x0100_0000),
        f32::from_bits(0x0100_0001),
        f32::from_bits(0x3f7f_ffff),
        f32::from_bits(0x3f80_0001),
        f32::from_bits(0x7f7f_fffe),
        f32::MAX,
        f32::MIN,
        f32::INFINITY,
        f32::NEG_INFINITY,
        f32::NAN,
        f32::EPSILON,
        16777216.0,
        16777215.0,
        3.4e38,
    ];
    for &current in &special {
        for &target in &special {
            for &tolerance in &special {
                agree(current, target, tolerance);
            }
        }
    }
}

#[test]
fn agrees_on_arbitrary_bit_patterns() {
    let mut mix = Mix(1);
    for _ in 0..200_000 {
        agree(f32::from_bits(mix.next()), f32::from_bits(mix.next()), f32::from_bits(mix.next()));
    }
}

#[test]
fn agrees_at_the_edge_of_the_tolerance() {
    // The tolerance is taken next to the rounded difference, where a wrong
    // rounding shows.
    let mut mix = Mix(7);
    for _ in 0..200_000 {
        let near = (mix.next() % 40) as i32 - 20;
        let a = mix.next() & 0x7fff_ffff;
        let b = (a as i64 + ((near as i64) << 23) + (mix.next() % 0x80_0000) as i64).clamp(0, 0x7f7f_ffff) as u32;
        let current = f32::from_bits(a);
        let target = f32::from_bits(if mix.next() % 2 == 0 { b } else { b | 0x8000_0000 });
        let difference = (current - target).abs().to_bits();
        for step in 0..5u32 {
            let tolerance = difference.saturating_add(step).saturating_sub(2);
            agree(current, target, f32::from_bits(tolerance));
        }
    }
}

#[test]
fn agrees_on_ordinary_levels() {
    for i in 0..=400 {
        let current = i as f32 / 400.0;
        agree(current, 0.0, 0.02);
        agree(current, 1.0, 0.02);
    }
}

#[test]
fn a_level_is_within_every_tolerance_of_itself() {
    for value in [0.0, 0.25, 1.0, 1e-40, 3e38] {
        assert!(level(value).is_within(level(value), level(f32::from_bits(1))));
        assert!(!level(value).is_within(level(value), level(0.0)));
    }
}

#[test]
fn drift_is_symmetric_and_ends_at_the_tolerance() {
    assert!(level(0.5).is_within(level(0.25), level(0.26)));
    assert!(level(0.25).is_within(level(0.5), level(0.26)));
    assert!(!level(0.5).is_within(level(0.25), level(0.25)));
    assert!(!level(0.25).is_within(level(0.5), level(0.25)));
}

#[test]
fn nothing_is_within_a_broken_tolerance() {
    for tolerance in [0.0, -0.0, -1.0, f32::NAN, f32::NEG_INFINITY] {
        assert!(!level(0.5).is_within(level(0.5), level(tolerance)));
    }
    assert!(level(0.5).is_within(level(1.0), level(f32::INFINITY)));
    assert!(!level(f32::INFINITY).is_within(level(f32::INFINITY), level(f32::INFINITY)));
}

#[test]
fn drift_just_below_the_tolerance_is_ignored() {
    let below = f32::from_bits(0.02f32.to_bits() - 1);
    assert!(level(below).is_within(level(0.0), level(0.02)));
    assert!(level(0.0).is_within(level(below), level(0.02)));
    assert!(level(-below).is_within(level(0.0), level(0.02)));
}
