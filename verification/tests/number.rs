use focusless::number::scalar::Scalar;
use focusless::number::wide::Wide;

const SPECIAL: [u32; 22] = [
    0x0000_0000,
    0x8000_0000,
    0x0000_0001,
    0x8000_0001,
    0x007f_ffff,
    0x0080_0000,
    0x3f80_0000,
    0xbf80_0000,
    0x3f80_0001,
    0x3f7f_ffff,
    0x3f00_0000,
    0x3fc0_0000,
    0x4b00_0000,
    0x4b80_0001,
    0x4f00_0000,
    0x4f80_0000,
    0x7f7f_ffff,
    0xff7f_ffff,
    0x7f80_0000,
    0xff80_0000,
    0x7fc0_0000,
    0x3dcc_cccd,
];

/// Numbers of all sizes, the same ones in every run.
fn samples(count: usize) -> Vec<u32> {
    let mut state: u64 = 0x9e37_79b9_7f4a_7c15;
    let mut result: Vec<u32> = SPECIAL.to_vec();
    for index in 0..count {
        state = state.wrapping_mul(6364136223846793005).wrapping_add(1442695040888963407);
        let bits = (state >> 32) as u32;
        // Every other number lies near one, where sums cancel.
        result.push(if index % 2 == 0 {
            bits
        } else {
            (bits & 0x80ff_ffff) | 0x3f00_0000
        });
    }
    result
}

fn same(found: Scalar, expected: f32) -> bool {
    let found = f32::from_bits(found.to_bits());
    found.to_bits() == expected.to_bits() || (found.is_nan() && expected.is_nan())
}

fn same_wide(found: Wide, expected: f64) -> bool {
    let found = f64::from_bits(found.to_bits());
    found.to_bits() == expected.to_bits() || (found.is_nan() && expected.is_nan())
}

#[test]
fn arithmetic_is_that_of_the_machine() {
    let samples = samples(360);
    for &a in &samples {
        for &b in &samples {
            let (x, y) = (f32::from_bits(a), f32::from_bits(b));
            let (p, q) = (Scalar::from_bits(a), Scalar::from_bits(b));
            assert!(same(p.plus(q), x + y), "{x} + {y}");
            assert!(same(p.minus(q), x - y), "{x} - {y}");
            assert!(same(p.times(q), x * y), "{x} * {y}");
            assert!(same(p.over(q), x / y), "{x} / {y}");
            assert_eq!(p.less(q), x < y);
            assert_eq!(p.less_or_equal(q), x <= y);
            assert_eq!(p.equals(q), x == y);
            assert_eq!(p == q, x == y);
        }
    }
}

#[test]
fn wide_arithmetic_is_that_of_the_machine() {
    let samples = samples(220);
    for (index, &a) in samples.iter().enumerate() {
        for &b in &samples {
            let x = f64::from_bits((u64::from(a) << 32) | (index as u64).wrapping_mul(0x9e37_79b9));
            let y = f64::from_bits((u64::from(b) << 32) | u64::from(a.rotate_left(7)));
            let (p, q) = (Wide::from_bits(x.to_bits()), Wide::from_bits(y.to_bits()));
            assert!(same_wide(p.plus(q), x + y), "{x} + {y}");
            assert!(same_wide(p.minus(q), x - y), "{x} - {y}");
            assert!(same_wide(p.times(q), x * y), "{x} * {y}");
            assert!(same_wide(p.over(q), x / y), "{x} / {y}");
            assert_eq!(p.less(q), x < y);
            assert_eq!(p.less_or_equal(q), x <= y);
        }
    }
}

#[test]
fn roots_and_conversions_are_those_of_the_machine() {
    for &a in &samples(4000) {
        let x = f32::from_bits(a);
        let p = Scalar::from_bits(a);
        assert!(same(p.sqrt(), x.sqrt()), "root of {x}");
        assert!(same(p.negate(), -x) || x.is_nan());
        assert!(same(p.abs(), x.abs()) || x.is_nan());
        assert_eq!(p.is_nan(), x.is_nan());
        assert_eq!(p.is_finite(), x.is_finite());
        assert_eq!(p.round_to_u32(), x.round() as u32);
        assert_eq!(p.round_to_i32(), x.round() as i32);
        assert_eq!(p.floor_to_i32(), x.floor() as i32);
        assert_eq!(p.ceil_to_i32(), x.ceil() as i32);
        assert!(same_wide(p.widen(), f64::from(x)));
        let y = f64::from_bits((u64::from(a) << 32) | u64::from(a.rotate_left(9)));
        let q = Wide::from_bits(y.to_bits());
        assert!(same_wide(q.sqrt(), y.sqrt()), "root of {y}");
        assert!(same(q.narrow(), y as f32), "{y} narrowed");
        assert_eq!(q.truncate_to_i32(), y as i32);
        assert_eq!(q.round_to_u32(), y.round() as u32);
    }
}

#[test]
fn integers_become_the_nearest_numbers() {
    for n in [0i64, 1, -1, 7, 100, 16_777_215, 16_777_216, 16_777_217, 16_777_219, 4_294_967_295, -4_294_967_295, i64::MAX, i64::MIN] {
        assert!(same(Scalar::from_integer(n), n as f32), "{n}");
        assert!(same_wide(Wide::from_integer(n), n as f64), "{n}");
    }
}

#[test]
fn bounds_are_kept_as_by_the_machine() {
    let low = Scalar::from_bits((-2.5f32).to_bits());
    let high = Scalar::from_bits(3.25f32.to_bits());
    for &a in &samples(500) {
        let x = f32::from_bits(a);
        let p = Scalar::from_bits(a);
        assert!(same(p.clamp(low, high), x.clamp(-2.5, 3.25)), "{x}");
        assert_eq!(p.contained(low, high), (-2.5..=3.25).contains(&x));
        assert!(p.min(high) == Scalar::from_bits(x.min(3.25).to_bits()));
        assert!(p.max(low) == Scalar::from_bits(x.max(-2.5).to_bits()));
    }
}

#[test]
fn sums_are_monotone_and_cancel() {
    let a = Scalar::from_bits(0.1f32.to_bits());
    let b = Scalar::from_bits(0.3f32.to_bits());
    let c = Scalar::from_bits(1e7f32.to_bits());
    assert!(a.plus(c).less_or_equal(b.plus(c)));
    assert_eq!(c.minus(c).to_bits(), 0);
    assert!(!a.minus(b).less_or_equal(Scalar::from_bits((-0.25f32).to_bits())));
}
