use bbr3::float64::F64;
use bbr3::time::Duration;

fn lib(x: f64) -> F64 {
    F64 { bits: x.to_bits() }
}

fn native(x: F64) -> f64 {
    f64::from_bits(x.bits)
}

fn same(x: F64, y: f64) -> bool {
    if y.is_nan() {
        native(x).is_nan()
    } else {
        x.bits == y.to_bits()
    }
}

fn next(seed: &mut u64) -> u64 {
    *seed ^= *seed << 13;
    *seed ^= *seed >> 7;
    *seed ^= *seed << 17;
    *seed
}

/// Numbers at the edges of the format, and numbers that the controller meets.
fn edges() -> Vec<f64> {
    let mut v = vec![
        0.0,
        1.0,
        2.0,
        0.02,
        0.05,
        0.5,
        0.7,
        0.85,
        0.9,
        1.3,
        1.0 / 3.0,
        1.0 / 16.0,
        25.0,
        1e9,
        1e-300,
        1e300,
        90.0,
        62.0,
        4503599627370495.0,
        4503599627370496.0,
        9007199254740991.0,
        9007199254740992.0,
        9007199254740993.0,
        18446744073709551615.0,
        18446744073709549568.0,
        f64::MAX,
        f64::MIN_POSITIVE,
        f64::EPSILON,
        f64::INFINITY,
        f64::NAN,
        f64::from_bits(1),
        f64::from_bits(2),
        f64::from_bits(3),
        f64::from_bits(0x000F_FFFF_FFFF_FFFF),
        f64::from_bits(0x0010_0000_0000_0001),
        f64::from_bits(0x3FEF_FFFF_FFFF_FFFF),
        f64::from_bits(0x3FF0_0000_0000_0001),
        f64::from_bits(0x7FE0_0000_0000_0000),
    ];
    let n = v.len();
    for i in 0..n {
        v.push(-v[i]);
    }
    v
}

fn compare(a: f64, b: f64) {
    assert!(same(lib(a).times(lib(b)), a * b), "{:e} * {:e}", a, b);
    assert!(same(lib(a).over(lib(b)), a / b), "{:e} / {:e}", a, b);
    assert!(same(lib(a).plus(lib(b)), a + b), "{:e} + {:e}", a, b);
    assert!(same(lib(a).minus(lib(b)), a - b), "{:e} - {:e}", a, b);
    assert_eq!(lib(a).is_above(lib(b)), a > b, "{:e} > {:e}", a, b);
}

fn truncates(a: f64) {
    assert_eq!(lib(a).to_u64(), a as u64, "{:e} as u64", a);
    assert_eq!(lib(a).to_usize(), a as usize, "{:e} as usize", a);
}

#[test]
fn operations_agree_at_the_edges() {
    for a in edges() {
        truncates(a);
        for b in edges() {
            compare(a, b);
        }
    }
}

#[test]
fn operations_agree_on_arbitrary_encodings() {
    let mut seed: u64 = 0x9E37_79B9_7F4A_7C15;
    for _ in 0..60_000 {
        let a = f64::from_bits(next(&mut seed));
        let b = f64::from_bits(next(&mut seed));
        compare(a, b);
        truncates(a);
    }
}

#[test]
fn operations_agree_on_close_exponents() {
    let mut seed: u64 = 0x0123_4567_89AB_CDEF;
    for _ in 0..60_000 {
        let x = next(&mut seed);
        let y = next(&mut seed);
        let shift = (y % 80) << 52;
        let a = f64::from_bits((x & 0x800F_FFFF_FFFF_FFFF) | (0x3F0u64 << 52));
        let b = f64::from_bits((y & 0x800F_FFFF_FFFF_FFFF) | ((0x3E0u64 << 52) + shift));
        compare(a, b);
        truncates(a * 1e12);
    }
}

#[test]
fn conversions_agree_on_whole_numbers() {
    let mut seed: u64 = 42;
    for i in 0..60_000u64 {
        let n = next(&mut seed) >> (i % 64);
        assert_eq!(F64::from_u64(n).bits, (n as f64).to_bits());
        assert_eq!(F64::from_usize(n as usize).bits, (n as usize as f64).to_bits());
        let wide = (n as u128) << (i % 60);
        assert_eq!(F64::from_u128(wide).bits, (wide as f64).to_bits());
        let product = F64::from_u64(n).times(lib(0.7));
        assert_eq!(product.to_u64(), (n as f64 * 0.7) as u64);
    }
    assert_eq!(F64::from_u64(0).bits, 0);
    assert_eq!(F64::from_u64(u64::MAX).bits, (u64::MAX as f64).to_bits());
}

#[test]
fn ninety_times_beta_rounds_below_sixty_three() {
    let product = F64::from_u64(90).times(lib(0.7));
    assert_eq!(product.bits, (90.0f64 * 0.7).to_bits());
    assert_eq!(product.to_u64(), 62);
}

#[test]
fn negation_flips_the_sign_alone() {
    assert_eq!(lib(1.5).negated().bits, (-1.5f64).to_bits());
    assert_eq!(lib(0.0).negated().bits, (-0.0f64).to_bits());
    assert!(lib(-2.0).is_negative());
    assert!(!lib(2.0).is_negative());
}

#[test]
fn durations_scale_as_in_the_standard_library() {
    let mut seed: u64 = 7;
    let factors = [1.3, 2.0, 0.7, 0.0, 3.14, 1.0];
    for i in 0..40_000u64 {
        let secs = next(&mut seed) >> (4 + i % 60);
        let nanos = (next(&mut seed) % 1_000_000_000) as u32;
        let std = std::time::Duration::new(secs, nanos);
        let ours = Duration { nanos: std.as_nanos() };
        assert_eq!(ours.as_secs_f64().bits, std.as_secs_f64().to_bits());
        assert_eq!(ours.as_micros(), std.as_micros());
        let factor = factors[(i % 6) as usize];
        assert_eq!(ours.mul_f64(lib(factor)).nanos, std.mul_f64(factor).as_nanos());
    }
    let short = Duration { nanos: 1 };
    let std = std::time::Duration::from_nanos(1);
    assert_eq!(short.mul_f64(lib(1.5)).nanos, std.mul_f64(1.5).as_nanos());
    assert_eq!(short.mul_f64(lib(2.5)).nanos, std.mul_f64(2.5).as_nanos());
    assert_eq!(short.mul_f64(lib(1e-60)).nanos, 0);
    assert_eq!(Duration::from_millis(100).mul_f64(lib(2.0)).nanos, 200_000_000);
}
