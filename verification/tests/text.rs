use bbr3::text;
use bbr3::time::Duration;

fn span(d: std::time::Duration) -> String {
    let mut out = String::new();
    text::push_duration(&mut out, Duration { nanos: d.as_nanos() });
    out
}

#[test]
fn durations_read_as_in_the_standard_library() {
    let spans = [
        std::time::Duration::ZERO,
        std::time::Duration::MAX,
        std::time::Duration::from_millis(50),
        std::time::Duration::from_micros(1),
        std::time::Duration::from_micros(1500),
        std::time::Duration::from_nanos(999),
        std::time::Duration::from_nanos(1_000_001),
        std::time::Duration::from_nanos(123_456_700),
        std::time::Duration::new(1, 0),
        std::time::Duration::new(2, 569_000_000),
        std::time::Duration::new(0, 1_010),
    ];
    for d in spans {
        assert_eq!(span(d), format!("{:?}", d));
    }
    let mut n: u64 = 1;
    for i in 0..2000u64 {
        n = n.wrapping_mul(6364136223846793005).wrapping_add(1442695040888963407);
        let d = std::time::Duration::from_nanos(n >> (i % 64));
        assert_eq!(span(d), format!("{:?}", d));
    }
}

#[test]
fn numbers_read_in_decimal() {
    for n in [0u128, 7, 10, 19, 100, 12345, u64::MAX as u128, u128::MAX] {
        let mut out = "n=".to_string();
        text::push_decimal(&mut out, n);
        assert_eq!(out, format!("n={}", n));
    }
    for n in [0isize, 5, -1, -42, isize::MAX, isize::MIN] {
        let mut out = String::new();
        text::push_signed_decimal(&mut out, n);
        assert_eq!(out, format!("{}", n));
    }
    let mut out = String::new();
    text::push_flag(&mut out, true);
    text::push_flag(&mut out, false);
    assert_eq!(out, "truefalse");
}
