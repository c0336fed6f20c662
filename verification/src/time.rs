//! Spans of time and points in time, in whole nanoseconds.

use vstd::arithmetic::div_mod::*;
use vstd::arithmetic::mul::*;
use vstd::arithmetic::power2::*;
use vstd::prelude::*;

use crate::float64::F64;
use crate::float64;
use crate::rounding;

verus! {

/// The longest span of time: `2^64` seconds less one nanosecond. A path whose round
/// trip was never measured carries it as its minimum.
pub const DURATION_MAX: u128 = 18_446_744_073_709_551_615_999_999_999;

/// Nanoseconds in one second.
pub const NANOS_PER_SEC: u64 = 1_000_000_000;

/// Nanoseconds in one millisecond.
pub const NANOS_PER_MILLI: u64 = 1_000_000;

/// Nanoseconds in one microsecond.
pub const NANOS_PER_MICRO: u64 = 1_000;

/// A span of time.
#[derive(Clone, Copy, Debug, PartialEq, Eq, Structural)]
pub struct Duration {
    pub nanos: u128,
}

/// A point in time, counted from an arbitrary origin that all instants share.
#[derive(Clone, Copy, Debug, PartialEq, Eq, Structural)]
pub struct Instant {
    pub nanos: u128,
}

impl Duration {
    /// The span in seconds, as a binary64 number: whole seconds and the fraction of a
    /// second are converted on their own and added.
    pub open spec fn seconds(self) -> F64 {
        F64::of_nat(self.nanos as nat / (NANOS_PER_SEC as nat)).sum(
            F64::of_nat(self.nanos as nat % (NANOS_PER_SEC as nat)).quotient(
                F64::of_nat(NANOS_PER_SEC as nat),
            ),
        )
    }

    /// Whether the span times `factor` is again a span: not negative, and below `2^64`
    /// seconds.
    pub open spec fn scales_by(self, factor: F64) -> bool {
        let v = factor.product(self.seconds());
        !v.is_nan() && (v.negative() ==> v.pattern() == 0) && v.size() / F64::units_per_one()
            <= u64::MAX
    }

    /// The span times `factor`, to the nearest nanosecond, ties to even.
    pub open spec fn scaled(self, factor: F64) -> nat {
        rounding::round_half_even(
            factor.product(self.seconds()).size() * (NANOS_PER_SEC as nat),
            F64::units_per_one(),
        )
    }

    /// A span of whole milliseconds.
    pub fn from_millis(millis: u64) -> (d: Duration)
        ensures
            d.nanos == millis * NANOS_PER_MILLI,
    {
        assert(millis * NANOS_PER_MILLI <= u64::MAX * NANOS_PER_MILLI) by (nonlinear_arith);
        Duration { nanos: millis as u128 * NANOS_PER_MILLI as u128 }
    }

    /// A span of whole seconds.
    pub fn from_secs(secs: u64) -> (d: Duration)
        ensures
            d.nanos == secs * NANOS_PER_SEC,
    {
        assert(secs * NANOS_PER_SEC <= u64::MAX * NANOS_PER_SEC) by (nonlinear_arith);
        Duration { nanos: secs as u128 * NANOS_PER_SEC as u128 }
    }

    /// The longest span.
    pub fn max() -> (d: Duration)
        ensures
            d.nanos == DURATION_MAX,
    {
        Duration { nanos: DURATION_MAX }
    }

    /// Whole microseconds.
    pub fn as_micros(&self) -> (n: u128)
        ensures
            n == self.nanos / (NANOS_PER_MICRO as u128),
    {
        self.nanos / NANOS_PER_MICRO as u128
    }

    /// The span in seconds, as a binary64 number.
    pub fn as_secs_f64(&self) -> (f: F64)
        ensures
            f == self.seconds(),
    {
        let secs: u128 = self.nanos / NANOS_PER_SEC as u128;
        let rest: u128 = self.nanos % NANOS_PER_SEC as u128;
        assert(secs == self.nanos / 1_000_000_000);
        F64::from_u128(secs).plus(F64::from_u128(rest).over(F64::from_u64(NANOS_PER_SEC)))
    }

    /// Whether the span times `factor` is again a span, so that `mul_f64` accepts it.
    pub fn can_scale_by(&self, factor: F64) -> (b: bool)
        ensures
            b == self.scales_by(factor),
    {
        let v: F64 = factor.times(self.as_secs_f64());
        let p: u64 = v.pattern_bits();
        proof {
            let size = v.size() as int;
            let one = pow2(1074) as int;
            let top: nat = 0x43F0_0000_0000_0000;
            lemma_pow2_pos(1074);
            lemma2_to64();
            lemma2_to64_rest();
            lemma_pow2_adds(52, 1086);
            lemma_pow2_adds(64, 1074);
            assert(size == rounding::magnitude(p as nat)) by {
                reveal(F64::size);
            }
            float64::lemma_magnitude_compare(p as nat, top);
            assert(rounding::magnitude(top) == pow2(1138));
            lemma_fundamental_div_mod(size, one);
            lemma_mod_bound(size, one);
            let q = size / one;
            let r = size % one;
            assert(q <= u64::MAX <==> size < 0x1_0000_0000_0000_0000 * one) by (nonlinear_arith)
                requires
                    size == one * q + r,
                    0 <= r < one,
            ;
        }
        // Beyond this pattern lie 2^64 seconds and more.
        p < 0x43F0_0000_0000_0000 && (!v.is_negative() || p == 0)
    }

    /// The span times `factor`, to the nearest nanosecond.
    pub fn mul_f64(&self, factor: F64) -> (d: Duration)
        requires
            self.scales_by(factor),
        ensures
            d.nanos == self.scaled(factor),
    {
        let v: F64 = factor.times(self.as_secs_f64());
        let p: u64 = v.pattern_bits();
        proof {
            lemma_pow2_pos(1074);
            lemma2_to64();
            lemma2_to64_rest();
            reveal(F64::size);
            float64::lemma_seconds_finite(v);
        }
        let s: u64 = float64::significand_of(p);
        let e: i32 = float64::exponent_of(p);
        let x: u128 = s as u128 * NANOS_PER_SEC as u128;
        let ghost size = v.size();
        if e >= 1074 {
            let up: i32 = e - 1074;
            proof {
                let pu = pow2(up as nat);
                lemma_pow2_adds(up as nat, 1074);
                lemma_pow2_pos(up as nat);
                assert(size == (s * pu) * pow2(1074)) by (nonlinear_arith)
                    requires
                        size == s * pow2(e as nat),
                        pow2(e as nat) == pu * pow2(1074),
                ;
                lemma_div_multiples_vanish((s * pu) as int, pow2(1074) as int);
                lemma_mul_is_commutative((s * pu) as int, pow2(1074) as int);
                if up > 11 {
                    if up > 12 {
                        lemma_pow2_strictly_increases(12, up as nat);
                    }
                    assert(s * pu > u64::MAX) by (nonlinear_arith)
                        requires
                            s >= 0x10_0000_0000_0000,
                            pu >= 0x1000,
                    ;
                }
                if up < 11 {
                    lemma_pow2_strictly_increases(up as nat, 11);
                }
                assert(0 <= x * pu <= 0x1_0000_0000_0000_0000 * 0x800 * 1_000_000_000)
                    by (nonlinear_arith)
                    requires
                        x == s * 1_000_000_000,
                        0 <= s <= 0x1_0000_0000_0000_0000,
                        0 < pu <= 0x800,
                ;
                assert(size * 1_000_000_000 == (x * pu) * pow2(1074)) by (nonlinear_arith)
                    requires
                        size == (s * pu) * pow2(1074),
                        x == s * 1_000_000_000,
                ;
                rounding::lemma_round_exact((x * pu) as nat, pow2(1074));
            }
            Duration { nanos: x * rounding::power_of_two(up as u32) }
        } else {
            let down: i32 = 1074 - e;
            proof {
                let pe = pow2(e as nat);
                let pd = pow2(down as nat);
                lemma_pow2_adds(e as nat, down as nat);
                lemma_pow2_pos(e as nat);
                lemma_pow2_pos(down as nat);
                rounding::lemma_round_half_even_cancel(x as nat, pd, pe);
                assert(size * 1_000_000_000 == pe * x) by (nonlinear_arith)
                    requires
                        size == s * pe,
                        x == s * 1_000_000_000,
                ;
            }
            if down >= 128 {
                proof {
                    lemma_pow2_adds(64, 20);
                    lemma_pow2_strictly_increases(84, down as nat);
                    lemma_small_mod(x as nat, pow2(down as nat));
                    lemma_basic_div(x as int, pow2(down as nat) as int);
                }
                return Duration { nanos: 0 };
            }
            let unit: u128 = rounding::power_of_two(down as u32);
            proof {
                lemma_pow2_unfold(down as nat);
                lemma_div_nonincreasing(x as int, unit as int);
            }
            let q: u128 = x / unit;
            let r: u128 = x % unit;
            let half: u128 = unit / 2;
            if r > half || (r == half && q % 2 == 1) {
                Duration { nanos: q + 1 }
            } else {
                Duration { nanos: q }
            }
        }
    }
}

impl Instant {
    /// How long ago `earlier` was; nothing where it lies ahead.
    pub open spec fn since(self, earlier: Instant) -> nat {
        if self.nanos >= earlier.nanos {
            (self.nanos - earlier.nanos) as nat
        } else {
            0
        }
    }

    /// How long ago `earlier` was; nothing where it lies ahead.
    pub fn duration_since(&self, earlier: Instant) -> (d: Duration)
        ensures
            d.nanos == self.since(earlier),
    {
        if self.nanos >= earlier.nanos {
            Duration { nanos: self.nanos - earlier.nanos }
        } else {
            Duration { nanos: 0 }
        }
    }
}

}
