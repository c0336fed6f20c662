//! Binary64 numbers in integer arithmetic.
//!
//! `F64` holds the IEEE 754 encoding of a number. Every operation computes the exact
//! result as a ratio of whole numbers of units of `2^-1074` and rounds it once, to the
//! nearest representable number, ties to even. All results that are not a number have
//! one encoding here, the quiet NaN without payload.

use vstd::arithmetic::div_mod::*;
use vstd::arithmetic::mul::*;
use vstd::arithmetic::power2::*;
use vstd::prelude::*;

use crate::rounding;

verus! {

/// The bit that holds the sign of a number.
pub const SIGN_BIT: u64 = 0x8000_0000_0000_0000;

/// The encoding of the result of an operation that has no numeric result.
pub const QUIET_NAN: u64 = 0x7FF8_0000_0000_0000;

/// The encoding of `1.0`.
pub const ONE: u64 = 0x3FF0_0000_0000_0000;

/// A binary64 number, by its encoding.
#[derive(Clone, Copy, Debug, PartialEq, Eq, Structural)]
pub struct F64 {
    pub bits: u64,
}

impl F64 {
    /// Whether the sign bit is set.
    pub open spec fn negative(self) -> bool {
        self.bits >= SIGN_BIT
    }

    /// The encoding without its sign bit.
    pub open spec fn pattern(self) -> nat {
        if self.negative() {
            (self.bits - SIGN_BIT) as nat
        } else {
            self.bits as nat
        }
    }

    pub open spec fn is_nan(self) -> bool {
        self.pattern() > rounding::INFINITY
    }

    pub open spec fn is_infinite(self) -> bool {
        self.pattern() == rounding::INFINITY
    }

    /// The distance from zero in units of `2^-1074`. An infinite number counts as
    /// `2^1024`, the first power of two beyond the finite numbers.
    #[verifier::opaque]
    pub open spec fn size(self) -> nat {
        rounding::magnitude(self.pattern())
    }

    /// The signed number of units of `2^-1074`.
    pub open spec fn units(self) -> int {
        if self.negative() {
            -(self.size() as int)
        } else {
            self.size() as int
        }
    }

    /// The number of units in `1.0`.
    pub open spec fn units_per_one() -> nat {
        pow2(1074)
    }

    /// The number with the given sign and magnitude pattern.
    pub open spec fn with_pattern(negative: bool, p: nat) -> F64 {
        F64 {
            bits: (if negative {
                SIGN_BIT + p
            } else {
                p as int
            }) as u64,
        }
    }

    /// The number nearest to `n / d` units, with the given sign.
    pub open spec fn rounded(negative: bool, n: nat, d: nat) -> F64 {
        F64::with_pattern(negative, rounding::round_pattern(n, d))
    }

    pub open spec fn nan() -> F64 {
        F64 { bits: QUIET_NAN }
    }

    /// The number nearest to the whole number `n`.
    #[verifier::opaque]
    pub open spec fn of_nat(n: nat) -> F64 {
        F64::rounded(false, n * F64::units_per_one(), 1)
    }

    /// The product, rounded.
    #[verifier::opaque]
    pub open spec fn product(self, other: F64) -> F64 {
        let negative = self.negative() != other.negative();
        if self.is_nan() || other.is_nan() {
            F64::nan()
        } else if self.is_infinite() || other.is_infinite() {
            if self.pattern() == 0 || other.pattern() == 0 {
                F64::nan()
            } else {
                F64::with_pattern(negative, rounding::INFINITY as nat)
            }
        } else {
            F64::rounded(negative, self.size() * other.size(), F64::units_per_one())
        }
    }

    /// The quotient, rounded.
    #[verifier::opaque]
    pub open spec fn quotient(self, other: F64) -> F64 {
        let negative = self.negative() != other.negative();
        if self.is_nan() || other.is_nan() || (self.is_infinite() && other.is_infinite()) || (
        self.pattern() == 0 && other.pattern() == 0) {
            F64::nan()
        } else if self.is_infinite() || other.pattern() == 0 {
            F64::with_pattern(negative, rounding::INFINITY as nat)
        } else if other.is_infinite() {
            F64::with_pattern(negative, 0)
        } else {
            F64::rounded(negative, self.size() * F64::units_per_one(), other.size())
        }
    }

    /// The sum, rounded.
    #[verifier::opaque]
    pub open spec fn sum(self, other: F64) -> F64 {
        let u = self.units() + other.units();
        if self.is_nan() || other.is_nan() || (self.is_infinite() && other.is_infinite()
            && self.negative() != other.negative()) {
            F64::nan()
        } else if self.is_infinite() {
            self
        } else if other.is_infinite() {
            other
        } else if u == 0 {
            F64::with_pattern(self.negative() && other.negative(), 0)
        } else {
            F64::rounded(u < 0, vstd::math::abs(u) as nat, 1)
        }
    }

    /// The number with the other sign.
    pub open spec fn opposite(self) -> F64 {
        F64::with_pattern(!self.negative(), self.pattern())
    }

    /// The difference, rounded.
    pub open spec fn difference(self, other: F64) -> F64 {
        self.sum(other.opposite())
    }

    /// Whether this number is the larger one; never so where one is not a number.
    pub open spec fn exceeds(self, other: F64) -> bool {
        !self.is_nan() && !other.is_nan() && self.units() > other.units()
    }

    /// The integer part, brought into the range from 0 to `max`; 0 for what is not a
    /// number.
    #[verifier::opaque]
    pub open spec fn whole(self, max: nat) -> nat {
        let w = self.size() / F64::units_per_one();
        if self.is_nan() || self.negative() {
            0
        } else if w > max {
            max
        } else {
            w
        }
    }
}

/// The next pattern is one step of the current exponent away.
pub(crate) proof fn lemma_magnitude_step(p: nat)
    ensures
        rounding::magnitude(p + 1) == rounding::magnitude(p) + pow2(rounding::exponent(p)),
{
    let h = rounding::HIDDEN_BIT as nat;
    lemma2_to64();
    if p + 1 > h {
        let e = rounding::exponent(p);
        lemma_fundamental_div_mod(p as int, h as int);
        lemma_fundamental_div_mod((p + 1) as int, h as int);
        if p % h == h - 1 {
            lemma_fundamental_div_mod_converse((p + 1) as int, h as int, (p / h + 1) as int, 0);
            lemma_pow2_unfold(e + 1);
            assert(h * (2 * pow2(e)) == (h + (h - 1)) * pow2(e) + pow2(e)) by (nonlinear_arith);
        } else {
            lemma_fundamental_div_mod_converse(
                (p + 1) as int,
                h as int,
                (p / h) as int,
                (p % h + 1) as int,
            );
            let f = p % h;
            assert((h + (f + 1)) * pow2(e) == (h + f) * pow2(e) + pow2(e)) by (nonlinear_arith);
        }
    } else {
        lemma_mul_basics(p as int);
        lemma_mul_basics((p + 1) as int);
    }
}

/// Patterns are ordered as the magnitudes that they stand for.
pub(crate) proof fn lemma_magnitude_order(p: nat, q: nat)
    requires
        p < q,
    ensures
        rounding::magnitude(p) < rounding::magnitude(q),
    decreases q - p,
{
    lemma_magnitude_step((q - 1) as nat);
    lemma_pow2_pos(rounding::exponent((q - 1) as nat));
    if p < q - 1 {
        lemma_magnitude_order(p, (q - 1) as nat);
    }
}

/// Equal magnitudes have equal patterns.
pub(crate) proof fn lemma_magnitude_compare(p: nat, q: nat)
    ensures
        p < q <==> rounding::magnitude(p) < rounding::magnitude(q),
        p == q <==> rounding::magnitude(p) == rounding::magnitude(q),
{
    if p < q {
        lemma_magnitude_order(p, q);
    } else if q < p {
        lemma_magnitude_order(q, p);
    }
}

/// Zero has no units and is the only pattern without any.
pub(crate) proof fn lemma_magnitude_zero(p: nat)
    ensures
        p == 0 <==> rounding::magnitude(p) == 0,
{
    lemma_magnitude_compare(0, p);
    lemma_mul_basics(pow2(0) as int);
}

/// Nothing rounds to zero.
pub(crate) proof fn lemma_round_zero(d: nat)
    requires
        d > 0,
    ensures
        rounding::round_pattern(0, d) == 0,
{
    lemma2_to64();
    lemma_basic_div(0, d as int);
    lemma_small_mod(0, d);
    assert(d * pow2(0) == d);
}

/// The bounds on the parts of a finite pattern.
pub(crate) proof fn lemma_parts(p: nat)
    requires
        p <= rounding::INFINITY,
    ensures
        rounding::significand(p) < rounding::SIGNIFICAND_END,
        rounding::exponent(p) <= 2046,
        rounding::exponent(p) > 0 ==> rounding::significand(p) >= rounding::HIDDEN_BIT,
        rounding::significand(p) == 0 <==> p == 0,
{
}

/// The significand of a finite pattern.
pub(crate) fn significand_of(p: u64) -> (s: u64)
    requires
        p < rounding::INFINITY,
    ensures
        s == rounding::significand(p as nat),
        s < rounding::SIGNIFICAND_END,
        s == 0 <==> p == 0,
{
    if p < rounding::HIDDEN_BIT {
        p
    } else {
        rounding::HIDDEN_BIT + p % rounding::HIDDEN_BIT
    }
}

/// The exponent of a finite pattern.
pub(crate) fn exponent_of(p: u64) -> (e: i32)
    requires
        p < rounding::INFINITY,
    ensures
        e == rounding::exponent(p as nat),
        0 <= e < 2046,
{
    if p < rounding::HIDDEN_BIT {
        0
    } else {
        (p / rounding::HIDDEN_BIT) as i32 - 1
    }
}

/// A ratio that shares the factor `c` with `x / y` has the integer part of `x / y`.
proof fn lemma_scaled_ratio(n: nat, d: nat, e: int, x: nat, y: nat, c: nat)
    requires
        y > 0,
        c > 0,
        n * pow2((if e < 0 { -e } else { 0 }) as nat) == c * x,
        d * pow2((if e > 0 { e } else { 0 }) as nat) == c * y,
    ensures
        rounding::scaled_floor(n, d, x / y, e, x % y != 0),
{
    rounding::lemma_cancel(x, y, c);
    let r = x % y;
    assert(c * r != 0 <==> r != 0) by (nonlinear_arith)
        requires
            c > 0,
    ;
}

/// A whole number over one.
proof fn lemma_over_one(x: nat)
    ensures
        x / 1 == x,
        x % 1 == 0,
        x * 1 == x,
        1 * x == x,
{
}

/// How the product of two magnitudes is handed to the rounding step.
proof fn lemma_product_scaled(sa: nat, ea: nat, sb: nat, eb: nat)
    ensures
        rounding::scaled_floor(
            (sa * pow2(ea)) * (sb * pow2(eb)),
            pow2(1074),
            sa * sb,
            ea + eb - 1074,
            false,
        ),
{
    let e = ea + eb - 1074;
    let n = (sa * pow2(ea)) * (sb * pow2(eb));
    let s = sa * sb;
    lemma2_to64();
    lemma_pow2_adds(ea, eb);
    lemma_over_one(s);
    assert(n == s * pow2(ea + eb)) by (nonlinear_arith)
        requires
            n == (sa * pow2(ea)) * (sb * pow2(eb)),
            s == sa * sb,
            pow2(ea + eb) == pow2(ea) * pow2(eb),
    ;
    if e >= 0 {
        let c = pow2(ea + eb);
        lemma_pow2_pos(ea + eb);
        lemma_pow2_adds(1074, e as nat);
        lemma_over_one(n);
        lemma_over_one(c);
        assert(c * s == n) by (nonlinear_arith)
            requires
                n == s * c,
        ;
        assert(pow2(1074) * pow2(0) == pow2(1074)) by {
            lemma_over_one(pow2(1074));
        }
        lemma_scaled_ratio(n, pow2(1074), e, s, 1, c);
    } else {
        let c = pow2(1074);
        lemma_pow2_pos(1074);
        lemma_pow2_adds(ea + eb, (-e) as nat);
        lemma_over_one(c);
        assert(n * pow2((-e) as nat) == c * s) by (nonlinear_arith)
            requires
                n == s * pow2(ea + eb),
                c == pow2(ea + eb) * pow2((-e) as nat),
        ;
        lemma_scaled_ratio(n, c, e, s, 1, c);
    }
}

/// How the quotient of two magnitudes is handed to the rounding step.
proof fn lemma_quotient_scaled(sa: nat, ea: nat, sb: nat, eb: nat, g: nat)
    requires
        sb > 0,
        g <= 1074,
    ensures
        rounding::scaled_floor(
            (sa * pow2(ea)) * pow2(1074),
            sb * pow2(eb),
            (sa * pow2(g)) / sb,
            ea + 1074 - eb - g,
            (sa * pow2(g)) % sb != 0,
        ),
{
    let e = ea + 1074 - eb - g;
    let n = (sa * pow2(ea)) * pow2(1074);
    let d = sb * pow2(eb);
    let x = sa * pow2(g);
    lemma2_to64();
    if e >= 0 {
        let f = (ea + 1074 - g) as nat;
        let c = pow2(f);
        lemma_pow2_pos(f);
        lemma_pow2_adds(f, g);
        lemma_pow2_adds(ea, 1074);
        assert(f + g == ea + 1074);
        lemma_pow2_adds(eb, e as nat);
        assert(eb + e as nat == f);
        lemma_over_one(n);
        assert(n == c * x) by (nonlinear_arith)
            requires
                n == (sa * pow2(ea)) * pow2(1074),
                x == sa * pow2(g),
                c * pow2(g) == pow2(ea) * pow2(1074),
        ;
        assert(d * pow2(e as nat) == c * sb) by (nonlinear_arith)
            requires
                d == sb * pow2(eb),
                c == pow2(eb) * pow2(e as nat),
        ;
        assert(d * pow2(0) == d) by {
            lemma_over_one(d);
        }
        lemma_scaled_ratio(n, d, e, x, sb, c);
    } else {
        let me = (-e) as nat;
        let c = pow2(eb);
        lemma_pow2_pos(eb);
        lemma_pow2_adds(ea, 1074);
        lemma_pow2_adds(ea + 1074, me);
        lemma_pow2_adds(eb, g);
        assert(ea + 1074 + me == eb + g);
        assert(n * pow2(me) == c * x) by (nonlinear_arith)
            requires
                n == (sa * pow2(ea)) * pow2(1074),
                x == sa * pow2(g),
                (pow2(ea) * pow2(1074)) * pow2(me) == c * pow2(g),
        ;
        assert(d * pow2(0) == c * sb) by (nonlinear_arith)
            requires
                d == sb * c,
                pow2(0) == 1,
        ;
        lemma_scaled_ratio(n, d, e, x, sb, c);
    }
}

/// How a whole number of steps of `2^e` units is handed to the rounding step.
proof fn lemma_steps_scaled(s: nat, e: nat)
    ensures
        rounding::scaled_floor(s * pow2(e), 1, s, e as int, false),
{
    let n = s * pow2(e);
    lemma2_to64();
    lemma_pow2_pos(e);
    lemma_over_one(s);
    lemma_over_one(n);
    lemma_over_one(pow2(e));
    assert(pow2(e) * s == n) by (nonlinear_arith)
        requires
            n == s * pow2(e),
    ;
    lemma_scaled_ratio(n, 1, e as int, s, 1, pow2(e));
}

impl F64 {
    /// Whether the sign bit is set.
    pub fn is_negative(self) -> (b: bool)
        ensures
            b == self.negative(),
    {
        self.bits >= SIGN_BIT
    }

    /// The encoding without its sign bit.
    pub(crate) fn pattern_bits(self) -> (p: u64)
        ensures
            p == self.pattern(),
            p < SIGN_BIT,
    {
        if self.bits >= SIGN_BIT {
            self.bits - SIGN_BIT
        } else {
            self.bits
        }
    }

    /// The number with the given sign and magnitude pattern.
    fn from_pattern(negative: bool, p: u64) -> (f: F64)
        requires
            p < SIGN_BIT,
        ensures
            f == F64::with_pattern(negative, p as nat),
            f.negative() == negative,
            f.pattern() == p,
    {
        F64 {
            bits: if negative {
                SIGN_BIT + p
            } else {
                p
            },
        }
    }

    /// The product of two numbers.
    pub fn times(self, other: F64) -> (f: F64)
        ensures
            f == self.product(other),
    {
        proof {
            reveal(F64::product);
            reveal(F64::size);
        }
        let negative: bool = self.is_negative() != other.is_negative();
        let a: u64 = self.pattern_bits();
        let b: u64 = other.pattern_bits();
        if a > rounding::INFINITY || b > rounding::INFINITY {
            return F64 { bits: QUIET_NAN };
        }
        if a == rounding::INFINITY || b == rounding::INFINITY {
            return if a == 0 || b == 0 {
                F64 { bits: QUIET_NAN }
            } else {
                F64::from_pattern(negative, rounding::INFINITY)
            };
        }
        let sa: u64 = significand_of(a);
        let sb: u64 = significand_of(b);
        let ea: i32 = exponent_of(a);
        let eb: i32 = exponent_of(b);
        proof {
            lemma_pow2_pos(1074);
            lemma_magnitude_zero(a as nat);
            lemma_magnitude_zero(b as nat);
            lemma_product_scaled(sa as nat, ea as nat, sb as nat, eb as nat);
        }
        if a == 0 || b == 0 {
            proof {
                lemma_mul_basics(self.size() as int);
                lemma_mul_basics(other.size() as int);
                lemma_round_zero(pow2(1074));
            }
            return F64::from_pattern(negative, 0);
        }
        assert(0 < sa * sb < 0x400_0000_0000_0000_0000_0000_0000) by (nonlinear_arith)
            requires
                0 < sa < rounding::SIGNIFICAND_END,
                0 < sb < rounding::SIGNIFICAND_END,
        ;
        let p: u64 = rounding::round_scaled(
            sa as u128 * sb as u128,
            ea + eb - 1074,
            false,
            Ghost(self.size() * other.size()),
            Ghost(pow2(1074)),
        );
        F64::from_pattern(negative, p)
    }

    /// The quotient of two numbers.
    pub fn over(self, other: F64) -> (f: F64)
        ensures
            f == self.quotient(other),
    {
        proof {
            reveal(F64::quotient);
            reveal(F64::size);
        }
        let negative: bool = self.is_negative() != other.is_negative();
        let a: u64 = self.pattern_bits();
        let b: u64 = other.pattern_bits();
        if a > rounding::INFINITY || b > rounding::INFINITY || (a == rounding::INFINITY && b
            == rounding::INFINITY) || (a == 0 && b == 0) {
            return F64 { bits: QUIET_NAN };
        }
        if a == rounding::INFINITY || b == 0 {
            return F64::from_pattern(negative, rounding::INFINITY);
        }
        if b == rounding::INFINITY {
            return F64::from_pattern(negative, 0);
        }
        let sa: u64 = significand_of(a);
        let sb: u64 = significand_of(b);
        let ea: i32 = exponent_of(a);
        let eb: i32 = exponent_of(b);
        proof {
            lemma_magnitude_zero(a as nat);
            lemma_magnitude_zero(b as nat);
        }
        if a == 0 {
            proof {
                lemma_mul_basics(pow2(1074) as int);
                lemma_round_zero(other.size());
            }
            return F64::from_pattern(negative, 0);
        }
        let l: u32 = rounding::count_bits(sa as u128);
        proof {
            rounding::lemma_bit_length(sa as nat);
            lemma2_to64_rest();
            if l > 53 {
                if l > 54 {
                    lemma_pow2_strictly_increases(53, (l - 1) as nat);
                }
            }
        }
        let g: u32 = 127 - l;
        let scale: u128 = rounding::power_of_two(g);
        proof {
            let lo = pow2((l - 1) as nat);
            let hi = pow2(l as nat);
            lemma_pow2_pos(g as nat);
            lemma_pow2_adds((l - 1) as nat, g as nat);
            lemma_pow2_adds(l as nat, g as nat);
            assert((l - 1) as nat + g as nat == 126);
            assert(l as nat + g as nat == 127);
            lemma2_to64();
            lemma_pow2_adds(63, 63);
            lemma_pow2_adds(63, 64);
            assert(lo * scale <= sa * scale < hi * scale) by (nonlinear_arith)
                requires
                    lo <= sa < hi,
                    scale > 0,
            ;
            lemma_quotient_scaled(sa as nat, ea as nat, sb as nat, eb as nat, g as nat);
        }
        let x: u128 = sa as u128 * scale;
        let s: u128 = x / sb as u128;
        proof {
            lemma_div_is_ordered_by_denominator(x as int, sb as int, 0x20_0000_0000_0000);
            lemma_div_nonincreasing(x as int, sb as int);
        }
        let p: u64 = rounding::round_scaled(
            s,
            ea + 1074 - eb - g as i32,
            x % sb as u128 != 0,
            Ghost(self.size() * pow2(1074)),
            Ghost(other.size()),
        );
        F64::from_pattern(negative, p)
    }

    /// The number nearest to a whole number.
    pub fn from_u128(n: u128) -> (f: F64)
        requires
            n < 0x8000_0000_0000_0000_0000_0000_0000_0000,
        ensures
            f == F64::of_nat(n as nat),
    {
        proof {
            reveal(F64::of_nat);
        }
        if n == 0 {
            proof {
                lemma_mul_basics(pow2(1074) as int);
                lemma_round_zero(1);
            }
            return F64::from_pattern(false, 0);
        }
        proof {
            lemma_steps_scaled(n as nat, 1074);
        }
        let p: u64 = rounding::round_scaled(
            n,
            1074,
            false,
            Ghost(n as nat * pow2(1074)),
            Ghost(1),
        );
        F64::from_pattern(false, p)
    }

    /// The number nearest to a whole number.
    pub fn from_u64(n: u64) -> (f: F64)
        ensures
            f == F64::of_nat(n as nat),
    {
        F64::from_u128(n as u128)
    }

    /// The number nearest to a whole number.
    pub fn from_usize(n: usize) -> (f: F64)
        ensures
            f == F64::of_nat(n as nat),
    {
        F64::from_u128(n as u128)
    }

    /// The number with the other sign.
    pub fn negated(self) -> (f: F64)
        ensures
            f == self.opposite(),
    {
        F64::from_pattern(!self.is_negative(), self.pattern_bits())
    }

    /// Whether this number is the larger one.
    pub fn is_above(self, other: F64) -> (b: bool)
        ensures
            b == self.exceeds(other),
    {
        proof {
            reveal(F64::size);
        }
        let a: u64 = self.pattern_bits();
        let b: u64 = other.pattern_bits();
        proof {
            lemma_magnitude_compare(a as nat, b as nat);
            lemma_magnitude_zero(a as nat);
            lemma_magnitude_zero(b as nat);
        }
        if a > rounding::INFINITY || b > rounding::INFINITY {
            false
        } else if self.is_negative() {
            other.is_negative() && a < b
        } else if other.is_negative() {
            a != 0 || b != 0
        } else {
            a > b
        }
    }
}

/// How the sum or difference of two magnitudes is handed to the rounding step, where
/// their exponents are more than 70 apart: `x` and `y` have the significands `sx` and
/// `sy`, and `q` and `r` are what `sy` leaves over and under the last bit kept.
proof fn lemma_distant_scaled(sx: nat, ex: nat, sy: nat, ey: nat, q: nat, r: nat)
    requires
        ex > ey + 70,
        sx >= rounding::HIDDEN_BIT,
        q < rounding::SIGNIFICAND_END,
        q == sy / pow2((ex - 70 - ey) as nat),
        r == sy % pow2((ex - 70 - ey) as nat),
    ensures
        rounding::scaled_floor(
            sx * pow2(ex) + sy * pow2(ey),
            1,
            sx * pow2(70) + q,
            ex - 70,
            r != 0,
        ),
        sx * pow2(ex) > sy * pow2(ey),
        rounding::scaled_floor(
            (sx * pow2(ex) - sy * pow2(ey)) as nat,
            1,
            (sx * pow2(70) - q - (if r != 0 { 1int } else { 0 })) as nat,
            ex - 70,
            r != 0,
        ),
{
    let e = (ex - 70) as nat;
    let dd = (ex - 70 - ey) as nat;
    let w = pow2(e) as int;
    let pd = pow2(dd) as int;
    let py = pow2(ey) as int;
    let top = sx * pow2(70);
    let low = r * py;
    lemma2_to64();
    lemma_pow2_pos(e);
    lemma_pow2_pos(dd);
    lemma_pow2_pos(ey);
    lemma_pow2_adds(70, e);
    assert(70 + e == ex);
    lemma_pow2_adds(dd, ey);
    assert(dd + ey == e);
    lemma_fundamental_div_mod(sy as int, pd);
    lemma_mod_bound(sy as int, pd);
    assert(sx * pow2(ex) == top * w) by (nonlinear_arith)
        requires
            top == sx * pow2(70),
            pow2(ex) == pow2(70) * w,
    ;
    assert(sy * py == q * w + low) by (nonlinear_arith)
        requires
            sy == pd * q + r,
            w == pd * py,
            low == r * py,
    ;
    assert(0 <= low < w) by (nonlinear_arith)
        requires
            0 <= r < pd,
            py > 0,
            w == pd * py,
            low == r * py,
    ;
    assert(low == 0 <==> r == 0) by (nonlinear_arith)
        requires
            py > 0,
            low == r * py,
            r >= 0,
    ;
    let n = sx * pow2(ex) + sy * py;
    assert(n == (top + q) * w + low) by (nonlinear_arith)
        requires
            n == top * w + (q * w + low),
    ;
    assert(pow2(70) == pow2(64) * pow2(6)) by {
        lemma_pow2_adds(64, 6);
    }
    assert(top > q + 1) by (nonlinear_arith)
        requires
            top == sx * pow2(70),
            pow2(70) == 0x10000000000000000 * 64,
            sx >= rounding::HIDDEN_BIT,
            q < rounding::SIGNIFICAND_END,
    ;
    let m = sx * pow2(ex) - sy * py;
    assert(m == (top - q) * w - low) by (nonlinear_arith)
        requires
            m == top * w - (q * w + low),
    ;
    assert(m > 0) by (nonlinear_arith)
        requires
            m == (top - q) * w - low,
            top > q + 1,
            w > 0,
            low < w,
    ;
    lemma_over_one(w as nat);
    lemma_over_one(n as nat);
    lemma_over_one(m as nat);
    lemma_fundamental_div_mod_converse(n, w, (top + q) as int, low);
    if r == 0 {
        lemma_fundamental_div_mod_converse(m, w, top - q, 0);
    } else {
        assert(m == (top - q - 1) * w + (w - low)) by (nonlinear_arith)
            requires
                m == (top - q) * w - low,
        ;
        lemma_fundamental_div_mod_converse(m, w, top - q - 1, w - low);
    }
}

/// How the sum or difference of two magnitudes is counted in steps of the smaller
/// exponent.
proof fn lemma_close_steps(sx: nat, ex: nat, sy: nat, ey: nat)
    requires
        ex >= ey,
    ensures
        sx * pow2(ex) + sy * pow2(ey) == (sx * pow2((ex - ey) as nat) + sy) * pow2(ey),
        sx * pow2(ex) - sy * pow2(ey) == (sx * pow2((ex - ey) as nat) - sy) * pow2(ey),
        sx * pow2(ex) < sy * pow2(ey) <==> sx * pow2((ex - ey) as nat) < sy,
        sx * pow2(ex) == sy * pow2(ey) <==> sx * pow2((ex - ey) as nat) == sy,
{
    let dd = (ex - ey) as nat;
    let a = sx * pow2(dd);
    lemma_pow2_adds(dd, ey);
    lemma_pow2_pos(ey);
    let py = pow2(ey);
    assert(sx * pow2(ex) == a * py) by (nonlinear_arith)
        requires
            a == sx * pow2(dd),
            pow2(ex) == pow2(dd) * py,
    ;
    lemma_mul_is_distributive_add_other_way(py as int, a as int, sy as int);
    lemma_mul_is_distributive_sub_other_way(py as int, a as int, sy as int);
    assert(a * py < sy * py <==> a < sy) by (nonlinear_arith)
        requires
            py > 0,
    ;
    assert(a * py == sy * py <==> a == sy) by (nonlinear_arith)
        requires
            py > 0,
    ;
}

impl F64 {
    /// The sum of two finite numbers, the one with the larger exponent first.
    fn plus_aligned(x: F64, y: F64) -> (f: F64)
        requires
            x.pattern() < rounding::INFINITY,
            y.pattern() < rounding::INFINITY,
            rounding::exponent(x.pattern()) >= rounding::exponent(y.pattern()),
        ensures
            f == x.sum(y),
    {
        proof {
            reveal(F64::sum);
            reveal(F64::size);
        }
        let p: u64 = x.pattern_bits();
        let q: u64 = y.pattern_bits();
        let sx: u64 = significand_of(p);
        let sy: u64 = significand_of(q);
        let ex: i32 = exponent_of(p);
        let ey: i32 = exponent_of(q);
        let same: bool = x.is_negative() == y.is_negative();
        let apart: i32 = ex - ey;
        let ghost total = vstd::math::abs(x.units() + y.units()) as nat;
        proof {
            lemma_parts(p as nat);
            lemma2_to64();
            lemma_pow2_adds(64, 6);
        }
        if apart <= 70 {
            proof {
                lemma_close_steps(sx as nat, ex as nat, sy as nat, ey as nat);
                if apart < 70 {
                    lemma_pow2_strictly_increases(apart as nat, 70);
                }
                lemma_pow2_pos(apart as nat);
            }
            let scale: u128 = rounding::power_of_two(apart as u32);
            assert(0 <= sx * scale <= 0x20_0000_0000_0000 * 0x40_0000_0000_0000_0000)
                by (nonlinear_arith)
                requires
                    0 <= sx < 0x20_0000_0000_0000,
                    0 < scale <= 0x40_0000_0000_0000_0000,
            ;
            let a: u128 = sx as u128 * scale;
            let b: u128 = sy as u128;
            let (negative, s): (bool, u128) = if same {
                (x.is_negative(), a + b)
            } else if a > b {
                (x.is_negative(), a - b)
            } else {
                (y.is_negative(), b - a)
            };
            proof {
                let py = pow2(ey as nat) as int;
                lemma_pow2_pos(ey as nat);
                assert((b - a) * py == -((a - b) * py)) by (nonlinear_arith);
                assert(total == s * py);
                assert(s * py == 0 <==> s == 0) by (nonlinear_arith)
                    requires
                        py > 0,
                ;
            }
            if s == 0 {
                return F64::from_pattern(x.is_negative() && y.is_negative(), 0);
            }
            proof {
                lemma_steps_scaled(s as nat, ey as nat);
            }
            let r: u64 = rounding::round_scaled(s, ey, false, Ghost(total), Ghost(1));
            F64::from_pattern(negative, r)
        } else {
            let drop: i32 = apart - 70;
            let (whole, rest): (u64, bool) = if drop >= 64 {
                proof {
                    lemma2_to64_rest();
                    lemma_pow2_strictly_increases(53, drop as nat);
                    lemma_small_mod(sy as nat, pow2(drop as nat));
                    lemma_basic_div(sy as int, pow2(drop as nat) as int);
                }
                (0, sy != 0)
            } else {
                let unit: u128 = rounding::power_of_two(drop as u32);
                proof {
                    lemma_pow2_pos(drop as nat);
                    lemma_div_nonincreasing(sy as int, unit as int);
                }
                ((sy as u128 / unit) as u64, sy as u128 % unit != 0)
            };
            proof {
                lemma_distant_scaled(
                    sx as nat,
                    ex as nat,
                    sy as nat,
                    ey as nat,
                    whole as nat,
                    sy as nat % pow2(drop as nat),
                );
            }
            let top: u128 = sx as u128 * 0x40_0000_0000_0000_0000;
            let s: u128 = if same {
                top + whole as u128
            } else if rest {
                top - whole as u128 - 1
            } else {
                top - whole as u128
            };
            let r: u64 = rounding::round_scaled(s, ex - 70, rest, Ghost(total), Ghost(1));
            F64::from_pattern(x.is_negative(), r)
        }
    }

    /// The sum of two numbers.
    pub fn plus(self, other: F64) -> (f: F64)
        ensures
            f == self.sum(other),
    {
        proof {
            reveal(F64::sum);
        }
        let a: u64 = self.pattern_bits();
        let b: u64 = other.pattern_bits();
        if a > rounding::INFINITY || b > rounding::INFINITY || (a == rounding::INFINITY && b
            == rounding::INFINITY && self.is_negative() != other.is_negative()) {
            F64 { bits: QUIET_NAN }
        } else if a == rounding::INFINITY {
            self
        } else if b == rounding::INFINITY {
            other
        } else if exponent_of(a) >= exponent_of(b) {
            F64::plus_aligned(self, other)
        } else {
            F64::plus_aligned(other, self)
        }
    }

    /// The difference of two numbers.
    pub fn minus(self, other: F64) -> (f: F64)
        ensures
            f == self.difference(other),
    {
        self.plus(other.negated())
    }

    /// The integer part, 0 where the number is negative or not a number, and the
    /// largest integer where it is too large.
    pub fn to_u64(self) -> (n: u64)
        ensures
            n == self.whole(u64::MAX as nat),
    {
        proof {
            reveal(F64::whole);
            reveal(F64::size);
        }
        let p: u64 = self.pattern_bits();
        if p > rounding::INFINITY || self.is_negative() {
            return 0;
        }
        let (s, e): (u64, i32) = if p == rounding::INFINITY {
            (rounding::HIDDEN_BIT, 2046)
        } else {
            (significand_of(p), exponent_of(p))
        };
        proof {
            lemma_parts(p as nat);
            lemma2_to64();
            lemma2_to64_rest();
            lemma_pow2_pos(1074);
        }
        if e >= 1074 {
            let up: i32 = e - 1074;
            proof {
                lemma_pow2_adds(up as nat, 1074);
                lemma_pow2_pos(up as nat);
                assert(s * pow2(e as nat) == (s * pow2(up as nat)) * pow2(1074))
                    by (nonlinear_arith)
                    requires
                        pow2(e as nat) == pow2(up as nat) * pow2(1074),
                ;
                lemma_div_multiples_vanish((s * pow2(up as nat)) as int, pow2(1074) as int);
                lemma_mul_is_commutative((s * pow2(up as nat)) as int, pow2(1074) as int);
            }
            if up >= 12 {
                proof {
                    if up > 12 {
                        lemma_pow2_strictly_increases(12, up as nat);
                    }
                    assert(s * pow2(up as nat) > u64::MAX) by (nonlinear_arith)
                        requires
                            s >= 0x10_0000_0000_0000,
                            pow2(up as nat) >= 0x1000,
                    ;
                }
                u64::MAX
            } else {
                proof {
                    if up < 11 {
                        lemma_pow2_strictly_increases(up as nat, 11);
                    }
                    assert(0 <= s * pow2(up as nat) <= u64::MAX) by (nonlinear_arith)
                        requires
                            0 <= s <= 0x20_0000_0000_0000 - 1,
                            0 < pow2(up as nat) <= 0x800,
                    ;
                }
                (s as u128 * rounding::power_of_two(up as u32)) as u64
            }
        } else {
            let down: i32 = 1074 - e;
            proof {
                lemma_pow2_adds(e as nat, down as nat);
                lemma_pow2_pos(e as nat);
                lemma_pow2_pos(down as nat);
                rounding::lemma_cancel(s as nat, pow2(down as nat), pow2(e as nat));
                lemma_mul_is_commutative(s as int, pow2(e as nat) as int);
            }
            if down >= 64 {
                proof {
                    lemma_pow2_strictly_increases(53, down as nat);
                    lemma_basic_div(s as int, pow2(down as nat) as int);
                }
                0
            } else {
                proof {
                    lemma_div_nonincreasing(s as int, pow2(down as nat) as int);
                }
                (s as u128 / rounding::power_of_two(down as u32)) as u64
            }
        }
    }

    /// The integer part, 0 where the number is negative or not a number, and the
    /// largest integer where it is too large.
    pub fn to_usize(self) -> (n: usize)
        ensures
            n == self.whole(usize::MAX as nat),
    {
        proof {
            reveal(F64::whole);
        }
        let n: u64 = self.to_u64();
        if n > usize::MAX as u64 {
            usize::MAX
        } else {
            n as usize
        }
    }
}

/// A number whose integer part fits in 64 bits is finite.
pub(crate) proof fn lemma_seconds_finite(v: F64)
    requires
        !v.is_nan(),
        v.size() / F64::units_per_one() <= u64::MAX,
    ensures
        v.pattern() < rounding::INFINITY,
{
    reveal(F64::size);
    if v.pattern() >= rounding::INFINITY {
        lemma2_to64();
        lemma2_to64_rest();
        lemma_pow2_adds(972, 1074);
        lemma_pow2_pos(1074);
        lemma_pow2_strictly_increases(64, 972);
        let h = rounding::HIDDEN_BIT as int;
        assert(h * pow2(2046) == (h * pow2(972)) * pow2(1074)) by (nonlinear_arith)
            requires
                pow2(2046) == pow2(972) * pow2(1074),
        ;
        lemma_div_multiples_vanish(h * pow2(972), pow2(1074) as int);
        lemma_mul_is_commutative(h * pow2(972), pow2(1074) as int);
        assert(h * pow2(972) > u64::MAX) by (nonlinear_arith)
            requires
                h >= 1,
                pow2(972) > u64::MAX,
        ;
    }
}

}
