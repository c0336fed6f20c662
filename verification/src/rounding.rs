//! Round-to-nearest-even on exact ratios, as IEEE 754 binary64 defines it.
//!
//! A magnitude is measured in units of `2^-1074`, the smallest positive binary64
//! number: every finite binary64 number is a whole number of units. A magnitude
//! pattern is the low 63 bits of the encoding. Patterns are ordered as the
//! magnitudes that they stand for, and `INFINITY` is the first pattern that does not
//! stand for a finite number.

use vstd::arithmetic::div_mod::*;
use vstd::arithmetic::mul::*;
use vstd::arithmetic::power2::*;
use vstd::prelude::*;

verus! {

/// `2^52`: the weight of the hidden bit, and the distance between two exponents in a
/// magnitude pattern.
pub const HIDDEN_BIT: u64 = 0x10_0000_0000_0000;

/// `2^53`: the first whole number of units that takes more than 53 bits.
pub const SIGNIFICAND_END: u64 = 0x20_0000_0000_0000;

/// The magnitude pattern of infinity.
pub const INFINITY: u64 = 0x7FF0_0000_0000_0000;

/// The whole number nearest to `n / d`; of two equally near, the even one.
pub open spec fn round_half_even(n: nat, d: nat) -> nat {
    let q = n / d;
    let r = n % d;
    if 2 * r > d || (2 * r == d && q % 2 == 1) {
        q + 1
    } else {
        q
    }
}

/// How many bits `x` has beyond the 53 that a significand holds.
pub open spec fn excess_bits(x: nat) -> nat
    decreases x,
{
    if x < SIGNIFICAND_END {
        0
    } else {
        1 + excess_bits(x / 2)
    }
}

/// How many bits it takes to write `x`.
pub open spec fn bit_length(x: nat) -> nat
    decreases x,
{
    if x == 0 {
        0
    } else {
        1 + bit_length(x / 2)
    }
}

/// The magnitude pattern nearest to `n / d` units, ties to the even pattern.
///
/// With `k` excess bits the representable numbers around `n / d` are `2^k` units
/// apart, and `m * 2^k` units have the pattern `k * 2^52 + m`.
pub open spec fn round_pattern(n: nat, d: nat) -> nat {
    let k = excess_bits(n / d);
    let p = k * (HIDDEN_BIT as nat) + round_half_even(n, d * pow2(k));
    if p < INFINITY {
        p
    } else {
        INFINITY as nat
    }
}

/// The significand of a magnitude pattern.
pub open spec fn significand(p: nat) -> nat {
    if p < HIDDEN_BIT {
        p
    } else {
        HIDDEN_BIT as nat + p % (HIDDEN_BIT as nat)
    }
}

/// The exponent of a magnitude pattern, in units.
pub open spec fn exponent(p: nat) -> nat {
    if p < HIDDEN_BIT {
        0
    } else {
        (p / (HIDDEN_BIT as nat) - 1) as nat
    }
}

/// The number of units that a magnitude pattern stands for.
pub open spec fn magnitude(p: nat) -> nat {
    significand(p) * pow2(exponent(p))
}

/// A common factor of both sides of a division leaves the quotient, and scales the
/// remainder.
pub(crate) proof fn lemma_cancel(n: nat, d: nat, c: nat)
    requires
        d > 0,
        c > 0,
    ensures
        c * d > 0,
        (c * n) / (c * d) == n / d,
        (c * n) % (c * d) == c * (n % d),
{
    let q = n as int / d as int;
    let r = n as int % d as int;
    lemma_fundamental_div_mod(n as int, d as int);
    assert(c * d > 0) by (nonlinear_arith)
        requires
            c > 0,
            d > 0,
    ;
    assert(c * n == q * (c * d) + c * r) by (nonlinear_arith)
        requires
            n == d * q + r,
    ;
    assert(0 <= c * r < c * d) by (nonlinear_arith)
        requires
            0 <= r < d,
            c > 0,
    ;
    lemma_fundamental_div_mod_converse((c * n) as int, (c * d) as int, q, c * r);
}

/// Rounding depends on the ratio alone.
pub(crate) proof fn lemma_round_half_even_cancel(n: nat, d: nat, c: nat)
    requires
        d > 0,
        c > 0,
    ensures
        c * d > 0,
        round_half_even(c * n, c * d) == round_half_even(n, d),
{
    lemma_cancel(n, d, c);
    let r = n % d;
    assert(2 * (c * r) > c * d <==> 2 * r > d) by (nonlinear_arith)
        requires
            c > 0,
    ;
    assert(2 * (c * r) == c * d <==> 2 * r == d) by (nonlinear_arith)
        requires
            c > 0,
    ;
}

/// Rounding `a / (b * 2^t)` from the integer part of `a / b` and from whether `a / b`
/// is whole.
pub(crate) proof fn lemma_round_from_floor(a: nat, b: nat, t: nat)
    requires
        b > 0,
        t > 0,
    ensures
        b * pow2(t) > 0,
        ({
            let s = a / b;
            let q = s / pow2(t);
            let r = s % pow2(t);
            round_half_even(a, b * pow2(t)) == if 2 * r > pow2(t) || (2 * r == pow2(t) && (a % b
                != 0 || q % 2 == 1)) {
                q + 1
            } else {
                q
            }
        }),
{
    let p = pow2(t) as int;
    lemma_pow2_pos(t);
    lemma_pow2_unfold(t);
    let h = pow2((t - 1) as nat) as int;
    let s = a as int / b as int;
    let rho = a as int % b as int;
    let q = s / p;
    let r = s % p;
    let bb = b as int;
    lemma_fundamental_div_mod(a as int, bb);
    lemma_fundamental_div_mod(s, p);
    lemma_div_pos_is_pos(a as int, bb);
    assert(bb * p > 0) by (nonlinear_arith)
        requires
            bb > 0,
            p > 0,
    ;
    assert(a == q * (bb * p) + (r * bb + rho)) by (nonlinear_arith)
        requires
            a == bb * s + rho,
            s == p * q + r,
    ;
    assert(0 <= r * bb + rho < bb * p) by (nonlinear_arith)
        requires
            0 <= r <= p - 1,
            0 <= rho < bb,
    ;
    lemma_fundamental_div_mod_converse(a as int, bb * p, q, r * bb + rho);
    let rem = r * bb + rho;
    if 2 * r > p {
        assert(2 * rem > bb * p) by (nonlinear_arith)
            requires
                2 * r >= p + 1,
                rem == r * bb + rho,
                rho >= 0,
                bb > 0,
        ;
    } else if 2 * r == p {
        assert(2 * rem == bb * p + 2 * rho) by (nonlinear_arith)
            requires
                2 * r == p,
                rem == r * bb + rho,
        ;
    } else {
        assert(2 * rem < bb * p) by (nonlinear_arith)
            requires
                2 * r <= p - 2,
                rem == r * bb + rho,
                rho < bb,
                bb > 0,
        ;
    }
}

/// A whole ratio rounds to itself.
pub(crate) proof fn lemma_round_exact(m: nat, d: nat)
    requires
        d > 0,
    ensures
        round_half_even(m * d, d) == m,
{
    lemma_fundamental_div_mod_converse((m * d) as int, d as int, m as int, 0);
}

/// `x` has `l` bits exactly when `2^(l-1) <= x < 2^l`.
pub(crate) proof fn lemma_bit_length(x: nat)
    ensures
        x < pow2(bit_length(x)),
        x > 0 ==> bit_length(x) > 0 && pow2((bit_length(x) - 1) as nat) <= x,
    decreases x,
{
    lemma2_to64();
    if x > 0 {
        lemma_bit_length(x / 2);
        lemma_pow2_unfold(bit_length(x));
        if x / 2 > 0 {
            lemma_pow2_unfold((bit_length(x) - 1) as nat);
        }
    }
}

/// The excess is pinned by the power of two below `x`.
pub(crate) proof fn lemma_excess_bits(x: nat, k: nat)
    requires
        x < pow2(k + 53),
        k > 0 ==> pow2(k + 52) <= x,
    ensures
        excess_bits(x) == k,
    decreases k,
{
    lemma2_to64_rest();
    if k > 0 {
        lemma_pow2_unfold(k + 53);
        lemma_pow2_unfold(k + 52);
        assert(SIGNIFICAND_END == pow2(53));
        if k > 1 {
            lemma_pow2_strictly_increases(53, k + 52);
        }
        if k > 1 {
            assert(pow2((k - 1) as nat + 52) == pow2((k + 51) as nat));
        }
        lemma_excess_bits(x / 2, (k - 1) as nat);
    }
}

/// `s` is the integer part of `n / d` over `2^e`, and `sticky` says whether anything
/// is left beyond it.
pub open spec fn scaled_floor(n: nat, d: nat, s: nat, e: int, sticky: bool) -> bool {
    let a = n * pow2((if e < 0 { -e } else { 0 }) as nat);
    let b = d * pow2((if e > 0 { e } else { 0 }) as nat);
    s == a / b && sticky == (a % b != 0)
}

/// The excess of `n / d`, from the length of its integer part over `2^e`.
proof fn lemma_scaled_excess(n: nat, d: nat, s: nat, e: int, sticky: bool)
    requires
        d > 0,
        s > 0,
        scaled_floor(n, d, s, e, sticky),
    ensures
        excess_bits(n / d) == if bit_length(s) + e > 53 {
            bit_length(s) + e - 53
        } else {
            0
        },
{
    let l = bit_length(s);
    let k = (if l + e > 53 { l + e - 53 } else { 0 }) as nat;
    let x = n as int / d as int;
    lemma_bit_length(s);
    lemma2_to64_rest();
    lemma_div_pos_is_pos(n as int, d as int);
    if e >= 0 {
        let pe = pow2(e as nat) as int;
        lemma_pow2_pos(e as nat);
        lemma2_to64();
        assert(n * pow2(0) == n);
        assert(d * pow2(0) == d);
        lemma_div_denominator(n as int, d as int, pe);
        assert(s == x / pe);
        lemma_fundamental_div_mod(x, pe);
        lemma_pow2_adds(l, e as nat);
        lemma_pow2_adds((l - 1) as nat, e as nat);
        assert(pow2((l - 1) as nat) * pe <= x < pow2(l) * pe) by (nonlinear_arith)
            requires
                pow2((l - 1) as nat) <= s <= pow2(l) - 1,
                x == pe * s + x % pe,
                0 <= x % pe < pe,
        ;
        if k > 0 {
            assert(k + 53 == l + e as nat);
            assert(k + 52 == (l - 1) as nat + e as nat);
        } else if l + e < 53 {
            lemma_pow2_strictly_increases(l + e as nat, 53);
        }
    } else {
        let me = (-e) as nat;
        let pe = pow2(me) as int;
        let a = n * pe;
        lemma_pow2_pos(me);
        lemma2_to64();
        assert(d * pow2(0) == d);
        assert(a >= 0) by (nonlinear_arith)
            requires
                a == n * pe,
                n >= 0,
                pe > 0,
        ;
        lemma_div_denominator(a, d as int, pe);
        lemma_cancel(n, d, pe as nat);
        assert(a == pe * n) by (nonlinear_arith)
            requires
                a == n * pe,
        ;
        assert(d * pe == pe * d) by (nonlinear_arith);
        assert(x == s as int / pe);
        lemma_fundamental_div_mod(s as int, pe);
        let r = s as int % pe;
        if l + e > 0 {
            let f = (l + e) as nat;
            lemma_pow2_adds(f, me);
            lemma_pow2_adds((f - 1) as nat, me);
            assert(f + me == l);
            assert((f - 1) as nat + me == (l - 1) as nat);
            assert(pow2((f - 1) as nat) <= x < pow2(f)) by (nonlinear_arith)
                requires
                    pow2((f - 1) as nat) * pe <= s < pow2(f) * pe,
                    s == pe * x + r,
                    0 <= r < pe,
            ;
            if k > 0 {
                assert(k + 53 == f);
                assert(k + 52 == (f - 1) as nat);
            } else if f < 53 {
                lemma_pow2_strictly_increases(f, 53);
            }
        } else {
            if l < me {
                lemma_pow2_strictly_increases(l, me);
            }
            assert(x == 0) by (nonlinear_arith)
                requires
                    s < pe,
                    s == pe * x + r,
                    0 <= r,
                    0 <= x,
            ;
        }
    }
    lemma_excess_bits(x as nat, k);
}

/// Rounding `n / d` at `2^k`, from its integer part over `2^e`.
proof fn lemma_scaled_round(n: nat, d: nat, s: nat, e: int, sticky: bool, k: nat)
    requires
        d > 0,
        scaled_floor(n, d, s, e, sticky),
        k <= e ==> !sticky,
    ensures
        ({
            let t = k - e;
            let q = s / pow2(t as nat);
            let r = s % pow2(t as nat);
            round_half_even(n, d * pow2(k)) == if t <= 0 {
                s * pow2((-t) as nat)
            } else if 2 * r > pow2(t as nat) || (2 * r == pow2(t as nat) && (sticky || q % 2
                == 1)) {
                q + 1
            } else {
                q
            }
        }),
{
    let t = k - e;
    lemma2_to64();
    lemma_pow2_pos(k);
    let pk = pow2(k) as int;
    if t <= 0 {
        let mt = (-t) as nat;
        let pe = pow2(e as nat) as int;
        let pt = pow2(mt) as int;
        lemma_pow2_pos(e as nat);
        lemma_pow2_adds(k, mt);
        assert(k + mt == e);
        assert(n * pow2(0) == n);
        assert(d * pow2(0) == d);
        let b = d * pe;
        assert(b > 0) by (nonlinear_arith)
            requires
                b == d * pe,
                d > 0,
                pe > 0,
        ;
        lemma_fundamental_div_mod(n as int, b);
        assert(n == (s * pt) * (d * pk)) by (nonlinear_arith)
            requires
                n == b * s,
                b == d * pe,
                pe == pk * pt,
        ;
        assert(d * pk > 0) by (nonlinear_arith)
            requires
                d > 0,
                pk > 0,
        ;
        lemma_round_exact((s * pt) as nat, (d * pk) as nat);
    } else if e >= 0 {
        let pe = pow2(e as nat) as int;
        let pt = pow2(t as nat) as int;
        lemma_pow2_pos(e as nat);
        lemma_pow2_adds(e as nat, t as nat);
        assert(e as nat + t as nat == k);
        assert(n * pow2(0) == n);
        assert(d * pow2(0) == d);
        let b = d * pe;
        assert(b > 0) by (nonlinear_arith)
            requires
                b == d * pe,
                d > 0,
                pe > 0,
        ;
        assert(b * pt == d * pk) by (nonlinear_arith)
            requires
                b == d * pe,
                pk == pe * pt,
        ;
        lemma_round_from_floor(n, b as nat, t as nat);
    } else {
        let me = (-e) as nat;
        let pe = pow2(me) as int;
        let pt = pow2(t as nat) as int;
        lemma_pow2_pos(me);
        lemma_pow2_adds(k, me);
        assert(k + me == t as nat);
        assert(d * pow2(0) == d);
        lemma_round_from_floor((n * pe) as nat, d, t as nat);
        assert(d * pk > 0) by (nonlinear_arith)
            requires
                d > 0,
                pk > 0,
        ;
        lemma_round_half_even_cancel(n, (d * pk) as nat, pe as nat);
        assert(pe * (d * pk) == d * pt) by (nonlinear_arith)
            requires
                pt == pk * pe,
        ;
        assert(pe * n == n * pe) by (nonlinear_arith);
    }
}

/// `2^127` fits in 128 bits.
pub(crate) proof fn lemma_pow2_127()
    ensures
        pow2(127) == 0x8000_0000_0000_0000_0000_0000_0000_0000,
        pow2(128) == 0x1_0000_0000_0000_0000_0000_0000_0000_0000int,
{
    lemma2_to64();
    lemma2_to64_rest();
    lemma_pow2_adds(64, 63);
    lemma_pow2_unfold(128);
}

/// `2^t`.
pub(crate) fn power_of_two(t: u32) -> (p: u128)
    requires
        t < 128,
    ensures
        p == pow2(t as nat),
{
    let mut p: u128 = 1;
    let mut i: u32 = 0;
    proof {
        lemma2_to64();
    }
    while i < t
        invariant
            i <= t < 128,
            p == pow2(i as nat),
        decreases t - i,
    {
        proof {
            lemma_pow2_127();
            lemma_pow2_unfold((i + 1) as nat);
            if i + 1 < 127 {
                lemma_pow2_strictly_increases((i + 1) as nat, 127);
            }
        }
        p = p * 2;
        i = i + 1;
    }
    p
}

/// The number of bits that it takes to write `x`.
pub(crate) fn count_bits(x: u128) -> (l: u32)
    ensures
        l == bit_length(x as nat),
        l <= 128,
{
    let mut y: u128 = x;
    let mut l: u32 = 0;
    proof {
        lemma_pow2_127();
        lemma_bit_length(x as nat);
        if bit_length(x as nat) > 129 {
            lemma_pow2_strictly_increases(128, (bit_length(x as nat) - 1) as nat);
        }
    }
    while y > 0
        invariant
            l + bit_length(y as nat) == bit_length(x as nat),
            bit_length(x as nat) <= 128,
        decreases y,
    {
        y = y / 2;
        l = l + 1;
    }
    l
}

/// What is left of `s` after dropping its low `t` bits, where `t` brings it down to 53.
proof fn lemma_rounded_fits(s: nat, t: nat)
    requires
        bit_length(s) <= t + 53,
    ensures
        s / pow2(t) < SIGNIFICAND_END,
{
    lemma_bit_length(s);
    lemma_pow2_pos(t);
    lemma2_to64_rest();
    lemma_pow2_adds(53, t);
    if bit_length(s) < t + 53 {
        lemma_pow2_strictly_increases(bit_length(s), 53 + t);
    }
    let q = s as int / pow2(t) as int;
    lemma_fundamental_div_mod(s as int, pow2(t) as int);
    assert(q < SIGNIFICAND_END) by (nonlinear_arith)
        requires
            s < SIGNIFICAND_END * pow2(t),
            s == pow2(t) * q + s as int % pow2(t) as int,
            s as int % pow2(t) as int >= 0,
            pow2(t) > 0,
    ;
}

/// The magnitude pattern nearest to `n / d` units, from the integer part of that
/// ratio over a power of two.
pub(crate) fn round_scaled(
    s: u128,
    e: i32,
    sticky: bool,
    Ghost(n): Ghost<nat>,
    Ghost(d): Ghost<nat>,
) -> (p: u64)
    requires
        d > 0,
        0 < s < 0x8000_0000_0000_0000_0000_0000_0000_0000,
        -4096 <= e <= 4096,
        scaled_floor(n, d, s as nat, e as int, sticky),
        sticky ==> s >= 0x40_0000_0000_0000,
    ensures
        p == round_pattern(n, d),
{
    let l: u32 = count_bits(s);
    let top: i32 = l as i32 + e;
    let k: i32 = if top > 53 { top - 53 } else { 0 };
    proof {
        lemma_scaled_excess(n, d, s as nat, e as int, sticky);
        lemma_bit_length(s as nat);
        lemma_pow2_127();
        lemma2_to64_rest();
        if l > 128 {
            lemma_pow2_strictly_increases(127, (l - 1) as nat);
        }
    }
    if k >= 2047 {
        assert(k * (HIDDEN_BIT as nat) >= INFINITY) by (nonlinear_arith)
            requires
                k >= 2047,
        ;
        return INFINITY;
    }
    let t: i32 = k - e;
    proof {
        if sticky && l <= 54 {
            if l < 54 {
                lemma_pow2_strictly_increases(l as nat, 54);
            }
        }
        lemma_scaled_round(n, d, s as nat, e as int, sticky, k as nat);
    }
    let m: u64 = if t <= 0 {
        proof {
            lemma_pow2_adds(l as nat, (-t) as nat);
            lemma_pow2_pos((-t) as nat);
            if l - t < 53 {
                lemma_pow2_strictly_increases((l - t) as nat, 53);
            }
            assert(l as nat + (-t) as nat == (l - t) as nat);
            assert(s * pow2((-t) as nat) < pow2(l as nat) * pow2((-t) as nat)) by (nonlinear_arith)
                requires
                    s < pow2(l as nat),
                    pow2((-t) as nat) > 0,
            ;
        }
        (s * power_of_two((-t) as u32)) as u64
    } else if t >= 128 {
        proof {
            lemma_pow2_strictly_increases(127, t as nat);
            lemma_pow2_unfold(t as nat);
            if t > 128 {
                lemma_pow2_strictly_increases(127, (t - 1) as nat);
            }
            lemma_small_mod(s as nat, pow2(t as nat));
            lemma_basic_div(s as int, pow2(t as nat) as int);
        }
        0
    } else {
        proof {
            lemma_rounded_fits(s as nat, t as nat);
            lemma_pow2_unfold(t as nat);
            lemma_pow2_pos(t as nat);
        }
        let unit: u128 = power_of_two(t as u32);
        let q: u128 = s / unit;
        let r: u128 = s % unit;
        let half: u128 = unit / 2;
        if r > half || (r == half && (sticky || q % 2 == 1)) {
            (q + 1) as u64
        } else {
            q as u64
        }
    };
    assert(k * HIDDEN_BIT <= 2046 * HIDDEN_BIT) by (nonlinear_arith)
        requires
            0 <= k <= 2046,
    ;
    let p: u64 = k as u64 * HIDDEN_BIT + m;
    if p < INFINITY {
        p
    } else {
        INFINITY
    }
}

}
