//! What rounding to the nearest binary64 number keeps: exact values, order, and
//! closeness.

use vstd::arithmetic::div_mod::*;
use vstd::arithmetic::mul::*;
use vstd::arithmetic::power2::*;
use vstd::prelude::*;

use crate::float64::F64;
use crate::float64;
use crate::rounding;

verus! {

/// The largest magnitude pattern that stands for no more than `n / d` units.
pub open spec fn floor_pattern(n: nat, d: nat) -> nat {
    let k = rounding::excess_bits(n / d);
    k * (rounding::HIDDEN_BIT as nat) + n / (d * pow2(k))
}

/// A number with `k > 0` excess bits lies between two powers of two.
pub(crate) proof fn lemma_excess_range(x: nat)
    ensures
        x < pow2(rounding::excess_bits(x) + 53),
        rounding::excess_bits(x) > 0 ==> pow2(rounding::excess_bits(x) + 52) <= x,
    decreases x,
{
    lemma2_to64_rest();
    if x >= rounding::SIGNIFICAND_END {
        let k = rounding::excess_bits(x);
        lemma_excess_range(x / 2);
        lemma_pow2_unfold(k + 53);
        lemma_pow2_unfold(k + 52);
    }
}

/// The floor pattern and the next one enclose `n / d`, and are `2^k` units apart.
pub(crate) proof fn lemma_floor_pattern(n: nat, d: nat)
    requires
        d > 0,
    ensures
        ({
            let k = rounding::excess_bits(n / d);
            let q = n / (d * pow2(k));
            let p = floor_pattern(n, d);
            &&& d * pow2(k) > 0
            &&& n == (d * pow2(k)) * q + n % (d * pow2(k))
            &&& n % (d * pow2(k)) < d * pow2(k)
            &&& q < rounding::SIGNIFICAND_END
            &&& k > 0 ==> q >= rounding::HIDDEN_BIT
            &&& rounding::exponent(p) == k
            &&& rounding::magnitude(p) == q * pow2(k)
            &&& rounding::magnitude(p + 1) == (q + 1) * pow2(k)
            &&& d * rounding::magnitude(p) == (d * pow2(k)) * q
            &&& d * rounding::magnitude(p + 1) == (d * pow2(k)) * q + d * pow2(k)
        }),
{
    let k = rounding::excess_bits(n / d);
    let pk = pow2(k);
    let h = rounding::HIDDEN_BIT as nat;
    let x = n as int / d as int;
    lemma_pow2_pos(k);
    assert(d * pk > 0) by (nonlinear_arith)
        requires
            d > 0,
            pk > 0,
    ;
    lemma_div_denominator(n as int, d as int, pk as int);
    lemma_fundamental_div_mod(n as int, (d * pk) as int);
    lemma_mod_bound(n as int, (d * pk) as int);
    lemma_div_pos_is_pos(n as int, d as int);
    lemma_excess_range(x as nat);
    lemma_pow2_adds(53, k);
    lemma_pow2_adds(52, k);
    lemma2_to64_rest();
    let q = x / pk as int;
    lemma_fundamental_div_mod(x, pk as int);
    lemma_mod_bound(x, pk as int);
    let r = x % pk as int;
    assert(0 <= q < 2 * h) by (nonlinear_arith)
        requires
            0 <= x < (2 * h) * pk,
            x == pk * q + r,
            0 <= r < pk,
    ;
    if k > 0 {
        assert(q >= h) by (nonlinear_arith)
            requires
                x >= h * pk,
                x == pk * q + r,
                0 <= r < pk,
        ;
    }
    let p = floor_pattern(n, d);
    assert(p == k * h + q);
    if k > 0 || q >= h {
        assert(p == h * (k + 1) + (q - h)) by (nonlinear_arith)
            requires
                p == k * h + q,
        ;
        lemma_fundamental_div_mod_converse(p as int, h as int, (k + 1) as int, q - h);
        assert(p >= h) by (nonlinear_arith)
            requires
                p == h * (k + 1) + (q - h),
                q >= h,
                h > 0,
                k >= 0,
        ;
        if k == 0 {
            lemma2_to64();
        }
    }
    assert(rounding::magnitude(p) == q * pk);
    assert(rounding::exponent(p) == k);
    float64::lemma_magnitude_step(p);
    lemma_mul_is_distributive_add_other_way(pk as int, q, 1);
    assert(d * (q * pk) == (d * pk) * q) by (nonlinear_arith);
    assert(d * ((q + 1) * pk) == (d * pk) * q + d * pk) by (nonlinear_arith);
}

/// The rounded pattern is the floor pattern or the next one, whichever is nearer.
pub(crate) proof fn lemma_round_pattern(n: nat, d: nat)
    requires
        d > 0,
    ensures
        ({
            let k = rounding::excess_bits(n / d);
            let w = d * pow2(k);
            let r = n % w;
            let q = n / w;
            let p = if 2 * r > w || (2 * r == w && q % 2 == 1) {
                floor_pattern(n, d) + 1
            } else {
                floor_pattern(n, d)
            };
            rounding::round_pattern(n, d) == if p < rounding::INFINITY {
                p
            } else {
                rounding::INFINITY as nat
            }
        }),
{
    let k = rounding::excess_bits(n / d);
    let w = d * pow2(k);
    lemma_floor_pattern(n, d);
    let m = rounding::round_half_even(n, w);
    assert(m == n / w || m == n / w + 1);
}

/// What lies at or below a representable number does not round above it.
pub(crate) proof fn lemma_round_at_most(n: nat, d: nat, p: nat)
    requires
        d > 0,
        n <= d * rounding::magnitude(p),
    ensures
        rounding::round_pattern(n, d) <= p,
{
    let f = floor_pattern(n, d);
    lemma_floor_pattern(n, d);
    lemma_round_pattern(n, d);
    let mp = rounding::magnitude(p);
    let mf = rounding::magnitude(f);
    if f > p {
        float64::lemma_magnitude_order(p, f);
        assert(d * mf > d * mp) by (nonlinear_arith)
            requires
                mf > mp,
                d > 0,
        ;
    }
}

/// What lies at or above a representable number does not round below it.
pub(crate) proof fn lemma_round_at_least(n: nat, d: nat, p: nat)
    requires
        d > 0,
        p <= rounding::INFINITY,
        n >= d * rounding::magnitude(p),
    ensures
        rounding::round_pattern(n, d) >= p,
{
    let f = floor_pattern(n, d);
    lemma_floor_pattern(n, d);
    lemma_round_pattern(n, d);
    let mp = rounding::magnitude(p);
    let mg = rounding::magnitude(f + 1);
    if f + 1 <= p {
        float64::lemma_magnitude_compare(f + 1, p);
        assert(d * mg <= d * mp) by (nonlinear_arith)
            requires
                mg <= mp,
                d > 0,
        ;
    }
}

/// A representable number rounds to itself.
pub(crate) proof fn lemma_round_representable(d: nat, p: nat)
    requires
        d > 0,
        p <= rounding::INFINITY,
    ensures
        rounding::round_pattern(d * rounding::magnitude(p), d) == p,
{
    lemma_round_at_most(d * rounding::magnitude(p), d, p);
    lemma_round_at_least(d * rounding::magnitude(p), d, p);
}

/// Rounding keeps the order of numbers.
pub(crate) proof fn lemma_round_monotone(m: nat, n: nat, d: nat)
    requires
        d > 0,
        m <= n,
    ensures
        rounding::round_pattern(m, d) <= rounding::round_pattern(n, d),
{
    let f = floor_pattern(m, d);
    let g = floor_pattern(n, d);
    lemma_floor_pattern(m, d);
    lemma_floor_pattern(n, d);
    lemma_round_pattern(m, d);
    lemma_round_pattern(n, d);
    let mf = rounding::magnitude(f);
    let mg = rounding::magnitude(g + 1);
    assert(mf < mg) by (nonlinear_arith)
        requires
            d * mf < d * mg,
            d > 0,
    ;
    float64::lemma_magnitude_compare(f, g + 1);
    if f == g {
        let w = d * pow2(rounding::exponent(f));
        let q = m as int / w as int;
        let s = n as int / w as int;
        assert(q == s);
    }
}

/// A number in the range of full precision moves by less than one part in `2^53` of
/// itself.
pub(crate) proof fn lemma_round_error(n: nat, d: nat)
    requires
        d > 0,
        n / d >= rounding::HIDDEN_BIT,
        rounding::round_pattern(n, d) < rounding::INFINITY,
    ensures
        rounding::SIGNIFICAND_END * (d * rounding::magnitude(rounding::round_pattern(n, d)) - n)
            <= n,
        rounding::SIGNIFICAND_END * (n - d * rounding::magnitude(rounding::round_pattern(n, d)))
            <= n,
{
    let k = rounding::excess_bits(n / d);
    let w = d * pow2(k);
    let q = n / w;
    let m = d * rounding::magnitude(rounding::round_pattern(n, d));
    let h = rounding::HIDDEN_BIT as nat;
    lemma_floor_pattern(n, d);
    lemma_round_pattern(n, d);
    lemma2_to64();
    lemma_mul_basics(d as int);
    assert(q >= h);
    assert(2 * (m - n) <= w && 2 * (n - m) <= w);
    assert(w * h <= n) by (nonlinear_arith)
        requires
            n >= w * q,
            q >= h,
            w > 0,
    ;
}

/// A number of at most one moves by less than one part in `2^53` of one.
pub(crate) proof fn lemma_unit_rounding(n: nat, d: nat)
    requires
        d > 0,
        n <= d * F64::units_per_one(),
    ensures
        rounding::magnitude(rounding::round_pattern(n, d)) <= F64::units_per_one(),
        0x20_0000_0000_0000 * (d * rounding::magnitude(rounding::round_pattern(n, d)) - n) <= d
            * F64::units_per_one(),
        0x20_0000_0000_0000 * (n - d * rounding::magnitude(rounding::round_pattern(n, d))) <= d
            * F64::units_per_one(),
{
    let u = F64::units_per_one();
    let one: nat = float64::ONE as nat;
    let p = rounding::round_pattern(n, d);
    lemma2_to64();
    lemma2_to64_rest();
    lemma_pow2_adds(52, 1022);
    assert(rounding::magnitude(one) == u);
    lemma_round_at_most(n, d, one);
    float64::lemma_magnitude_compare(one, p);
    if n / d >= rounding::HIDDEN_BIT {
        lemma_round_error(n, d);
    } else {
        let m = d * rounding::magnitude(p);
        lemma_floor_pattern(n, d);
        lemma_round_pattern(n, d);
        assert(rounding::excess_bits(n / d) == 0);
        assert(d * pow2(0) == d) by (nonlinear_arith)
            requires
                pow2(0) == 1,
        ;
        assert(2 * (m - n) <= d && 2 * (n - m) <= d);
        lemma_pow2_strictly_increases(53, 1074);
        assert(d * u >= d * 0x20_0000_0000_0000) by (nonlinear_arith)
            requires
                u >= 0x20_0000_0000_0000,
                d > 0,
        ;
    }
}

/// Rounding depends on the ratio alone.
pub(crate) proof fn lemma_round_scales(n: nat, c: nat)
    requires
        c > 0,
    ensures
        rounding::round_pattern(c * n, c) == rounding::round_pattern(n, 1),
{
    let k = rounding::excess_bits(n / 1);
    lemma_pow2_pos(k);
    assert(c * n / c == n) by {
        lemma_div_multiples_vanish(n as int, c as int);
    }
    assert(c * (1 * pow2(k)) == c * pow2(k));
    rounding::lemma_round_half_even_cancel(n, 1 * pow2(k), c);
}

/// The parts of a rounded number.
pub(crate) proof fn lemma_rounded(negative: bool, n: nat, d: nat)
    ensures
        F64::rounded(negative, n, d).negative() == negative,
        F64::rounded(negative, n, d).pattern() == rounding::round_pattern(n, d),
        F64::rounded(negative, n, d).size() == rounding::magnitude(rounding::round_pattern(n, d)),
        !F64::rounded(negative, n, d).is_nan(),
{
    reveal(F64::size);
}

/// Numbers are ordered as their patterns.
pub(crate) proof fn lemma_size_order(a: F64, b: F64)
    ensures
        a.pattern() < b.pattern() <==> a.size() < b.size(),
        a.pattern() == b.pattern() <==> a.size() == b.size(),
        a.pattern() == 0 <==> a.size() == 0,
{
    reveal(F64::size);
    float64::lemma_magnitude_compare(a.pattern(), b.pattern());
    float64::lemma_magnitude_zero(a.pattern());
}

/// The number nearest to a whole number is finite, and keeps the order.
pub(crate) proof fn lemma_of_nat(x: nat, y: nat)
    requires
        x <= y <= u128::MAX,
    ensures
        !F64::of_nat(x).negative(),
        !F64::of_nat(y).negative(),
        F64::of_nat(x).pattern() <= F64::of_nat(y).pattern() < rounding::INFINITY,
        F64::of_nat(x).size() <= F64::of_nat(y).size(),
{
    reveal(F64::of_nat);
    let u = F64::units_per_one();
    lemma_rounded(false, x * u, 1);
    lemma_rounded(false, y * u, 1);
    assert(x * u <= y * u) by (nonlinear_arith)
        requires
            x <= y,
    ;
    lemma_round_monotone(x * u, y * u, 1);
    lemma_size_order(F64::of_nat(x), F64::of_nat(y));
    rounding::lemma_pow2_127();
    lemma_whole_excess(y, 128);
    lemma_floor_pattern(y * u, 1);
    lemma_round_pattern(y * u, 1);
}

/// How many excess bits a whole number of at most `b` bits has in units.
proof fn lemma_whole_excess(x: nat, b: nat)
    requires
        x < pow2(b),
        53 <= b,
    ensures
        rounding::excess_bits((x * F64::units_per_one()) / 1) <= 1021 + b,
{
    let n = x * F64::units_per_one();
    let k = rounding::excess_bits(n);
    lemma_excess_range(n);
    lemma_pow2_adds(b, 1074);
    lemma_pow2_pos(1074);
    lemma_mul_strict_inequality(x as int, pow2(b) as int, pow2(1074) as int);
    if k + 52 >= b + 1074 {
        if k + 52 > b + 1074 {
            lemma_pow2_strictly_increases(b + 1074, k + 52);
        }
    }
}

/// A whole number of at most 53 bits has an exact counterpart.
pub(crate) proof fn lemma_of_nat_exact(x: nat)
    requires
        x < rounding::SIGNIFICAND_END,
    ensures
        !F64::of_nat(x).negative(),
        F64::of_nat(x).pattern() < rounding::INFINITY,
        F64::of_nat(x).size() == x * F64::units_per_one(),
{
    reveal(F64::of_nat);
    let u = F64::units_per_one();
    let n = x * u;
    let k = rounding::excess_bits(n / 1);
    lemma_of_nat(x, x);
    lemma2_to64_rest();
    lemma_whole_excess(x, 53);
    lemma_rounded(false, n, 1);
    lemma_floor_pattern(n, 1);
    lemma_round_pattern(n, 1);
    let pk = pow2(k);
    let rest = pow2((1074 - k) as nat);
    lemma_pow2_adds(k, (1074 - k) as nat);
    assert(n == (x * rest) * (1 * pk)) by (nonlinear_arith)
        requires
            n == x * u,
            u == pk * rest,
    ;
    lemma_mod_multiples_basic((x * rest) as int, (1 * pk) as int);
}

/// The product of two finite numbers that are not negative.
pub(crate) proof fn lemma_product_parts(a: F64, b: F64)
    requires
        !a.negative(),
        !b.negative(),
        a.pattern() < rounding::INFINITY,
        b.pattern() < rounding::INFINITY,
    ensures
        F64::units_per_one() > 0,
        !a.product(b).negative(),
        a.product(b).pattern() == rounding::round_pattern(
            a.size() * b.size(),
            F64::units_per_one(),
        ),
        !a.product(b).is_nan(),
{
    reveal(F64::product);
    lemma_pow2_pos(1074);
    lemma_rounded(false, a.size() * b.size(), F64::units_per_one());
}

/// A product that is not above a number does not round above it.
pub(crate) proof fn lemma_product_at_most(a: F64, b: F64, c: F64)
    requires
        !a.negative(),
        !b.negative(),
        a.pattern() < rounding::INFINITY,
        b.pattern() < rounding::INFINITY,
        a.size() * b.size() <= F64::units_per_one() * c.size(),
    ensures
        !a.product(b).negative(),
        !a.product(b).is_nan(),
        a.product(b).pattern() <= c.pattern(),
        a.product(b).size() <= c.size(),
{
    lemma_product_parts(a, b);
    lemma_size_order(c, a.product(b));
    assert(c.size() == rounding::magnitude(c.pattern())) by {
        reveal(F64::size);
    }
    lemma_round_at_most(a.size() * b.size(), F64::units_per_one(), c.pattern());
}

/// A product that is not below a number does not round below it.
pub(crate) proof fn lemma_product_at_least(a: F64, b: F64, c: F64)
    requires
        !a.negative(),
        !b.negative(),
        a.pattern() < rounding::INFINITY,
        b.pattern() < rounding::INFINITY,
        c.pattern() <= rounding::INFINITY,
        a.size() * b.size() >= F64::units_per_one() * c.size(),
    ensures
        !a.product(b).negative(),
        !a.product(b).is_nan(),
        a.product(b).pattern() >= c.pattern(),
        a.product(b).size() >= c.size(),
{
    lemma_product_parts(a, b);
    lemma_size_order(a.product(b), c);
    assert(c.size() == rounding::magnitude(c.pattern())) by {
        reveal(F64::size);
    }
    lemma_round_at_least(a.size() * b.size(), F64::units_per_one(), c.pattern());
}

/// The integer part stays within its range.
pub(crate) proof fn lemma_whole_fits(f: F64, max: nat)
    ensures
        f.whole(max) <= max,
{
    reveal(F64::whole);
}

/// The integer part of a number that is not negative.
pub(crate) proof fn lemma_whole(f: F64, max: nat)
    requires
        !f.negative(),
        !f.is_nan(),
    ensures
        forall|lo: nat|
            lo <= max && f.size() >= #[trigger] (lo * F64::units_per_one()) ==> f.whole(max) >= lo,
        forall|hi: nat|
            f.size() < #[trigger] ((hi + 1) * F64::units_per_one()) ==> f.whole(max) <= hi,
        f.whole(max) <= max,
{
    reveal(F64::whole);
    let u = F64::units_per_one();
    lemma_pow2_pos(1074);
    let w = f.size() as int / u as int;
    lemma_fundamental_div_mod(f.size() as int, u as int);
    lemma_mod_bound(f.size() as int, u as int);
    let r = f.size() as int % u as int;
    let t = f.size() as int;
    assert forall|lo: nat| lo <= max && f.size() >= #[trigger] (lo * u) implies f.whole(max)
        >= lo by {
        assert(w >= lo) by (nonlinear_arith)
            requires
                t >= lo * u,
                t == u * w + r,
                0 <= r < u,
        ;
    }
    assert forall|hi: nat| f.size() < #[trigger] ((hi + 1) * u) implies f.whole(max) <= hi by {
        assert(w <= hi) by (nonlinear_arith)
            requires
                t < (hi + 1) * u,
                t == u * w + r,
                0 <= r < u,
        ;
    }
}

/// A share of at most 127 in 128 of a volume is less than the volume, unless that is zero.
pub(crate) proof fn lemma_share_of_volume(x: nat, share: F64, max: nat)
    requires
        x <= u64::MAX,
        !share.negative(),
        128 * share.size() <= 127 * F64::units_per_one(),
        share.pattern() < rounding::INFINITY,
    ensures
        F64::of_nat(x).product(share).whole(max) <= x,
        x > 0 ==> F64::of_nat(x).product(share).whole(max) < x,
{
    let u = F64::units_per_one();
    let a = F64::of_nat(x);
    let n = x * u;
    let f = floor_pattern(n, 1);
    lemma_of_nat(x, x);
    lemma_pow2_pos(1074);
    lemma_floor_pattern(n, 1);
    lemma_round_pattern(n, 1);
    assert(a.size() == rounding::magnitude(rounding::round_pattern(n, 1))) by {
        reveal(F64::of_nat);
        lemma_rounded(false, n, 1);
    }
    let k = rounding::excess_bits(n / 1);
    let q = n / (1 * pow2(k));
    let m = rounding::magnitude(f);
    lemma2_to64();
    lemma2_to64_rest();
    lemma_whole_excess(x, 64);
    assert(f + 1 < rounding::INFINITY);
    if x == 0 {
        lemma_of_nat_exact(0);
        assert(a.size() * share.size() == 0 && u * a.size() == 0) by (nonlinear_arith)
            requires
                a.size() == 0,
        ;
        lemma_product_at_most(a, share, a);
        lemma_whole(a.product(share), max);
        assert((0 + 1) * u == u);
    } else {
        assert(n >= u) by (nonlinear_arith)
            requires
                n == x * u,
                x >= 1,
        ;
        lemma_pow2_strictly_increases(53, 1074);
        let pk = pow2(k);
        assert(k > 0);
        let h = rounding::HIDDEN_BIT as nat;
        assert(h * pk <= m) by (nonlinear_arith)
            requires
                m == q * pk,
                q >= h,
        ;
        let (s, t) = (a.size(), share.size());
        assert((q + 1) * pk == m + pk) by (nonlinear_arith)
            requires
                m == q * pk,
        ;
        assert(s <= m + pk);
        assert(128 * (h * (s * t)) <= 127 * (h * (s * u))) by (nonlinear_arith)
            requires
                128 * t <= 127 * u,
                s >= 0,
                h >= 0,
        ;
        assert(h * s <= (h + 1) * m) by (nonlinear_arith)
            requires
                s <= m + pk,
                h * pk <= m,
                h >= 0,
        ;
        assert(h * (s * u) <= (h + 1) * (m * u)) by (nonlinear_arith)
            requires
                h * s <= (h + 1) * m,
                u >= 0,
        ;
        // The number below the one that the volume rounds down to.
        let g = (f - 1) as nat;
        let c = F64::with_pattern(false, g);
        let l = rounding::magnitude(g);
        assert(c.pattern() == g);
        assert(c.size() == l) by {
            reveal(F64::size);
        }
        float64::lemma_magnitude_step(g);
        assert(rounding::exponent(g) <= k);
        if rounding::exponent(g) < k {
            lemma_pow2_strictly_increases(rounding::exponent(g), k);
        }
        lemma_pow2_pos(rounding::exponent(g));
        assert(l < m && m <= l + pk);
        assert((h - 1) * m <= h * l) by (nonlinear_arith)
            requires
                m <= l + pk,
                h * pk <= m,
                h >= 0,
        ;
        assert((h - 1) * (m * u) <= h * (l * u)) by (nonlinear_arith)
            requires
                (h - 1) * m <= h * l,
                u >= 0,
        ;
        assert(s * t <= u * l) by (nonlinear_arith)
            requires
                128 * (h * (s * t)) <= 127 * ((h + 1) * (m * u)),
                (h - 1) * (m * u) <= h * (l * u),
                h == 0x10_0000_0000_0000,
                m * u >= 0,
        ;
        lemma_product_at_most(a, share, c);
        lemma_whole(a.product(share), max);
        let y = (x - 1) as nat;
        assert((y + 1) * u == n);
    }
}

/// What is clearly below a whole number does not round up to it.
pub(crate) proof fn lemma_round_below(n: nat, d: nat, hi: nat)
    requires
        d > 0,
        0 < hi <= 0x4000_0000_0000,
        64 * n + d * F64::units_per_one() <= 64 * (d * (hi * F64::units_per_one())),
    ensures
        rounding::magnitude(rounding::round_pattern(n, d)) < hi * F64::units_per_one(),
{
    let u = F64::units_per_one();
    let c = F64::of_nat(hi);
    lemma_pow2_pos(1074);
    lemma_of_nat_exact(hi);
    assert(hi * u > 0) by (nonlinear_arith)
        requires
            hi > 0,
            u > 0,
    ;
    lemma_size_order(c, c);
    reveal(F64::size);
    let p = (c.pattern() - 1) as nat;
    float64::lemma_magnitude_step(p);
    let e = rounding::exponent(p);
    let m = rounding::magnitude(p);
    let pe = pow2(e);
    lemma_pow2_pos(e);
    lemma2_to64();
    lemma2_to64_rest();
    lemma_pow2_adds(46, 1074);
    lemma_pow2_adds(6, 1068);
    if e >= 1068 {
        float64::lemma_parts(p);
        lemma_pow2_adds(52, e);
        let s = rounding::significand(p);
        assert(s * pe >= pow2(52) * pe) by (nonlinear_arith)
            requires
                s >= pow2(52),
                pe > 0,
        ;
        if 52 + e > 1120 {
            lemma_pow2_strictly_increases(1120, 52 + e);
        }
        assert(hi * u <= pow2(46) * u) by (nonlinear_arith)
            requires
                hi <= pow2(46),
                u > 0,
        ;
        assert(false);
    }
    lemma_pow2_strictly_increases(e, 1068);
    assert(64 * pe <= u);
    assert(d * (64 * m) >= d * (64 * (hi * u) - u)) by (nonlinear_arith)
        requires
            64 * m >= 64 * (hi * u) - u,
            d > 0,
    ;
    assert(d * (64 * m) == 64 * (d * m)) by (nonlinear_arith);
    assert(d * (64 * (hi * u) - u) == 64 * (d * (hi * u)) - d * u) by (nonlinear_arith);
    lemma_round_at_most(n, d, p);
    float64::lemma_magnitude_compare(p, rounding::round_pattern(n, d));
}

/// A product that is clearly below a whole number stays below it.
pub(crate) proof fn lemma_product_below(a: F64, b: F64, hi: nat)
    requires
        !a.negative(),
        !b.negative(),
        a.pattern() < rounding::INFINITY,
        b.pattern() < rounding::INFINITY,
        0 < hi <= 0x4000_0000_0000,
        64 * (a.size() * b.size()) + F64::units_per_one() * F64::units_per_one() <= 64 * (
        F64::units_per_one() * (hi * F64::units_per_one())),
    ensures
        a.product(b).size() < hi * F64::units_per_one(),
{
    lemma_product_parts(a, b);
    lemma_round_below(a.size() * b.size(), F64::units_per_one(), hi);
    reveal(F64::size);
}

}
