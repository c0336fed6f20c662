//! What the scaling of round trips by real factors amounts to.

use vstd::arithmetic::div_mod::*;
use vstd::arithmetic::power2::*;
use vstd::prelude::*;

use crate::congestion::Congestion;
use crate::float64::F64;
use crate::float64;
use crate::nearest;
use crate::rounding;
use crate::state;
use crate::time::{Duration, Instant};
use crate::volume_laws;

verus! {

/// One has far more units than full precision takes.
proof fn lemma_many_units()
    ensures
        F64::units_per_one() >= 0x1_0000_0000_0000_0000 * 0x1_0000_0000,
{
    lemma2_to64();
    lemma_pow2_adds(64, 32);
    lemma_pow2_strictly_increases(96, 1074);
}

/// A part of a second, in units: off by less than one part in `2^53`.
proof fn lemma_fraction(f: nat)
    requires
        f < 1_000_000_000,
    ensures
        ({
            let b = F64::of_nat(f).quotient(F64::of_nat(1_000_000_000));
            let u = F64::units_per_one();
            &&& !b.negative()
            &&& !b.is_nan()
            &&& b.size() <= u
            &&& b.pattern() < rounding::INFINITY
            &&& 0x20_0000_0000_0000 * (1_000_000_000 * b.size() - f * u) <= f * u
            &&& 0x20_0000_0000_0000 * (f * u - 1_000_000_000 * b.size()) <= f * u
            &&& f == 0 ==> b.size() == 0
        }),
{
    let u = F64::units_per_one();
    let one = F64 { bits: float64::ONE };
    let b = F64::of_nat(f).quotient(F64::of_nat(1_000_000_000));
    let fu = f * u;
    let n = fu * u;
    let d = 1_000_000_000 * u;
    lemma_many_units();
    lemma2_to64_rest();
    nearest::lemma_of_nat_exact(f);
    nearest::lemma_of_nat_exact(1_000_000_000);
    nearest::lemma_size_order(F64::of_nat(1_000_000_000), F64::of_nat(1_000_000_000));
    volume_laws::lemma_constant(float64::ONE, 0x10_0000_0000_0000, 1022, 0x10_0000_0000_0000);
    reveal(F64::quotient);
    nearest::lemma_rounded(false, n, d);
    assert(n <= d * u) by (nonlinear_arith)
        requires
            n == fu * u,
            fu == f * u,
            d == 1_000_000_000 * u,
            f < 1_000_000_000,
            u > 0,
    ;
    assert(one.size() == rounding::magnitude(one.pattern())) by {
        reveal(F64::size);
    }
    nearest::lemma_round_at_most(n, d, one.pattern());
    nearest::lemma_size_order(one, b);
    let m = b.size();
    if f == 0 {
        assert(n == 0) by (nonlinear_arith)
            requires
                n == fu * u,
                fu == 0 * u,
        ;
        float64::lemma_round_zero(d);
        nearest::lemma_size_order(b, b);
    } else {
        assert(fu >= u) by (nonlinear_arith)
            requires
                fu == f * u,
                f >= 1,
        ;
        assert(n >= 0x10_0000_0000_0000 * d) by (nonlinear_arith)
            requires
                n == fu * u,
                d == 1_000_000_000 * u,
                fu >= u,
                u >= 0x1_0000_0000_0000_0000 * 0x1_0000_0000,
        ;
        lemma_div_is_ordered((0x10_0000_0000_0000 * d) as int, n as int, d as int);
        lemma_div_multiples_vanish(0x10_0000_0000_0000, d as int);
        assert(d * 0x10_0000_0000_0000 == 0x10_0000_0000_0000 * d) by (nonlinear_arith);
        nearest::lemma_round_error(n, d);
        let g = 1_000_000_000 * m;
        assert(d * m == g * u) by (nonlinear_arith)
            requires
                d == 1_000_000_000 * u,
                g == 1_000_000_000 * m,
        ;
        assert(0x20_0000_0000_0000 * (g - fu) <= fu) by (nonlinear_arith)
            requires
                0x20_0000_0000_0000 * (g * u - fu * u) <= fu * u,
                u > 0,
        ;
        assert(0x20_0000_0000_0000 * (fu - g) <= fu) by (nonlinear_arith)
            requires
                0x20_0000_0000_0000 * (fu * u - g * u) <= fu * u,
                u > 0,
        ;
    }
}

/// A span of less than `10^5` seconds, in seconds: off by less than a sixty-fourth of a
/// nanosecond.
proof fn lemma_seconds(d: Duration)
    requires
        d.nanos < 100_000_000_000_000,
    ensures
        ({
            let v = d.seconds();
            let u = F64::units_per_one();
            &&& !v.negative()
            &&& v.pattern() < rounding::INFINITY
            &&& v.size() <= 0x2_0000 * u
            &&& 64 * (1_000_000_000 * v.size() - d.nanos * u) <= u
            &&& 64 * (d.nanos * u - 1_000_000_000 * v.size()) <= u
            &&& d.nanos == 0 ==> v.size() == 0
        }),
{
    let u = F64::units_per_one();
    let s = d.nanos as nat / 1_000_000_000;
    let f = d.nanos as nat % 1_000_000_000;
    let a = F64::of_nat(s);
    let b = F64::of_nat(f).quotient(F64::of_nat(1_000_000_000));
    let v = d.seconds();
    let n = a.size() + b.size();
    let most = F64::of_nat(0x2_0000);
    lemma_many_units();
    lemma_fraction(f);
    nearest::lemma_of_nat_exact(s);
    nearest::lemma_of_nat_exact(0x2_0000);
    assert(v == a.sum(b));
    reveal(F64::sum);
    nearest::lemma_rounded(false, n, 1);
    float64::lemma_magnitude_zero(0);
    nearest::lemma_size_order(v, v);
    let su = s * u;
    let fu = f * u;
    assert(d.nanos * u == 1_000_000_000 * su + fu) by (nonlinear_arith)
        requires
            d.nanos == 1_000_000_000 * s + f,
            su == s * u,
            fu == f * u,
    ;
    assert(su <= 100_000 * u) by (nonlinear_arith)
        requires
            su == s * u,
            s <= 100_000,
    ;
    assert(fu <= 1_000_000_000 * u) by (nonlinear_arith)
        requires
            fu == f * u,
            f <= 1_000_000_000,
    ;
    if n > 0 {
        assert(most.size() == rounding::magnitude(most.pattern())) by {
            reveal(F64::size);
        }
        nearest::lemma_round_at_most(n, 1, most.pattern());
        nearest::lemma_size_order(most, v);
        if s > 0 {
            assert(su >= u) by (nonlinear_arith)
                requires
                    su == s * u,
                    s >= 1,
            ;
        } else {
            assert(f > 0);
            assert(fu >= u) by (nonlinear_arith)
                requires
                    fu == f * u,
                    f >= 1,
            ;
        }
        assert(n / 1 == n);
        nearest::lemma_round_error(n, 1);
    } else {
        assert(su == 0 && b.size() == 0);
        assert(f == 0) by {
            if f > 0 {
                assert(fu >= u) by (nonlinear_arith)
                    requires
                        fu == f * u,
                        f >= 1,
                ;
            }
        }
    }
    if d.nanos == 0 {
        assert(s == 0 && f == 0);
        assert(su == 0) by (nonlinear_arith)
            requires
                su == s * u,
                s == 0,
        ;
    }
}

/// The whole number nearest to a ratio is at most one half away from it.
proof fn lemma_nearest_whole(n: nat, d: nat)
    requires
        d > 0,
    ensures
        2 * (rounding::round_half_even(n, d) * d - n) <= d,
        2 * (n - rounding::round_half_even(n, d) * d) <= d,
{
    let q = n as int / d as int;
    lemma_fundamental_div_mod(n as int, d as int);
    assert(q * d == d * q && (q + 1) * d == d * q + d) by (nonlinear_arith);
}

/// A span of less than `10^5` seconds times a factor from one to two: off by at most nine
/// sixteenths of a nanosecond, one half of which is the rounding to whole nanoseconds.
proof fn lemma_scaled(d: Duration, g: F64)
    requires
        d.nanos < 100_000_000_000_000,
        !g.negative(),
        g.pattern() < rounding::INFINITY,
        F64::units_per_one() <= g.size() <= 2 * F64::units_per_one(),
    ensures
        d.scales_by(g),
        16 * (d.scaled(g) * F64::units_per_one() - d.nanos * g.size()) <= 9
            * F64::units_per_one(),
        16 * (d.nanos * g.size() - d.scaled(g) * F64::units_per_one()) <= 9
            * F64::units_per_one(),
{
    let u = F64::units_per_one();
    let v = d.seconds();
    let p = g.product(v);
    let gs = g.size();
    let vs = v.size();
    let ps = p.size();
    let n = gs * vs;
    let most = F64::of_nat(0x4_0000);
    let nanos = d.nanos as nat;
    lemma_many_units();
    lemma_seconds(d);
    nearest::lemma_of_nat_exact(0x4_0000);
    nearest::lemma_product_parts(g, v);
    assert(n <= u * (0x4_0000 * u)) by (nonlinear_arith)
        requires
            n == gs * vs,
            gs <= 2 * u,
            vs <= 0x2_0000 * u,
    ;
    nearest::lemma_product_at_most(g, v, most);
    nearest::lemma_whole(p, u64::MAX as nat);
    assert(ps / u <= u64::MAX) by {
        lemma_div_is_ordered(ps as int, (0x4_0000 * u) as int, u as int);
        lemma_div_multiples_vanish(0x4_0000, u as int);
        assert(u * 0x4_0000 == 0x4_0000 * u) by (nonlinear_arith);
    }
    let t = ps * 1_000_000_000;
    let w = d.scaled(g);
    lemma_nearest_whole(t, u);
    let goal = nanos * gs;
    if nanos == 0 {
        assert(n == 0 && goal == 0) by (nonlinear_arith)
            requires
                n == gs * vs,
                vs == 0,
                goal == nanos * gs,
                nanos == 0,
        ;
        float64::lemma_round_zero(u);
        nearest::lemma_size_order(p, p);
        assert(t == 0);
    } else {
        let nu = nanos * u;
        assert(nu >= u) by (nonlinear_arith)
            requires
                nu == nanos * u,
                nanos >= 1,
        ;
        assert(nu <= 100_000_000_000_000 * u) by (nonlinear_arith)
            requires
                nu == nanos * u,
                nanos <= 100_000_000_000_000,
        ;
        assert(vs >= 0x10_0000_0000_0000);
        assert(n >= vs * u) by (nonlinear_arith)
            requires
                n == gs * vs,
                gs >= u,
                vs >= 0,
        ;
        lemma_div_is_ordered((vs * u) as int, n as int, u as int);
        lemma_div_multiples_vanish(vs as int, u as int);
        assert(u * vs == vs * u) by (nonlinear_arith);
        nearest::lemma_round_error(n, u);
        assert(ps == rounding::magnitude(p.pattern())) by {
            reveal(F64::size);
        }
        let up = u * ps;
        // The last product is off by at most one part in 2^53, and the seconds by at most
        // one part in 64 of a unit of nanoseconds.
        let off = 1_000_000_000 * vs - nu;
        assert(gs * off == 1_000_000_000 * n - gs * nu) by (nonlinear_arith)
            requires
                off == 1_000_000_000 * vs - nu,
                n == gs * vs,
        ;
        let gu = gs * u;
        assert(64 * (gs * off) <= gu && -gu <= 64 * (gs * off)) by (nonlinear_arith)
            requires
                gu == gs * u,
                64 * off <= u,
                -(u as int) <= 64 * off,
                gs >= 0,
        ;
        assert(1_000_000_000 * n <= 100_000_000_000_001 * gu) by (nonlinear_arith)
            requires
                gu == gs * u,
                n == gs * vs,
                1_000_000_000 * vs <= 100_000_000_000_001 * u,
                gs >= 0,
        ;
        assert(gu <= 2 * (u * u)) by (nonlinear_arith)
            requires
                gu == gs * u,
                gs <= 2 * u,
        ;
        assert(gs * nu == goal * u) by (nonlinear_arith)
            requires
                nu == nanos * u,
                goal == nanos * gs,
        ;
        assert(1_000_000_000 * up == t * u) by (nonlinear_arith)
            requires
                up == u * ps,
                t == ps * 1_000_000_000,
        ;
        assert(16 * (t * u - goal * u) <= u * u && 16 * (goal * u - t * u) <= u * u);
        assert(16 * (t - goal) <= u && 16 * (goal - t) <= u) by (nonlinear_arith)
            requires
                16 * (t * u - goal * u) <= u * u,
                16 * (goal * u - t * u) <= u * u,
                u > 0,
        ;
    }
}

/// Twice a round trip of less than `10^5` seconds is exact.
pub proof fn law_two_round_trips_are_exact(d: Duration)
    requires
        d.nanos < 100_000_000_000_000,
    ensures
        d.scales_by((F64 { bits: state::ISOLATED_LOSS_GAP })),
        d.scaled((F64 { bits: state::ISOLATED_LOSS_GAP })) == 2 * d.nanos,
{
    let u = F64::units_per_one();
    let g = F64 { bits: state::ISOLATED_LOSS_GAP };
    let w = d.scaled(g);
    lemma2_to64_rest();
    lemma_many_units();
    volume_laws::lemma_constant(g.bits, 0x10_0000_0000_0000, 1023, 0x8_0000_0000_0000);
    lemma_scaled(d, g);
    assert(d.nanos * g.size() == (2 * d.nanos) * u) by (nonlinear_arith)
        requires
            g.size() == 2 * u,
    ;
    let x = 2 * d.nanos;
    assert(w == x) by (nonlinear_arith)
        requires
            16 * (w * u - x * u) <= 9 * u,
            16 * (x * u - w * u) <= 9 * u,
            u > 0,
    ;
}

/// The limit on a round trip of less than `10^5` seconds lies 30% above it, to the nearest
/// nanosecond.
pub proof fn law_inflation_limit_is_thirty_percent(d: Duration)
    requires
        d.nanos < 100_000_000_000_000,
    ensures
        d.scales_by((F64 { bits: state::RTT_INFLATION_LIMIT })),
        10 * d.scaled((F64 { bits: state::RTT_INFLATION_LIMIT })) <= 13 * d.nanos + 5,
        13 * d.nanos <= 10 * d.scaled((F64 { bits: state::RTT_INFLATION_LIMIT })) + 5,
{
    let u = F64::units_per_one();
    let v = pow2(1022);
    let g = F64 { bits: state::RTT_INFLATION_LIMIT };
    let w = d.scaled(g);
    let nanos = d.nanos as nat;
    lemma2_to64_rest();
    lemma_many_units();
    volume_laws::lemma_constant(g.bits, 0x14_CCCC_CCCC_CCCD, 1022, 0x10_0000_0000_0000);
    lemma_scaled(d, g);
    assert(10 * g.size() == 13 * u + 2 * v);
    let goal = nanos * g.size();
    assert(10 * goal == 13 * (nanos * u) + 2 * (nanos * v)) by (nonlinear_arith)
        requires
            goal == nanos * g.size(),
            10 * g.size() == 13 * u + 2 * v,
    ;
    assert(0 <= 40 * (nanos * v) <= u) by (nonlinear_arith)
        requires
            u == 0x10_0000_0000_0000 * v,
            nanos < 100_000_000_000_000,
            v > 0,
    ;
    let diff = 10 * w - 13 * nanos;
    assert(diff * u == 10 * (w * u) - 13 * (nanos * u)) by (nonlinear_arith)
        requires
            diff == 10 * w - 13 * nanos,
    ;
    assert(-5 <= diff <= 5) by (nonlinear_arith)
        requires
            20 * (diff * u) <= 115 * u,
            -115 * u <= 20 * (diff * u),
            u > 0,
    ;
}

/// On a path with a minimum round trip of less than `10^5` seconds, a loss stands alone
/// exactly where it comes more than two minimum round trips after the last.
pub proof fn law_isolated_loss_is_two_round_trips_apart(r: Congestion, last: Instant, now: Instant)
    requires
        r.bbr3_state.last_loss_time == Some(last),
        r.bbr3_state.min_rtt.nanos < 100_000_000_000_000,
    ensures
        r.loss_gap_defined(),
        r.loss_isolated(now) <==> now.since(last) > 2 * r.bbr3_state.min_rtt.nanos,
{
    law_two_round_trips_are_exact(r.bbr3_state.min_rtt);
}

/// On a path with a minimum round trip of less than `10^5` seconds, a raised threshold
/// holds while the latest round trip is at most 30% above the minimum, and gives way to
/// the default one where it is more than that, to within half a nanosecond.
pub proof fn law_raised_threshold_needs_stable_round_trip(r: Congestion)
    requires
        r.bbr3_state.min_rtt.nanos < 100_000_000_000_000,
        r.delivery_rate.sample.rtt.nanos > 0,
        r.configured_loss_threshold().exceeds((F64 { bits: state::LOSS_THRESH })),
    ensures
        r.loss_threshold_defined(),
        10 * r.delivery_rate.sample.rtt.nanos <= 13 * r.bbr3_state.min_rtt.nanos - 5
            ==> r.loss_threshold() == r.configured_loss_threshold(),
        10 * r.delivery_rate.sample.rtt.nanos > 13 * r.bbr3_state.min_rtt.nanos + 5
            ==> r.loss_threshold().bits == state::LOSS_THRESH,
{
    law_inflation_limit_is_thirty_percent(r.bbr3_state.min_rtt);
}

}
