//! What the scaling of volumes and rates by real factors amounts to.

use vstd::arithmetic::power2::*;
use vstd::prelude::*;

use crate::congestion::Congestion;
use crate::controller;
use crate::float64::F64;
use crate::float64;
use crate::nearest;
use crate::per_loss;
use crate::rounding;
use crate::state::State;
use crate::state;
use crate::time::Duration;

verus! {

/// A number of `s` steps of `2^e` units, where one has `t` such steps.
pub(crate) proof fn lemma_constant(bits: u64, s: nat, e: nat, t: nat)
    requires
        bits < rounding::INFINITY,
        s == rounding::significand(bits as nat),
        e == rounding::exponent(bits as nat),
        e <= 1074,
        t == pow2((1074 - e) as nat),
    ensures
        !(F64 { bits }).negative(),
        (F64 { bits }).pattern() == bits,
        (F64 { bits }).size() == s * pow2(e),
        F64::units_per_one() == t * pow2(e),
        pow2(e) > 0,
{
    reveal(F64::size);
    lemma_pow2_adds((1074 - e) as nat, e);
    lemma_pow2_pos(e);
}

/// The factor for a round with loss takes away at least one part in 128.
proof fn lemma_beta()
    ensures
        !(F64 { bits: state::BETA }).negative(),
        (F64 { bits: state::BETA }).pattern() < rounding::INFINITY,
        10 * (F64 { bits: state::BETA }).size() <= 7 * F64::units_per_one(),
        7 * F64::units_per_one() - 10 * (F64 { bits: state::BETA }).size() <= 4 * pow2(1021),
        F64::units_per_one() == 0x20_0000_0000_0000 * pow2(1021),
        128 * (F64 { bits: state::BETA }).size() <= 127 * F64::units_per_one(),
{
    lemma2_to64_rest();
    lemma_constant(state::BETA, 0x16_6666_6666_6666, 1021, 0x20_0000_0000_0000);
}

/// Loss never raises a short-term bound beyond what was delivered in the round, and never
/// lowers it below that.
pub proof fn law_loss_lowers_short_term_bounds(r: Congestion)
    requires
        !r.probing_bw(),
        r.bbr3_state.flags.loss_in_round,
    ensures
        ({
            let before = r.lower_bounds_initialized().bbr3_state;
            let after = r.lower_bounds_adapted().bbr3_state;
            &&& after.bw_lo >= r.bbr3_state.bw_latest
            &&& after.inflight_lo >= r.bbr3_state.inflight_latest
            &&& after.bw_lo <= per_loss::larger(
                r.bbr3_state.bw_latest as nat,
                before.bw_lo as nat,
            )
            &&& after.inflight_lo <= per_loss::larger(
                r.bbr3_state.inflight_latest as nat,
                before.inflight_lo as nat,
            )
        }),
{
    let before = r.lower_bounds_initialized().bbr3_state;
    let beta = F64 { bits: state::BETA };
    lemma_beta();
    nearest::lemma_share_of_volume(before.bw_lo as nat, beta, u64::MAX as nat);
    nearest::lemma_share_of_volume(before.inflight_lo as nat, beta, usize::MAX as nat);
}

/// The cap that too much data in flight leads to holds what was in flight, and goes beyond
/// it no further than the window.
pub proof fn law_inflight_cap_is_within_window(r: Congestion)
    ensures
        r.inflight_cap() >= r.bbr3_state.tx_in_flight,
        r.inflight_cap() <= per_loss::larger(
            r.bbr3_state.tx_in_flight as nat,
            r.congestion_window as nat,
        ),
{
    lemma_beta();
    nearest::lemma_share_of_volume(
        r.target_inflight() as nat,
        F64 { bits: state::BETA },
        usize::MAX as nat,
    );
}

/// Below `2^46`, the factor for a round with loss leaves seven tenths, to within one.
pub proof fn law_beta_leaves_seven_tenths(x: nat, max: nat)
    requires
        x < 0x4000_0000_0000,
        x <= max,
    ensures
        ({
            let left = F64::of_nat(x).product((F64 { bits: state::BETA })).whole(max);
            7 * x / 10 <= left + 1 && left <= 7 * x / 10
        }),
{
    let u = F64::units_per_one();
    let v = pow2(1021);
    let beta = F64 { bits: state::BETA };
    let a = F64::of_nat(x);
    let b = beta.size();
    let y = 7 * x / 10;
    lemma_beta();
    lemma_pow2_pos(1074);
    nearest::lemma_of_nat_exact(x);
    assert(a.size() * b == u * (x * b)) by (nonlinear_arith)
        requires
            a.size() == x * u,
    ;
    assert(10 * (x * b) <= (7 * x) * u) by (nonlinear_arith)
        requires
            10 * b <= 7 * u,
            x >= 0,
    ;
    assert((7 * x) * u <= (10 * y + 9) * u) by (nonlinear_arith)
        requires
            7 * x <= 10 * y + 9,
            u > 0,
    ;
    assert((10 * y + 9) * u == 10 * (y * u) + 9 * u) by (nonlinear_arith);
    assert((y + 1) * u == y * u + u) by (nonlinear_arith);
    assert(64 * (u * (x * b)) + u * u <= 64 * (u * ((y + 1) * u))) by (nonlinear_arith)
        requires
            10 * (x * b) <= 10 * (y * u) + 9 * u,
            (y + 1) * u == y * u + u,
            u > 0,
    ;
    nearest::lemma_product_below(a, beta, y + 1);
    nearest::lemma_product_parts(a, beta);
    nearest::lemma_whole(a.product(beta), max);
    if y > 0 {
        let lo = (y - 1) as nat;
        let c = F64::of_nat(lo);
        nearest::lemma_of_nat_exact(lo);
        assert((7 * x) * u - 10 * (x * b) <= (4 * x) * v) by (nonlinear_arith)
            requires
                7 * u - 10 * b <= 4 * v,
                x >= 0,
        ;
        assert((4 * x) * v <= 10 * u) by (nonlinear_arith)
            requires
                u == 0x20_0000_0000_0000 * v,
                x < 0x4000_0000_0000,
                v > 0,
        ;
        assert((7 * x) * u >= 10 * (y * u)) by (nonlinear_arith)
            requires
                7 * x >= 10 * y,
                u > 0,
        ;
        assert(lo * u == y * u - u) by (nonlinear_arith)
            requires
                lo == y - 1,
        ;
        assert(u * (x * b) >= u * (lo * u)) by (nonlinear_arith)
            requires
                x * b >= lo * u,
                u > 0,
        ;
        nearest::lemma_product_at_least(a, beta, c);
        assert(a.product(beta).size() >= lo * u);
    }
}

/// The default threshold tolerates the loss of one fiftieth of what was in flight, as
/// long as that is below `2^46` bytes.
pub proof fn law_default_threshold_is_one_fiftieth(r: Congestion)
    requires
        r.loss_threshold().bits == state::LOSS_THRESH,
        r.bbr3_state.tx_in_flight < 0x4000_0000_0000,
    ensures
        r.tolerated_loss() == r.bbr3_state.tx_in_flight / 50,
{
    let u = F64::units_per_one();
    let v = pow2(1016);
    let thresh = F64 { bits: state::LOSS_THRESH };
    let x = r.bbr3_state.tx_in_flight as nat;
    let max = usize::MAX as nat;
    let a = F64::of_nat(x);
    let b = thresh.size();
    let y = x / 50;
    lemma2_to64_rest();
    lemma_constant(state::LOSS_THRESH, 0x14_7AE1_47AE_147B, 1016, 0x400_0000_0000_0000);
    lemma_pow2_pos(1074);
    nearest::lemma_of_nat_exact(x);
    assert(50 * b == u + 6 * v);
    assert(a.size() * b == u * (x * b)) by (nonlinear_arith)
        requires
            a.size() == x * u,
    ;
    assert(50 * (x * b) == x * u + 6 * (x * v)) by (nonlinear_arith)
        requires
            50 * b == u + 6 * v,
    ;
    assert(x * v >= 0) by (nonlinear_arith)
        requires
            x >= 0,
            v > 0,
    ;
    assert(600 * (x * v) <= u) by (nonlinear_arith)
        requires
            u == 0x400_0000_0000_0000 * v,
            x < 0x4000_0000_0000,
            v > 0,
    ;
    assert(50 * (y * u) <= x * u <= 50 * (y * u) + 49 * u) by (nonlinear_arith)
        requires
            50 * y <= x <= 50 * y + 49,
            u > 0,
    ;
    assert((y + 1) * u == y * u + u) by (nonlinear_arith);
    assert(64 * (u * (x * b)) + u * u <= 64 * (u * ((y + 1) * u))) by (nonlinear_arith)
        requires
            64 * (x * b) + u <= 64 * ((y + 1) * u),
            u > 0,
    ;
    nearest::lemma_product_below(a, thresh, y + 1);
    let c = F64::of_nat(y);
    nearest::lemma_of_nat_exact(y);
    assert(u * (x * b) >= u * (y * u)) by (nonlinear_arith)
        requires
            x * b >= y * u,
            u > 0,
    ;
    nearest::lemma_product_at_least(a, thresh, c);
    nearest::lemma_whole(a.product(thresh), max);
    assert(a.product(thresh).size() >= y * u);
}

/// A share of a volume below `2^46` is the exact share without its fraction, but for what
/// rounding adds to a fraction of more than 63/64.
pub proof fn law_share_of_volume_is_exact(x: nat, share: F64, max: nat)
    requires
        x < 0x4000_0000_0000,
        x <= max,
        !share.negative(),
        !share.is_nan(),
        share.size() <= F64::units_per_one(),
    ensures
        ({
            let u = F64::units_per_one();
            let left = F64::of_nat(x).product(share).whole(max);
            &&& x * share.size() < (left + 1) * u
            &&& 64 * (left * u) <= 64 * (x * share.size()) + u
        }),
{
    let u = F64::units_per_one();
    let a = F64::of_nat(x);
    let b = share.size();
    let n = x * b;
    let p = a.product(share);
    let left = p.whole(max);
    lemma_pow2_pos(1074);
    nearest::lemma_of_nat_exact(x);
    crate::ecn_laws::lemma_unit_range_finite(share);
    nearest::lemma_product_parts(a, share);
    nearest::lemma_whole(p, max);
    assert(a.size() * b == u * n) by (nonlinear_arith)
        requires
            a.size() == x * u,
            n == x * b,
    ;
    assert(n <= x * u) by (nonlinear_arith)
        requires
            n == x * b,
            b <= u,
            x >= 0,
    ;
    if n >= (left + 1) * u {
        let lo = left + 1;
        assert(lo <= x) by (nonlinear_arith)
            requires
                lo * u <= x * u,
                u > 0,
        ;
        let c = F64::of_nat(lo);
        nearest::lemma_of_nat_exact(lo);
        assert(u * n >= u * (lo * u)) by (nonlinear_arith)
            requires
                n >= lo * u,
                u > 0,
        ;
        nearest::lemma_product_at_least(a, share, c);
        assert(p.size() >= lo * u);
    }
    if 64 * (left * u) > 64 * n + u {
        assert(left > 0) by (nonlinear_arith)
            requires
                64 * (left * u) > 64 * n + u,
                n >= 0,
                u > 0,
                left >= 0,
        ;
        assert(left <= x) by {
            // The product is at most the volume.
            assert(u * n <= u * (x * u)) by (nonlinear_arith)
                requires
                    n <= x * u,
                    u > 0,
            ;
            nearest::lemma_product_at_most(a, share, a);
            assert((x + 1) * u == x * u + u) by (nonlinear_arith);
            assert(p.size() < (x + 1) * u);
        }
        assert(64 * (u * n) + u * u <= 64 * (u * (left * u))) by (nonlinear_arith)
            requires
                64 * n + u <= 64 * (left * u),
                u > 0,
        ;
        nearest::lemma_product_below(a, share, left);
        let hi = (left - 1) as nat;
        assert(p.size() < (hi + 1) * u);
    }
}

/// Whether too much is in flight, by the exact share: a loss of at most the threshold's share
/// of what was in flight is tolerated, and one of more than that by a sixty-fourth of a byte
/// is not.
pub proof fn law_exact_share_decides(r: Congestion)
    requires
        !r.loss_threshold().negative(),
        !r.loss_threshold().is_nan(),
        r.loss_threshold().size() <= F64::units_per_one(),
        r.bbr3_state.tx_in_flight < 0x4000_0000_0000,
    ensures
        ({
            let u = F64::units_per_one();
            let share = r.bbr3_state.tx_in_flight * r.loss_threshold().size();
            &&& r.bbr3_state.lost * u <= share ==> !r.inflight_too_high()
            &&& 64 * (r.bbr3_state.lost * u) > 64 * share + u ==> r.inflight_too_high()
        }),
{
    let u = F64::units_per_one();
    let lost = r.bbr3_state.lost as nat;
    let tolerated = r.tolerated_loss();
    lemma_pow2_pos(1074);
    law_share_of_volume_is_exact(
        r.bbr3_state.tx_in_flight as nat,
        r.loss_threshold(),
        usize::MAX as nat,
    );
    if lost > tolerated {
        assert(lost * u >= (tolerated + 1) * u) by (nonlinear_arith)
            requires
                lost >= tolerated + 1,
                u > 0,
        ;
    } else {
        assert(lost * u <= tolerated * u) by (nonlinear_arith)
            requires
                lost <= tolerated,
                u > 0,
        ;
    }
}

/// A larger factor leaves no smaller volume.
proof fn lemma_larger_factor(x: nat, a: F64, b: F64, max: nat)
    requires
        x <= max <= u64::MAX,
        !a.is_nan(),
        !b.is_nan(),
        !a.exceeds(b),
    ensures
        F64::of_nat(x).product(a).whole(max) <= F64::of_nat(x).product(b).whole(max),
{
    let u = F64::units_per_one();
    let v = F64::of_nat(x);
    let (p, q) = (v.product(a), v.product(b));
    lemma_pow2_pos(1074);
    nearest::lemma_of_nat(x, x);
    nearest::lemma_size_order(a, b);
    nearest::lemma_size_order(v, v);
    nearest::lemma_size_order(b, a);
    assert(p.whole(max) <= max && q.whole(max) <= max) by {
        reveal(F64::whole);
    }
    if a.negative() || a.pattern() == 0 || v.pattern() == 0 {
        assert(p.whole(max) == 0) by {
            reveal(F64::product);
            reveal(F64::whole);
            nearest::lemma_rounded(v.negative() != a.negative(), v.size() * a.size(), u);
            assert(v.size() == 0 || a.size() == 0 ==> v.size() * a.size() == 0)
                by (nonlinear_arith);
            float64::lemma_round_zero(u);
            float64::lemma_magnitude_zero(0);
            vstd::arithmetic::div_mod::lemma_basic_div(0, u as int);
        }
    } else if b.is_infinite() {
        assert(q.whole(max) == max) by {
            reveal(F64::product);
            reveal(F64::whole);
            if q.size() / u <= u64::MAX {
                float64::lemma_seconds_finite(q);
            }
        }
    } else {
        assert(v.size() * a.size() <= v.size() * b.size()) by (nonlinear_arith)
            requires
                a.size() <= b.size(),
                v.size() >= 0,
        ;
        nearest::lemma_product_parts(v, a);
        nearest::lemma_product_parts(v, b);
        nearest::lemma_round_monotone(v.size() * a.size(), v.size() * b.size(), u);
        nearest::lemma_size_order(q, p);
        reveal(F64::whole);
        vstd::arithmetic::div_mod::lemma_div_is_ordered(p.size() as int, q.size() as int, u as int);
    }
}

/// A larger volume leaves no smaller one.
proof fn lemma_larger_volume(x: nat, y: nat, f: F64, max: nat)
    requires
        x <= y <= max <= u64::MAX,
    ensures
        F64::of_nat(x).product(f).whole(max) <= F64::of_nat(y).product(f).whole(max),
{
    let u = F64::units_per_one();
    let (v, w) = (F64::of_nat(x), F64::of_nat(y));
    let (p, q) = (v.product(f), w.product(f));
    lemma_pow2_pos(1074);
    nearest::lemma_of_nat(x, y);
    nearest::lemma_size_order(v, w);
    nearest::lemma_size_order(f, f);
    if f.is_nan() || f.negative() || f.pattern() == 0 || v.pattern() == 0 {
        assert(p.whole(max) == 0) by {
            reveal(F64::product);
            reveal(F64::whole);
            nearest::lemma_rounded(v.negative() != f.negative(), v.size() * f.size(), u);
            assert(v.size() == 0 || f.size() == 0 ==> v.size() * f.size() == 0)
                by (nonlinear_arith);
            float64::lemma_round_zero(u);
            float64::lemma_magnitude_zero(0);
            vstd::arithmetic::div_mod::lemma_basic_div(0, u as int);
        }
    } else if f.is_infinite() {
        assert(p == q) by {
            reveal(F64::product);
        }
    } else {
        assert(v.size() * f.size() <= w.size() * f.size()) by (nonlinear_arith)
            requires
                v.size() <= w.size(),
                f.size() >= 0,
        ;
        nearest::lemma_product_parts(v, f);
        nearest::lemma_product_parts(w, f);
        nearest::lemma_round_monotone(v.size() * f.size(), w.size() * f.size(), u);
        nearest::lemma_size_order(q, p);
        reveal(F64::whole);
        vstd::arithmetic::div_mod::lemma_div_is_ordered(p.size() as int, q.size() as int, u as int);
    }
}

/// Where inflight is too high, the same loss of less in flight leaves it too high.
pub proof fn law_less_inflight_stays_too_high(r: Congestion, tx_in_flight: usize)
    requires
        r.inflight_too_high(),
        tx_in_flight <= r.bbr3_state.tx_in_flight,
    ensures
        r.with_state((State { tx_in_flight, ..r.bbr3_state })).inflight_too_high(),
{
    let less = r.with_state(State { tx_in_flight, ..r.bbr3_state });
    assert(less.loss_threshold() == r.loss_threshold());
    lemma_larger_volume(
        tx_in_flight as nat,
        r.bbr3_state.tx_in_flight as nat,
        r.loss_threshold(),
        usize::MAX as nat,
    );
}

/// A higher configured threshold tolerates no less loss on the same path.
pub proof fn law_higher_threshold_tolerates_more(r: Congestion, a: F64, b: F64)
    requires
        !a.is_nan(),
        !b.is_nan(),
        !a.exceeds(b),
    ensures
        (Congestion { satellite_loss_threshold: Some(a), ..r }).tolerated_loss()
            <= (Congestion { satellite_loss_threshold: Some(b), ..r }).tolerated_loss(),
{
    let lower = Congestion { satellite_loss_threshold: Some(a), ..r };
    let higher = Congestion { satellite_loss_threshold: Some(b), ..r };
    assert(!lower.loss_threshold().exceeds(higher.loss_threshold()));
    lemma_larger_factor(
        r.bbr3_state.tx_in_flight as nat,
        lower.loss_threshold(),
        higher.loss_threshold(),
        usize::MAX as nat,
    );
}

/// The ratio that rho is taken from.
proof fn lemma_rho_ratio(nanos: nat)
    requires
        nanos <= u128::MAX,
    ensures
        ({
            let ratio = F64::of_nat(nanos).quotient(F64::of_nat(state::REFERENCE_RTT as nat));
            &&& !ratio.negative()
            &&& !ratio.is_nan()
            &&& ratio.pattern() == rounding::round_pattern(
                F64::of_nat(nanos).size() * F64::units_per_one(),
                25_000_000 * F64::units_per_one(),
            )
            &&& F64::units_per_one() > 0
            &&& (F64 { bits: float64::ONE }).size() == F64::units_per_one()
        }),
{
    let u = F64::units_per_one();
    let m = F64::of_nat(nanos);
    let reference = F64::of_nat(25_000_000);
    lemma2_to64_rest();
    lemma_constant(float64::ONE, 0x10_0000_0000_0000, 1022, 0x10_0000_0000_0000);
    lemma_pow2_pos(1074);
    nearest::lemma_of_nat(nanos, nanos);
    nearest::lemma_of_nat_exact(25_000_000);
    nearest::lemma_size_order(reference, reference);
    reveal(F64::quotient);
    nearest::lemma_rounded(false, m.size() * u, 25_000_000 * u);
}

/// The factor of a path is never below one, and is one exactly where the round trip
/// takes no more than 25 milliseconds.
pub proof fn law_rho_is_one_on_short_paths(min_rtt: Duration)
    ensures
        !controller::rho(min_rtt).negative(),
        !controller::rho(min_rtt).is_nan(),
        controller::rho(min_rtt).size() >= F64::units_per_one(),
        controller::rho(min_rtt).bits == float64::ONE <==> min_rtt.nanos <= 25_000_000,
{
    let u = F64::units_per_one();
    let nanos = min_rtt.nanos as nat;
    let m = F64::of_nat(nanos);
    let one = F64 { bits: float64::ONE };
    let ratio = m.quotient(F64::of_nat(state::REFERENCE_RTT as nat));
    lemma_rho_ratio(nanos);
    nearest::lemma_size_order(one, ratio);
    nearest::lemma_size_order(ratio, one);
    let n = m.size() * u;
    let d = 25_000_000 * u;
    if nanos <= 25_000_000 {
        nearest::lemma_of_nat(nanos, 25_000_000);
        nearest::lemma_of_nat_exact(25_000_000);
        assert(n <= d * u) by (nonlinear_arith)
            requires
                n == m.size() * u,
                m.size() <= 25_000_000 * u,
                d == 25_000_000 * u,
                u > 0,
        ;
        assert(one.size() == rounding::magnitude(one.pattern())) by {
            reveal(F64::size);
        }
        nearest::lemma_round_at_most(n, d, one.pattern());
    } else {
        let next = (one.pattern() + 1) as nat;
        let step = pow2(1022);
        nearest::lemma_of_nat(25_000_001, nanos);
        nearest::lemma_of_nat_exact(25_000_001);
        lemma2_to64_rest();
        lemma_constant(float64::ONE, 0x10_0000_0000_0000, 1022, 0x10_0000_0000_0000);
        float64::lemma_magnitude_step(one.pattern());
        assert(rounding::magnitude(next) == u + step) by {
            reveal(F64::size);
        }
        assert(n >= d * (u + step)) by (nonlinear_arith)
            requires
                n == m.size() * u,
                m.size() >= 25_000_001 * u,
                d == 25_000_000 * u,
                25_000_000 * step <= u,
                u > 0,
        ;
        nearest::lemma_round_at_least(n, d, next);
    }
}

/// The factor of a path longer than 25 milliseconds is the round trip over that, to within
/// one part in `2^53`, for round trips of less than `2^53` nanoseconds.
pub proof fn law_rho_is_round_trip_over_reference(min_rtt: Duration)
    requires
        25_000_000 <= min_rtt.nanos < 0x20_0000_0000_0000,
    ensures
        ({
            let exact = min_rtt.nanos * F64::units_per_one();
            let rho = controller::rho(min_rtt).size();
            &&& 0x20_0000_0000_0000 * (25_000_000 * rho - exact) <= exact
            &&& 0x20_0000_0000_0000 * (exact - 25_000_000 * rho) <= exact
        }),
{
    let u = F64::units_per_one();
    let nanos = min_rtt.nanos as nat;
    let m = F64::of_nat(nanos);
    let one = F64 { bits: float64::ONE };
    let ratio = m.quotient(F64::of_nat(state::REFERENCE_RTT as nat));
    let nu = nanos * u;
    let n = nu * u;
    let d = 25_000_000 * u;
    lemma_rho_ratio(nanos);
    nearest::lemma_of_nat_exact(nanos);
    assert(ratio.size() == rounding::magnitude(ratio.pattern()) && one.size()
        == rounding::magnitude(one.pattern())) by {
        reveal(F64::size);
    }
    assert(n >= d * u) by (nonlinear_arith)
        requires
            n == nu * u,
            nu == nanos * u,
            d == 25_000_000 * u,
            nanos >= 25_000_000,
            u > 0,
    ;
    nearest::lemma_round_at_least(n, d, one.pattern());
    nearest::lemma_size_order(one, ratio);
    assert(controller::rho(min_rtt).size() == ratio.size());
    let most = F64::of_nat(0x1F_FFFF_FFFF_FFFF);
    nearest::lemma_of_nat_exact(0x1F_FFFF_FFFF_FFFF);
    assert(most.size() == rounding::magnitude(most.pattern())) by {
        reveal(F64::size);
    }
    assert(n <= d * most.size()) by (nonlinear_arith)
        requires
            n == nu * u,
            nu == nanos * u,
            d == 25_000_000 * u,
            most.size() == (0x1F_FFFF_FFFF_FFFF) * u,
            nanos < 0x20_0000_0000_0000,
            u > 0,
    ;
    nearest::lemma_round_at_most(n, d, most.pattern());
    lemma2_to64_rest();
    lemma_pow2_strictly_increases(53, 1074);
    vstd::arithmetic::div_mod::lemma_div_is_ordered((d * u) as int, n as int, d as int);
    vstd::arithmetic::div_mod::lemma_div_multiples_vanish(u as int, d as int);
    nearest::lemma_round_error(n, d);
    let rho = ratio.size();
    let scaled = 25_000_000 * rho;
    assert(d * rho == scaled * u) by (nonlinear_arith)
        requires
            d == 25_000_000 * u,
            scaled == 25_000_000 * rho,
    ;
    assert(0x20_0000_0000_0000 * (scaled - nu) <= nu) by (nonlinear_arith)
        requires
            0x20_0000_0000_0000 * (scaled * u - nu * u) <= nu * u,
            u > 0,
    ;
    assert(0x20_0000_0000_0000 * (nu - scaled) <= nu) by (nonlinear_arith)
        requires
            0x20_0000_0000_0000 * (nu * u - scaled * u) <= nu * u,
            u > 0,
    ;
}

/// Where a round trip of less than `2^53` nanoseconds is a representable multiple of 25
/// milliseconds, of at least one, that multiple is the factor.
pub proof fn law_rho_is_exact_where_representable(min_rtt: Duration, f: F64)
    requires
        min_rtt.nanos < 0x20_0000_0000_0000,
        !f.negative(),
        f.pattern() < rounding::INFINITY,
        f.size() >= F64::units_per_one(),
        min_rtt.nanos * F64::units_per_one() == 25_000_000 * f.size(),
    ensures
        controller::rho(min_rtt) == f,
{
    let u = F64::units_per_one();
    let nanos = min_rtt.nanos as nat;
    let m = F64::of_nat(nanos);
    let one = F64 { bits: float64::ONE };
    let ratio = m.quotient(F64::of_nat(state::REFERENCE_RTT as nat));
    let d = 25_000_000 * u;
    lemma_rho_ratio(nanos);
    nearest::lemma_of_nat_exact(nanos);
    assert(m.size() * u == d * f.size()) by (nonlinear_arith)
        requires
            m.size() == nanos * u,
            nanos * u == 25_000_000 * f.size(),
            d == 25_000_000 * u,
    ;
    assert(f.size() == rounding::magnitude(f.pattern())) by {
        reveal(F64::size);
    }
    nearest::lemma_round_representable(d, f.pattern());
    assert(ratio == f);
    nearest::lemma_size_order(one, f);
}

/// A longer path has no smaller factor.
pub proof fn law_rho_grows_with_round_trip(shorter: Duration, longer: Duration)
    requires
        shorter.nanos <= longer.nanos,
    ensures
        controller::rho(shorter).size() <= controller::rho(longer).size(),
{
    let u = F64::units_per_one();
    let reference = F64::of_nat(state::REFERENCE_RTT as nat);
    let a = shorter.nanos as nat;
    let b = longer.nanos as nat;
    let (p, q) = (F64::of_nat(a).quotient(reference), F64::of_nat(b).quotient(reference));
    lemma_rho_ratio(a);
    lemma_rho_ratio(b);
    nearest::lemma_of_nat(a, b);
    let (s, t) = (F64::of_nat(a).size(), F64::of_nat(b).size());
    assert(s * u <= t * u) by (nonlinear_arith)
        requires
            s <= t,
            u > 0,
    ;
    nearest::lemma_round_monotone(s * u, t * u, 25_000_000 * u);
    nearest::lemma_size_order(q, p);
}

}
