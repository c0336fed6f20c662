//! What the volume at which a loss met the threshold amounts to.

use vstd::arithmetic::div_mod::*;
use vstd::arithmetic::power2::*;
use vstd::prelude::*;

use crate::congestion::{Congestion, Sent};
use crate::ecn_laws;
use crate::float64::F64;
use crate::float64;
use crate::nearest;
use crate::rounding;
use crate::rules;
use crate::state::{BBR3StateMachine, State};
use crate::state;
use crate::time::Instant;
use crate::volume_laws;

verus! {

/// Rounding moves a whole number of units below `2^47` by at most one part in `2^53`.
proof fn lemma_rounding_moves_little(n: nat)
    requires
        n <= 0x8000_0000_0000 * F64::units_per_one(),
    ensures
        rounding::round_pattern(n, 1) < rounding::INFINITY,
        0x20_0000_0000_0000 * (rounding::magnitude(rounding::round_pattern(n, 1)) - n) <= n,
        0x20_0000_0000_0000 * (n - rounding::magnitude(rounding::round_pattern(n, 1))) <= n,
{
    let u = F64::units_per_one();
    let most = F64::of_nat(0x8000_0000_0000);
    nearest::lemma_of_nat_exact(0x8000_0000_0000);
    assert(most.size() == rounding::magnitude(most.pattern())) by {
        reveal(F64::size);
    }
    nearest::lemma_round_at_most(n, 1, most.pattern());
    if n >= rounding::HIDDEN_BIT {
        assert(n / 1 == n);
        nearest::lemma_round_error(n, 1);
    } else {
        lemma2_to64();
        assert(n * pow2(0) == n) by (nonlinear_arith)
            requires
                pow2(0) == 1,
        ;
        nearest::lemma_round_representable(1, n);
    }
}

/// Whether a threshold lies below one by so much that the rounding of its share of
/// `volume` bytes stays below half of what it leaves of one byte.
pub open spec fn clear_of_one(thresh: F64, volume: nat) -> bool {
    let u = F64::units_per_one();
    thresh.is_nan() || thresh.negative() || (thresh.size() < u && volume * u
        <= 0x10_0000_0000_0000 * (u - thresh.size()))
}

/// Every threshold of at most 63/64 is clear of one, for volumes of up to `2^46` bytes.
pub proof fn law_threshold_of_at_most_63_64_is_clear_of_one(thresh: F64, volume: nat)
    requires
        thresh.negative() || 64 * thresh.size() <= 63 * F64::units_per_one(),
        volume <= 0x4000_0000_0000,
    ensures
        clear_of_one(thresh, volume),
{
    let u = F64::units_per_one();
    lemma_pow2_pos(1074);
    assert(volume * u <= 0x4000_0000_0000 * u) by (nonlinear_arith)
        requires
            volume <= 0x4000_0000_0000,
            u > 0,
    ;
}

/// The default threshold is clear of one, for volumes of up to `2^46` bytes.
pub proof fn law_default_threshold_is_clear_of_one(volume: nat)
    requires
        volume <= 0x4000_0000_0000,
    ensures
        clear_of_one((F64 { bits: state::LOSS_THRESH }), volume),
{
    lemma2_to64_rest();
    volume_laws::lemma_constant(
        state::LOSS_THRESH,
        0x14_7AE1_47AE_147B,
        1016,
        0x400_0000_0000_0000,
    );
    law_threshold_of_at_most_63_64_is_clear_of_one(F64 { bits: state::LOSS_THRESH }, volume);
}

/// A number below one stays clear of it by a step of its own.
proof fn lemma_below_one(f: F64)
    requires
        f.size() < F64::units_per_one(),
    ensures
        f.size() + 4 * rounding::HIDDEN_BIT <= F64::units_per_one(),
{
    let one = F64 { bits: float64::ONE };
    let below = (float64::ONE - 1) as nat;
    lemma2_to64_rest();
    volume_laws::lemma_constant(float64::ONE, 0x10_0000_0000_0000, 1022, 0x10_0000_0000_0000);
    nearest::lemma_size_order(f, one);
    reveal(F64::size);
    float64::lemma_magnitude_step(below);
    float64::lemma_magnitude_compare(below, f.pattern());
    lemma_pow2_strictly_increases(54, rounding::exponent(below));
}

/// Where more was lost than is tolerated, the exact share of loss was exceeded.
proof fn lemma_share_exceeded(tx: nat, lost: nat, thresh: F64, max: nat)
    requires
        !thresh.negative(),
        !thresh.is_nan(),
        thresh.size() < F64::units_per_one(),
        tx < 0x4000_0000_0000,
        lost < 0x4000_0000_0000,
        lost <= max,
        lost > F64::of_nat(tx).product(thresh).whole(max),
    ensures
        tx * thresh.size() < lost * F64::units_per_one(),
{
    let u = F64::units_per_one();
    let t = thresh.size();
    let a = F64::of_nat(tx);
    let c = F64::of_nat(lost);
    lemma_pow2_pos(1074);
    nearest::lemma_of_nat_exact(tx);
    nearest::lemma_of_nat_exact(lost);
    ecn_laws::lemma_unit_range_finite(thresh);
    if tx * t >= lost * u {
        assert(a.size() * t >= u * c.size()) by (nonlinear_arith)
            requires
                a.size() == tx * u,
                c.size() == lost * u,
                tx * t >= lost * u,
                u > 0,
        ;
        nearest::lemma_product_at_least(a, thresh, c);
        nearest::lemma_whole(a.product(thresh), max);
        assert(a.product(thresh).size() >= lost * u);
    }
}

/// The loss that the threshold tolerates of what was in flight, less what was lost, where
/// that is at most what it leaves of `size` bytes.
proof fn lemma_tolerated_less_lost(inflight: nat, lost: nat, size: nat, thresh: F64)
    requires
        !thresh.negative(),
        !thresh.is_nan(),
        thresh.size() < F64::units_per_one(),
        clear_of_one(thresh, inflight),
        inflight < 0x4000_0000_0000,
        lost < 0x4000_0000_0000,
        size < 0x4000_0000_0000,
        inflight * thresh.size() - lost * F64::units_per_one() <= size * (F64::units_per_one()
            - thresh.size()),
    ensures
        ({
            let s = F64::units_per_one() - thresh.size();
            let rest = thresh.product(F64::of_nat(inflight)).difference(F64::of_nat(lost));
            let gap = inflight * thresh.size() - lost * F64::units_per_one();
            let slack = inflight * F64::units_per_one();
            &&& rest.pattern() < rounding::INFINITY
            &&& !rest.negative() && rest.size() > 0 ==> {
                &&& 128 * rest.size() <= 128 * (size * s) + 65 * s
                &&& 0x20_0000_0000_0000 * (32 * (rest.size() - gap) - s) <= 32 * slack
                &&& 0x20_0000_0000_0000 * (32 * (gap - rest.size()) - s) <= 32 * slack
            }
            &&& rest.negative() || rest.size() == 0 ==> 0x20_0000_0000_0000 * gap <= slack
        }),
{
    let u = F64::units_per_one();
    let t = thresh.size();
    let s = u - t;
    let a = F64::of_nat(inflight);
    let b = F64::of_nat(lost);
    let p = thresh.product(a);
    let rest = p.difference(b);
    let n = inflight * t;
    lemma_pow2_pos(1074);
    nearest::lemma_of_nat_exact(inflight);
    nearest::lemma_of_nat_exact(lost);
    ecn_laws::lemma_unit_range_finite(thresh);
    nearest::lemma_product_parts(thresh, a);
    assert(t * a.size() == u * n) by (nonlinear_arith)
        requires
            a.size() == inflight * u,
            n == inflight * t,
    ;
    // The product is a whole number of units before it is rounded.
    nearest::lemma_round_scales(n, u);
    assert(n <= inflight * u) by (nonlinear_arith)
        requires
            n == inflight * t,
            t <= u,
            inflight >= 0,
    ;
    assert(inflight * u <= 0x4000_0000_0000 * u) by (nonlinear_arith)
        requires
            inflight <= 0x4000_0000_0000,
            u > 0,
    ;
    lemma_rounding_moves_little(n);
    assert(p.size() == rounding::magnitude(p.pattern())) by {
        reveal(F64::size);
    }
    assert(b.opposite().pattern() == b.pattern() && b.opposite().negative());
    assert(b.opposite().size() == b.size()) by {
        reveal(F64::size);
    }
    assert(lost * u <= 0x4000_0000_0000 * u) by (nonlinear_arith)
        requires
            lost <= 0x4000_0000_0000,
            u > 0,
    ;
    let m = p.size() - b.size();
    let zs = size * s;
    assert(zs <= 0x3FFF_FFFF_FFFF * s) by (nonlinear_arith)
        requires
            zs == size * s,
            size <= 0x3FFF_FFFF_FFFF,
            s > 0,
    ;
    assert(2 * m <= 2 * zs + s);
    reveal(F64::sum);
    if m > 0 {
        lemma_rounding_moves_little(m as nat);
        nearest::lemma_rounded(false, m as nat, 1);
    } else if m < 0 {
        lemma_rounding_moves_little((-m) as nat);
        nearest::lemma_rounded(true, (-m) as nat, 1);
    } else {
        nearest::lemma_size_order(rest, rest);
    }
}

/// Dividing by the share that must arrive brings at most the size of the packet.
proof fn lemma_prefix_below(size: nat, rest: F64, thresh: F64)
    requires
        !thresh.negative(),
        !thresh.is_nan(),
        thresh.size() < F64::units_per_one(),
        size < 0x4000_0000_0000,
        rest.pattern() < rounding::INFINITY,
        ({
            let s = F64::units_per_one() - thresh.size();
            !rest.negative() && rest.size() > 0 ==> 128 * rest.size() <= 128 * (size * s) + 65 * s
        }),
    ensures
        rest.quotient((F64 { bits: float64::ONE }).difference(thresh)).whole(usize::MAX as nat)
            <= size,
        !rest.negative() && rest.size() > 0 ==> rest.quotient(
            (F64 { bits: float64::ONE }).difference(thresh),
        ).size() < (size + 1) * F64::units_per_one(),
{
    let u = F64::units_per_one();
    let share = F64 { bits: float64::ONE }.difference(thresh);
    let q = rest.quotient(share);
    let s = (u - thresh.size()) as nat;
    let k = share.size();
    let d = rest.size();
    lemma_pow2_pos(1074);
    ecn_laws::lemma_one_less(thresh);
    ecn_laws::lemma_unit_range_finite(share);
    assert(k == rounding::magnitude(share.pattern())) by {
        reveal(F64::size);
    }
    lemma_below_one(thresh);
    assert(s / 1 == s);
    nearest::lemma_round_error(s, 1);
    assert(k > 0);
    nearest::lemma_size_order(share, share);
    nearest::lemma_size_order(rest, rest);
    if rest.negative() || d == 0 {
        assert(q.whole(usize::MAX as nat) == 0) by {
            reveal(F64::quotient);
            reveal(F64::whole);
            nearest::lemma_rounded(rest.negative(), d * u, k);
            if d == 0 {
                assert(d * u == 0) by (nonlinear_arith)
                    requires
                        d == 0,
                ;
                float64::lemma_round_zero(k);
                float64::lemma_magnitude_zero(0);
                lemma_basic_div(0, u as int);
            }
        }
    } else {
        let hi = size + 1;
        let zs = size * s;
        let zk = size * k;
        assert(0x20_0000_0000_0000 * (zs - zk) <= zs) by (nonlinear_arith)
            requires
                zs == size * s,
                zk == size * k,
                0x20_0000_0000_0000 * (s - k) <= s,
                size >= 0,
        ;
        assert(zs <= 0x4000_0000_0000 * s) by (nonlinear_arith)
            requires
                zs == size * s,
                size <= 0x4000_0000_0000,
                s >= 0,
        ;
        assert(64 * d + k <= 64 * (zk + k));
        assert(64 * (d * u) + k * u <= 64 * (k * (hi * u))) by (nonlinear_arith)
            requires
                64 * d + k <= 64 * (zk + k),
                zk == size * k,
                hi == size + 1,
                u > 0,
        ;
        nearest::lemma_round_below(d * u, k, hi);
        reveal(F64::quotient);
        nearest::lemma_rounded(false, d * u, k);
        nearest::lemma_whole(q, usize::MAX as nat);
        assert(q.size() < (size + 1) * u);
    }
}

/// Dividing by the share that must arrive is exact, but for the fraction and a thirty-second
/// of a byte.
proof fn lemma_prefix_exact(size: nat, rest: F64, thresh: F64)
    requires
        !thresh.negative(),
        !thresh.is_nan(),
        thresh.size() < F64::units_per_one(),
        size < 0x4000_0000_0000,
        size <= usize::MAX,
        rest.pattern() < rounding::INFINITY,
        !rest.negative(),
        rest.size() > 0,
        ({
            let s = F64::units_per_one() - thresh.size();
            128 * rest.size() <= 128 * (size * s) + 65 * s
        }),
    ensures
        ({
            let s = F64::units_per_one() - thresh.size();
            let prefix = rest.quotient((F64 { bits: float64::ONE }).difference(thresh)).whole(
                usize::MAX as nat,
            );
            &&& 32 * (prefix * s - rest.size()) <= s
            &&& 32 * (rest.size() - (prefix + 1) * s) <= s
        }),
{
    let u = F64::units_per_one();
    let one = F64 { bits: float64::ONE };
    let share = one.difference(thresh);
    let q = rest.quotient(share);
    let s = (u - thresh.size()) as nat;
    let k = share.size();
    let d = rest.size();
    let x = q.whole(usize::MAX as nat);
    lemma_pow2_pos(1074);
    lemma_prefix_below(size, rest, thresh);
    ecn_laws::lemma_one_less(thresh);
    ecn_laws::lemma_unit_range_finite(share);
    assert(k == rounding::magnitude(share.pattern())) by {
        reveal(F64::size);
    }
    lemma_below_one(thresh);
    assert(s / 1 == s);
    nearest::lemma_round_error(s, 1);
    nearest::lemma_size_order(share, share);
    nearest::lemma_size_order(rest, rest);
    let n = d * u;
    assert(q.size() == rounding::magnitude(rounding::round_pattern(n, k)) && !q.negative()
        && !q.is_nan() && q.pattern() == rounding::round_pattern(n, k)) by {
        reveal(F64::quotient);
        nearest::lemma_rounded(false, n, k);
    }
    nearest::lemma_whole(q, usize::MAX as nat);
    let zs = size * s;
    assert(zs <= 0x3FFF_FFFF_FFFF * s) by (nonlinear_arith)
        requires
            zs == size * s,
            size <= 0x3FFF_FFFF_FFFF,
    ;
    assert(d <= 0x4000_0000_0000 * s);
    // The quotient lies between its integer part and the next integer.
    let qs = q.size();
    assert(qs < (x + 1) * u) by {
        if qs >= (x + 1) * u {
            assert(x < usize::MAX);
            assert(x >= x + 1);
        }
    }
    assert(x * u <= qs) by {
        reveal(F64::whole);
        let w = qs as int / u as int;
        lemma_fundamental_div_mod(qs as int, u as int);
        lemma_mod_bound(qs as int, u as int);
        assert(x * u <= qs) by (nonlinear_arith)
            requires
                x <= w,
                qs == u * w + qs as int % u as int,
                qs as int % u as int >= 0,
                u > 0,
        ;
    }
    let xs = x * s;
    let xk = x * k;
    assert((x + 1) * s == xs + s && (x + 1) * k == xk + k) by (nonlinear_arith)
        requires
            xs == x * s,
            xk == x * k,
    ;
    assert(0x20_0000_0000_0000 * (xs - xk) <= xs && 0x20_0000_0000_0000 * (xk - xs) <= xs)
        by (nonlinear_arith)
        requires
            xs == x * s,
            xk == x * k,
            0x20_0000_0000_0000 * (s - k) <= s,
            0x20_0000_0000_0000 * (k - s) <= s,
            x >= 0,
    ;
    assert(xs <= zs) by (nonlinear_arith)
        requires
            xs == x * s,
            zs == size * s,
            x <= size,
    ;
    if d >= rounding::HIDDEN_BIT {
        assert(n >= rounding::HIDDEN_BIT * k) by (nonlinear_arith)
            requires
                n == d * u,
                d >= rounding::HIDDEN_BIT,
                k <= u,
                k >= 0,
        ;
        lemma_div_is_ordered((rounding::HIDDEN_BIT * k) as int, n as int, k as int);
        lemma_div_multiples_vanish(rounding::HIDDEN_BIT as int, k as int);
        assert(k * rounding::HIDDEN_BIT == rounding::HIDDEN_BIT * k) by (nonlinear_arith);
        assert(rounding::round_pattern(n, k) < rounding::INFINITY) by {
            let most = F64::of_nat(0x4000_0000_0001);
            nearest::lemma_of_nat_exact(0x4000_0000_0001);
            assert((x + 1) * u <= 0x4000_0000_0001 * u) by (nonlinear_arith)
                requires
                    x + 1 <= 0x4000_0000_0001,
                    u > 0,
            ;
            nearest::lemma_size_order(q, most);
        }
        nearest::lemma_round_error(n, k);
        let kq = k * qs;
        assert(kq <= (xk + k) * u) by (nonlinear_arith)
            requires
                kq == k * qs,
                qs <= (x + 1) * u,
                xk == x * k,
                k >= 0,
        ;
        assert(kq >= xk * u) by (nonlinear_arith)
            requires
                kq == k * qs,
                qs >= x * u,
                xk == x * k,
                k >= 0,
        ;
        assert(0x20_0000_0000_0000 * (xk - d) <= d) by (nonlinear_arith)
            requires
                0x20_0000_0000_0000 * (kq - n) <= n,
                kq >= xk * u,
                n == d * u,
                u > 0,
        ;
        assert(0x20_0000_0000_0000 * (d - (xk + k)) <= d) by (nonlinear_arith)
            requires
                0x20_0000_0000_0000 * (n - kq) <= n,
                kq <= (xk + k) * u,
                n == d * u,
                u > 0,
        ;
    } else {
        // So little is left that the quotient is below one.
        let below = (float64::ONE - 1) as nat;
        lemma2_to64_rest();
        volume_laws::lemma_constant(
            float64::ONE,
            0x10_0000_0000_0000,
            1022,
            0x10_0000_0000_0000,
        );
        assert(2 * rounding::magnitude(below) >= u && rounding::magnitude(below) < u) by {
            reveal(F64::size);
            float64::lemma_magnitude_step(below);
            lemma_pow2_unfold(1022);
            assert(rounding::exponent(below) == 1021);
            lemma_pow2_pos(1021);
        }
        let b = rounding::magnitude(below);
        assert(n <= k * b) by (nonlinear_arith)
            requires
                n == d * u,
                2 * d <= k,
                2 * b >= u,
                d >= 0,
                u > 0,
        ;
        nearest::lemma_round_at_most(n, k, below);
        float64::lemma_magnitude_compare(below, q.pattern());
        assert(x == 0) by (nonlinear_arith)
            requires
                x * u <= qs,
                qs < u,
                x >= 0,
                u > 0,
        ;
        assert(xs == 0) by (nonlinear_arith)
            requires
                xs == x * s,
                x == 0,
        ;
    }
}

/// A threshold that is negative or no number leaves nothing to follow.
proof fn lemma_no_prefix(inflight: nat, lost: nat, thresh: F64)
    requires
        thresh.negative() || thresh.is_nan(),
        inflight <= u64::MAX,
        lost <= u64::MAX,
    ensures
        thresh.product(F64::of_nat(inflight)).difference(F64::of_nat(lost)).quotient(
            (F64 { bits: float64::ONE }).difference(thresh),
        ).whole(usize::MAX as nat) == 0,
{
    let u = F64::units_per_one();
    let one = F64 { bits: float64::ONE };
    let (a, b) = (F64::of_nat(inflight), F64::of_nat(lost));
    let p = thresh.product(a);
    let d = p.difference(b);
    let share = one.difference(thresh);
    let q = d.quotient(share);
    lemma_pow2_pos(1074);
    nearest::lemma_of_nat(inflight, inflight);
    nearest::lemma_of_nat(lost, lost);
    assert(p.negative() || p.is_nan()) by {
        reveal(F64::product);
        nearest::lemma_rounded(true, thresh.size() * a.size(), u);
    }
    assert(d.negative() || d.is_nan()) by {
        reveal(F64::sum);
        assert(b.opposite().negative());
        let units = p.units() + b.opposite().units();
        nearest::lemma_rounded(true, vstd::math::abs(units) as nat, 1);
    }
    assert(!share.negative() || share.is_nan()) by {
        reveal(F64::sum);
        assert(thresh.negative() ==> !thresh.opposite().negative());
        assert(!thresh.negative() ==> thresh.opposite().is_nan());
        let units = one.units() + thresh.opposite().units();
        nearest::lemma_rounded(false, vstd::math::abs(units) as nat, 1);
    }
    assert(q.negative() || q.is_nan()) by {
        reveal(F64::quotient);
        nearest::lemma_rounded(true, d.size() * u, share.size());
    }
    reveal(F64::whole);
}

/// Where a packet took the loss above the threshold, the volume that met the threshold is
/// no more than what was in flight with the packet, and can be counted. This is for
/// thresholds clear of one and volumes below `2^46` bytes.
pub proof fn law_threshold_volume_is_within_inflight(r: Congestion, size: usize)
    requires
        clear_of_one(r.loss_threshold(), r.bbr3_state.tx_in_flight as nat),
        r.loss_threshold_defined(),
        r.bbr3_state.tx_in_flight < 0x4000_0000_0000,
        r.bbr3_state.lost < 0x4000_0000_0000,
        size <= r.bbr3_state.tx_in_flight,
        size <= r.bbr3_state.lost,
        r.inflight_too_high(),
    ensures
        r.inflight_at_threshold(size) <= r.bbr3_state.tx_in_flight,
        r.threshold_inflight_defined(size),
{
    let u = F64::units_per_one();
    let thresh = r.loss_threshold();
    let t = thresh.size();
    let tx = r.bbr3_state.tx_in_flight as nat;
    let lost = r.bbr3_state.lost as nat;
    let before = (tx - size) as nat;
    let lost_before = (lost - size) as nat;
    if thresh.negative() || thresh.is_nan() {
        lemma_no_prefix(before, lost_before, thresh);
    } else {
        lemma_share_exceeded(tx, lost, thresh, usize::MAX as nat);
        assert(before * t - lost_before * u <= size * (u - t)) by (nonlinear_arith)
            requires
                before == tx - size,
                lost_before == lost - size,
                tx * t < lost * u,
        ;
        assert(before * u <= tx * u) by (nonlinear_arith)
            requires
                before <= tx,
        ;
        lemma_tolerated_less_lost(before, lost_before, size as nat, thresh);
        lemma_prefix_below(
            size as nat,
            thresh.product(F64::of_nat(before)).difference(F64::of_nat(lost_before)),
            thresh,
        );
    }
}

/// What the volume that met the threshold is: where a packet took the loss above it, with
/// `prefix` more bytes in flight after all that was sent before the packet, and lost, the loss
/// would have been the threshold's share of what was in flight. The prefix is exact but for
/// its fraction, a sixteenth of a byte and the rounding of the share, and there is none where
/// more was lost before.
pub proof fn law_loss_meets_threshold_at_volume(r: Congestion, size: usize)
    requires
        clear_of_one(r.loss_threshold(), r.bbr3_state.tx_in_flight as nat),
        !r.loss_threshold().negative(),
        !r.loss_threshold().is_nan(),
        r.bbr3_state.tx_in_flight < 0x4000_0000_0000,
        r.bbr3_state.lost < 0x4000_0000_0000,
        size <= r.bbr3_state.tx_in_flight,
        size <= r.bbr3_state.lost,
        r.inflight_too_high(),
    ensures
        ({
            let u = F64::units_per_one();
            let t = r.loss_threshold().size();
            let sent_before = r.bbr3_state.tx_in_flight - size;
            let lost_before = r.bbr3_state.lost - size;
            let prefix = r.inflight_at_threshold(size) - sent_before;
            let slack = sent_before * u;
            // What the threshold tolerates of all in flight, less what is lost with the prefix.
            let excess = (sent_before + prefix) * t - (lost_before + prefix) * u;
            &&& prefix >= 0
            &&& prefix > 0 ==> 0x20_0000_0000_0000 * (-16 * excess - (u - t)) <= 16 * slack
            &&& 0x20_0000_0000_0000 * (16 * (excess - (u - t)) - (u - t)) <= 16 * slack
        }),
{
    let u = F64::units_per_one();
    let thresh = r.loss_threshold();
    let t = thresh.size();
    let s = u - t;
    let tx = r.bbr3_state.tx_in_flight as nat;
    let lost = r.bbr3_state.lost as nat;
    let before = (tx - size) as nat;
    let lost_before = (lost - size) as nat;
    let rest = thresh.product(F64::of_nat(before)).difference(F64::of_nat(lost_before));
    let gap = before * t - lost_before * u;
    let slack = before * u;
    let prefix = rest.quotient((F64 { bits: float64::ONE }).difference(thresh)).whole(
        usize::MAX as nat,
    );
    lemma_share_exceeded(tx, lost, thresh, usize::MAX as nat);
    assert(gap <= size * s) by (nonlinear_arith)
        requires
            before == tx - size,
            lost_before == lost - size,
            tx * t < lost * u,
            gap == before * t - lost_before * u,
            s == u - t,
    ;
    assert(slack <= tx * u) by (nonlinear_arith)
        requires
            slack == before * u,
            before <= tx,
    ;
    lemma_tolerated_less_lost(before, lost_before, size as nat, thresh);
    lemma_prefix_below(size as nat, rest, thresh);
    assert(r.inflight_at_threshold(size) == before + prefix);
    let excess = (before + prefix) * t - (lost_before + prefix) * u;
    assert(excess == gap - prefix * s) by (nonlinear_arith)
        requires
            excess == (before + prefix) * t - (lost_before + prefix) * u,
            gap == before * t - lost_before * u,
            s == u - t,
    ;
    assert(slack >= 0) by (nonlinear_arith)
        requires
            slack == before * u,
            before >= 0,
            u >= 0,
    ;
    if !rest.negative() && rest.size() > 0 {
        lemma_prefix_exact(size as nat, rest, thresh);
        assert((prefix + 1) * s == prefix * s + s) by (nonlinear_arith);
    } else {
        assert(prefix == 0) by {
            reveal(F64::quotient);
            reveal(F64::whole);
            let share = (F64 { bits: float64::ONE }).difference(thresh);
            ecn_laws::lemma_one_less(thresh);
            ecn_laws::lemma_unit_range_finite(share);
            nearest::lemma_rounded(rest.negative(), rest.size() * u, share.size());
            lemma_pow2_pos(1074);
            if rest.size() == 0 && !rest.negative() {
                assert(prefix <= 0) by {
                    lemma_prefix_below(0, rest, thresh);
                }
            }
        }
        assert(prefix * s == 0) by (nonlinear_arith)
            requires
                prefix == 0,
        ;
    }
}

/// A congestion event is accepted where its loss is, no more was lost than was in flight, and
/// the new window fits.
pub proof fn law_ordinary_event_is_accepted(
    r: Congestion,
    bytes_in_flight: usize,
    lost_bytes: usize,
    packet: Sent,
    now: Instant,
)
    requires
        r.lost_packet_accepted(packet, lost_bytes, now),
        lost_bytes <= bytes_in_flight,
        bytes_in_flight - lost_bytes + r.bbr3_state.newly_acked_bytes <= usize::MAX,
        bytes_in_flight - lost_bytes + r.max_datagram_size <= usize::MAX,
    ensures
        r.congestion_event_accepted(bytes_in_flight, lost_bytes, packet, now),
{
    let noted = r.lost_bytes_noted(lost_bytes);
    let a = r.loss_noted(packet, lost_bytes);
    let b = noted.loss_noted(packet, lost_bytes);
    let c = a.loss_classified(now);
    let d = b.loss_classified(now);
    assert(a.loss_countable(now) == b.loss_countable(now));
    assert(c.loss_threshold() == d.loss_threshold());
    assert(c.loss_threshold_defined() == d.loss_threshold_defined());
    assert(c.inflight_at_threshold(packet.size) == d.inflight_at_threshold(packet.size));
}

/// A lost packet that was part of what was in flight and of what was lost is accepted,
/// as long as the threshold is clear of one, the counters have room, and the volumes are
/// below `2^46` bytes.
pub proof fn law_ordinary_loss_is_accepted(
    r: Congestion,
    packet: Sent,
    lost_bytes: usize,
    now: Instant,
)
    requires
        r.loss_threshold_defined(),
        clear_of_one(r.loss_threshold(), packet.tx_in_flight as nat),
        r.loss_countable(now),
        packet.size <= packet.tx_in_flight < 0x4000_0000_0000,
        packet.size <= lost_bytes < 0x4000_0000_0000,
    ensures
        r.lost_packet_accepted(packet, lost_bytes, now),
{
    let noted = r.loss_noted(packet, lost_bytes);
    let classified = noted.loss_classified(now);
    assert(noted.loss_countable(now) == r.loss_countable(now));
    assert(classified.loss_threshold() == r.loss_threshold());
    assert(classified.loss_threshold_defined());
    if classified.inflight_too_high() {
        law_threshold_volume_is_within_inflight(classified, packet.size);
    }
}

/// A loss that gets a response leaves no more in flight on record than there was when
/// the packet was sent.
pub proof fn law_loss_response_stays_within_inflight(
    r: Congestion,
    packet: Sent,
    lost_bytes: usize,
    now: Instant,
)
    requires
        r.bbr3_state.flags.bw_probe_samples,
        r.loss_threshold_defined(),
        clear_of_one(r.loss_threshold(), packet.tx_in_flight as nat),
        packet.size <= packet.tx_in_flight < 0x4000_0000_0000,
        packet.size <= lost_bytes < 0x4000_0000_0000,
    ensures
        r.lost_packet_handled(packet, lost_bytes, now).bbr3_state.tx_in_flight
            <= packet.tx_in_flight,
{
    let classified = r.loss_noted(packet, lost_bytes).loss_classified(now);
    assert(classified.loss_threshold() == r.loss_threshold());
    if classified.inflight_too_high() {
        law_threshold_volume_is_within_inflight(classified, packet.size);
    }
}

/// The default threshold from end to end: a loss of more than one fiftieth of what was in
/// flight with the packet, not taken for a bit error, caps what is in flight at no less than
/// the volume that met the threshold, which lies within the packet, and at no more than that
/// or seven tenths of the target; a loss of less leaves cap and probe alone.
pub proof fn law_loss_above_two_percent_caps_inflight(
    r: Congestion,
    packet: Sent,
    lost_bytes: usize,
    now: Instant,
)
    requires
        r.satellite_loss_threshold is None,
        r.bbr3_state.flags.bw_probe_samples,
        !r.cwnd_frozen,
        !r.delivery_rate.sample.is_app_limited,
        !r.satellite_loss_discrimination || !r.loss_isolated(now),
        packet.size <= packet.tx_in_flight < 0x4000_0000_0000,
        packet.size <= lost_bytes < 0x4000_0000_0000,
        r.bbr3_state.bdp < 0x4000_0000_0000,
    ensures
        ({
            let before = r.bbr3_state;
            let after = r.lost_packet_handled(packet, lost_bytes, now).bbr3_state;
            let target = if before.bdp <= r.congestion_window {
                before.bdp
            } else {
                r.congestion_window
            };
            if lost_bytes > packet.tx_in_flight / 50 {
                &&& packet.tx_in_flight - packet.size <= after.tx_in_flight
                &&& after.tx_in_flight <= packet.tx_in_flight
                &&& after.inflight_hi >= after.tx_in_flight
                &&& after.inflight_hi + 1 >= 7 * target / 10
                &&& after.inflight_hi == after.tx_in_flight || after.inflight_hi <= 7 * target
                    / 10
                &&& after.flags.bw_probe_samples == (before.state
                    == BBR3StateMachine::ProbeBWUP)
            } else {
                &&& after.tx_in_flight == packet.tx_in_flight
                &&& after.inflight_hi == before.inflight_hi
                &&& after.flags.bw_probe_samples
            }
        }),
{
    let before = r.bbr3_state;
    let lossy = Congestion {
        bbr3_state: State { tx_in_flight: packet.tx_in_flight, lost: lost_bytes, ..before },
        ..r
    };
    let target = if before.bdp <= r.congestion_window {
        before.bdp
    } else {
        r.congestion_window
    };
    assert(lossy.loss_threshold() == r.loss_threshold());
    volume_laws::law_default_threshold_is_one_fiftieth(lossy);
    if lost_bytes > packet.tx_in_flight / 50 {
        law_default_threshold_is_clear_of_one(packet.tx_in_flight as nat);
        law_threshold_volume_is_within_inflight(lossy, packet.size);
        rules::law_congestion_loss_gets_response(r, packet, lost_bytes, now);
        volume_laws::law_beta_leaves_seven_tenths(target as nat, usize::MAX as nat);
    } else {
        rules::law_tolerated_loss_gets_no_response(r, packet, lost_bytes, now);
    }
}

}
