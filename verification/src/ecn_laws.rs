//! What holds of the ECN response whatever the counts.

use vstd::arithmetic::power2::*;
use vstd::prelude::*;

use crate::congestion::{Congestion, EcnCounts, Sent};
use crate::float64::F64;
use crate::float64;
use crate::nearest;
use crate::per_loss;
use crate::rounding;
use crate::state::{Flags, State};
use crate::state;
use crate::time::Instant;
use crate::volume_laws;

verus! {

impl F64 {
    /// Whether the number lies between zero and one.
    pub open spec fn in_unit_range(self) -> bool {
        !self.negative() && !self.is_nan() && self.size() <= F64::units_per_one()
    }
}

impl State {
    /// The moving average of the CE ratio is a ratio.
    pub open spec fn ecn_alpha_valid(self) -> bool {
        self.ecn_alpha.in_unit_range()
    }
}

/// The constants of the ECN response, in units.
proof fn lemma_ecn_constants()
    ensures
        F64::units_per_one() > 0,
        (F64 { bits: float64::ONE }).pattern() == float64::ONE,
        !(F64 { bits: float64::ONE }).negative(),
        (F64 { bits: float64::ONE }).size() == F64::units_per_one(),
        (F64 { bits: state::ECN_ALPHA_GAIN }).pattern() < rounding::INFINITY,
        !(F64 { bits: state::ECN_ALPHA_GAIN }).negative(),
        16 * (F64 { bits: state::ECN_ALPHA_GAIN }).size() == F64::units_per_one(),
        2 * (F64 { bits: state::ECN_THRESH }).size() == F64::units_per_one(),
        !(F64 { bits: state::ECN_THRESH }).negative(),
        !(F64 { bits: state::ECN_THRESH }).is_nan(),
        (F64 { bits: state::ECN_FACTOR }).pattern() < rounding::INFINITY,
        !(F64 { bits: state::ECN_FACTOR }).negative(),
        (F64 { bits: state::ECN_FACTOR }).size() == 0x15_5555_5555_5555 * pow2(1020),
        F64::units_per_one() == 0x40_0000_0000_0000 * pow2(1020),
{
    lemma2_to64_rest();
    lemma_pow2_pos(1074);
    volume_laws::lemma_constant(float64::ONE, 0x10_0000_0000_0000, 1022, 0x10_0000_0000_0000);
    volume_laws::lemma_constant(
        state::ECN_ALPHA_GAIN,
        0x10_0000_0000_0000,
        1018,
        0x100_0000_0000_0000,
    );
    volume_laws::lemma_constant(state::ECN_THRESH, 0x10_0000_0000_0000, 1021, 0x20_0000_0000_0000);
    volume_laws::lemma_constant(state::ECN_FACTOR, 0x15_5555_5555_5555, 1020, 0x40_0000_0000_0000);
}

/// A number between zero and one is finite.
pub(crate) proof fn lemma_unit_range_finite(f: F64)
    requires
        f.in_unit_range(),
    ensures
        f.pattern() < rounding::INFINITY,
{
    let one = F64 { bits: float64::ONE };
    lemma_ecn_constants();
    nearest::lemma_size_order(one, f);
}

/// The sum of two numbers that are not negative and have a sum of at most one.
proof fn lemma_sum_in_unit_range(a: F64, b: F64)
    requires
        !a.negative(),
        !b.negative(),
        !a.is_nan(),
        !b.is_nan(),
        a.size() + b.size() <= F64::units_per_one(),
    ensures
        a.sum(b).in_unit_range(),
        a.sum(b).pattern() == rounding::round_pattern(a.size() + b.size(), 1),
{
    let one = F64 { bits: float64::ONE };
    let n = a.size() + b.size();
    lemma_ecn_constants();
    lemma_unit_range_finite(a);
    lemma_unit_range_finite(b);
    reveal(F64::sum);
    nearest::lemma_rounded(false, n, 1);
    float64::lemma_round_zero(1);
    float64::lemma_magnitude_zero(0);
    assert(one.size() == rounding::magnitude(one.pattern())) by {
        reveal(F64::size);
    }
    nearest::lemma_round_at_most(n, 1, one.pattern());
    nearest::lemma_size_order(one, a.sum(b));
}

/// One less a number of at most one.
pub(crate) proof fn lemma_one_less(a: F64)
    requires
        a.in_unit_range(),
    ensures
        ({
            let rest = F64 { bits: float64::ONE }.difference(a);
            &&& rest.in_unit_range()
            &&& rest.pattern() == rounding::round_pattern(
                (F64::units_per_one() - a.size()) as nat,
                1,
            )
        }),
{
    let one = F64 { bits: float64::ONE };
    let n = (F64::units_per_one() - a.size()) as nat;
    let rest = one.difference(a);
    lemma_ecn_constants();
    lemma_unit_range_finite(a);
    assert(a.opposite().pattern() == a.pattern() && a.opposite().negative());
    assert(a.opposite().size() == a.size()) by {
        reveal(F64::size);
    }
    reveal(F64::sum);
    nearest::lemma_rounded(false, n, 1);
    float64::lemma_round_zero(1);
    assert(one.size() == rounding::magnitude(one.pattern())) by {
        reveal(F64::size);
    }
    nearest::lemma_round_at_most(n, 1, one.pattern());
    nearest::lemma_size_order(one, rest);
}

/// The share of CE marks is a ratio.
proof fn lemma_ce_ratio_in_range(ce_bytes: nat, bytes: nat)
    requires
        0 < bytes <= u128::MAX,
        ce_bytes <= u128::MAX,
    ensures
        per_loss::ce_ratio(ce_bytes, bytes).in_unit_range(),
{
    let u = F64::units_per_one();
    let (a, b) = (F64::of_nat(ce_bytes), F64::of_nat(bytes));
    lemma_ecn_constants();
    nearest::lemma_of_nat(ce_bytes, ce_bytes);
    nearest::lemma_of_nat(1, bytes);
    nearest::lemma_of_nat_exact(1);
    nearest::lemma_size_order(b, b);
    reveal(F64::quotient);
    nearest::lemma_rounded(false, a.size() * u, b.size());
}

/// What the average keeps of itself, and what it takes from a new ratio.
proof fn lemma_ecn_alpha_parts(alpha: F64, ratio: F64)
    requires
        alpha.in_unit_range(),
        ratio.in_unit_range(),
    ensures
        ({
            let gain = F64 { bits: state::ECN_ALPHA_GAIN };
            let kept = F64 { bits: float64::ONE }.difference(gain).product(alpha);
            let taken = gain.product(ratio);
            &&& !kept.negative()
            &&& !kept.is_nan()
            &&& !taken.negative()
            &&& !taken.is_nan()
            &&& kept.size() + taken.size() <= F64::units_per_one()
            &&& per_loss::ecn_alpha_moved(alpha, ratio) == kept.sum(taken)
        }),
{
    let u = F64::units_per_one();
    let one = F64 { bits: float64::ONE };
    let gain = F64 { bits: state::ECN_ALPHA_GAIN };
    let rest = one.difference(gain);
    lemma_ecn_constants();
    lemma_unit_range_finite(alpha);
    lemma_unit_range_finite(ratio);
    lemma_rest_of_gain();
    lemma_unit_range_finite(rest);
    assert(rest.size() * alpha.size() <= u * rest.size()) by (nonlinear_arith)
        requires
            alpha.size() <= u,
    ;
    nearest::lemma_product_at_most(rest, alpha, rest);
    assert(gain.size() * ratio.size() <= u * gain.size()) by (nonlinear_arith)
        requires
            ratio.size() <= u,
    ;
    nearest::lemma_product_at_most(gain, ratio, gain);
}

/// A new flow's average of the CE ratio is a ratio.
pub proof fn law_ecn_alpha_starts_valid(now: Instant)
    ensures
        State::initial(now).ecn_alpha_valid(),
{
    lemma_ecn_constants();
}

/// Whatever the counts, the average of the CE ratio stays a ratio.
pub proof fn law_ecn_alpha_stays_valid(s: State, ecn: EcnCounts)
    requires
        s.ecn_alpha_valid(),
    ensures
        s.ecn_updated(ecn).ecn_alpha_valid(),
{
    let counted = s.ce_marks_counted(ecn);
    let bytes = counted.ecn_bytes_delivered as nat;
    let ce_bytes = counted.ecn_ce_bytes_delivered as nat;
    if bytes > 0 {
        let ratio = per_loss::ce_ratio(ce_bytes, bytes);
        let gain = F64 { bits: state::ECN_ALPHA_GAIN };
        lemma_ce_ratio_in_range(ce_bytes, bytes);
        lemma_ecn_alpha_parts(s.ecn_alpha, ratio);
        lemma_sum_in_unit_range(
            F64 { bits: float64::ONE }.difference(gain).product(s.ecn_alpha),
            gain.product(ratio),
        );
    }
}

/// Losses and the congestion signals of ACKs leave the ECN response alone.
pub proof fn law_loss_leaves_ecn_alone(
    r: Congestion,
    bytes_in_flight: usize,
    lost_bytes: usize,
    packet: Sent,
    now: Instant,
)
    ensures
        ({
            let after = r.congestion_event_handled(
                bytes_in_flight,
                lost_bytes,
                packet,
                now,
            ).bbr3_state;
            &&& after.ecn_alpha == r.bbr3_state.ecn_alpha
            &&& after.ecn_bytes_delivered == r.bbr3_state.ecn_bytes_delivered
            &&& after.ecn_ce_bytes_delivered == r.bbr3_state.ecn_ce_bytes_delivered
            &&& after.prior_ecn_ce_count == r.bbr3_state.prior_ecn_ce_count
        }),
        r.congestion_signals_applied().bbr3_state.ecn_alpha == r.bbr3_state.ecn_alpha,
{
}

/// On a path that is too long for fresh feedback, counts change nothing but that the flow
/// is not eligible.
pub proof fn law_ecn_is_off_on_long_paths(s: State, ecn: EcnCounts)
    requires
        s.min_rtt.nanos >= 100_001_000,
    ensures
        s.ecn_updated(ecn) == (State { flags: Flags { ecn_eligible: false, ..s.flags }, ..s }),
{
}

/// On a short path, counts without new CE marks change nothing.
pub proof fn law_ecn_without_marks_changes_nothing(s: State, ecn: EcnCounts)
    requires
        s.min_rtt.nanos < 100_001_000,
        ecn.ecn_ce_count <= s.prior_ecn_ce_count,
    ensures
        s.ecn_updated(ecn) == s,
{
}

/// The upper bounds move only at the start of a round, on a short path, with new CE marks
/// on more than half of what was delivered.
pub proof fn law_ecn_cuts_only_above_threshold(s: State, ecn: EcnCounts)
    requires
        s.ecn_updated(ecn).inflight_hi != s.inflight_hi || s.ecn_updated(ecn).bw_hi != s.bw_hi,
    ensures
        s.flags.round_start,
        s.ecn_path(),
        ecn.ecn_ce_count > s.prior_ecn_ce_count,
        s.ecn_bytes_delivered > 0,
        per_loss::ce_ratio(s.ce_total(ecn), s.ecn_bytes_delivered as nat).exceeds(
            (F64 { bits: state::ECN_THRESH }),
        ),
{
}

/// The end of an ECN round starts the counts anew.
pub proof fn law_ecn_round_end_restarts_counts(s: State, ecn: EcnCounts)
    requires
        s.flags.round_start,
        s.ecn_path(),
        ecn.ecn_ce_count > s.prior_ecn_ce_count,
    ensures
        s.ecn_updated(ecn).ecn_bytes_delivered == 0,
        s.ecn_updated(ecn).ecn_ce_bytes_delivered == 0,
        !s.ecn_updated(ecn).flags.ecn_in_round,
        s.ecn_updated(ecn).prior_ecn_ce_count == ecn.ecn_ce_count,
{
}

/// How much a cut takes away.
proof fn lemma_ecn_share_taken(alpha: F64)
    requires
        alpha.in_unit_range(),
    ensures
        alpha.product((F64 { bits: state::ECN_FACTOR })).in_unit_range(),
        alpha.product((F64 { bits: state::ECN_FACTOR })).size() <= (F64 {
            bits: state::ECN_FACTOR,
        }).size(),
{
    let u = F64::units_per_one();
    let factor = F64 { bits: state::ECN_FACTOR };
    lemma_ecn_constants();
    lemma_unit_range_finite(alpha);
    assert(alpha.size() * factor.size() <= u * factor.size()) by (nonlinear_arith)
        requires
            alpha.size() <= u,
    ;
    nearest::lemma_product_at_most(alpha, factor, factor);
}

/// What a full cut rounds to: one less the factor lies halfway between two numbers, and
/// the even one is the larger.
proof fn lemma_full_cut()
    ensures
        rounding::round_pattern(0x2A_AAAA_AAAA_AAAB * pow2(1020), 1) == 0x3FE5_5555_5555_5556,
{
    let s: nat = 0x15_5555_5555_5555;
    let n = 0x2A_AAAA_AAAA_AAAB * pow2(1020);
    let w = pow2(1021);
    lemma2_to64_rest();
    lemma_pow2_unfold(1021);
    lemma_pow2_pos(1020);
    lemma_pow2_adds(53, 1020);
    lemma_pow2_adds(54, 1020);
    rounding::lemma_excess_bits(n, 1021);
    assert(n == s * w + pow2(1020)) by (nonlinear_arith)
        requires
            n == 0x2A_AAAA_AAAA_AAAB * pow2(1020),
            w == 2 * pow2(1020),
            s == 0x15_5555_5555_5555,
    ;
    vstd::arithmetic::div_mod::lemma_fundamental_div_mod_converse(
        n as int,
        w as int,
        s as int,
        pow2(1020) as int,
    );
}

/// A cut keeps at least two thirds of an upper bound, and no more than all of it.
pub proof fn law_ecn_cut_keeps_two_thirds(alpha: F64)
    requires
        alpha.in_unit_range(),
    ensures
        per_loss::ecn_share_kept(alpha).in_unit_range(),
        3 * per_loss::ecn_share_kept(alpha).size() >= 2 * F64::units_per_one(),
{
    let u = F64::units_per_one();
    let factor = F64 { bits: state::ECN_FACTOR };
    let taken = alpha.product(factor);
    let kept = per_loss::ecn_share_kept(alpha);
    let least = F64 { bits: 0x3FE5_5555_5555_5556 };
    lemma_ecn_constants();
    lemma_ecn_share_taken(alpha);
    lemma_one_less(taken);
    lemma_full_cut();
    nearest::lemma_round_monotone((u - factor.size()) as nat, (u - taken.size()) as nat, 1);
    nearest::lemma_size_order(kept, least);
    lemma2_to64_rest();
    lemma_pow2_unfold(1021);
    volume_laws::lemma_constant(least.bits, 0x15_5555_5555_5556, 1021, 0x20_0000_0000_0000);
}

/// An average that has just taken in a ratio above the threshold.
proof fn lemma_alpha_after_marks(alpha: F64, ratio: F64)
    requires
        alpha.in_unit_range(),
        ratio.in_unit_range(),
        ratio.exceeds((F64 { bits: state::ECN_THRESH })),
    ensures
        per_loss::ecn_alpha_moved(alpha, ratio).in_unit_range(),
        32 * per_loss::ecn_alpha_moved(alpha, ratio).size() >= F64::units_per_one(),
{
    let u = F64::units_per_one();
    let gain = F64 { bits: state::ECN_ALPHA_GAIN };
    let kept = F64 { bits: float64::ONE }.difference(gain).product(alpha);
    let taken = gain.product(ratio);
    let least = F64 { bits: 0x3FA0_0000_0000_0000 };
    lemma_ecn_constants();
    lemma_unit_range_finite(ratio);
    lemma_ecn_alpha_parts(alpha, ratio);
    lemma_sum_in_unit_range(kept, taken);
    lemma2_to64_rest();
    volume_laws::lemma_constant(least.bits, 0x10_0000_0000_0000, 1017, 0x200_0000_0000_0000);
    assert(gain.size() * ratio.size() >= u * least.size()) by (nonlinear_arith)
        requires
            16 * gain.size() == u,
            2 * ratio.size() >= u,
            32 * least.size() == u,
    ;
    nearest::lemma_product_at_least(gain, ratio, least);
    assert(least.size() == rounding::magnitude(least.pattern())) by {
        reveal(F64::size);
    }
    nearest::lemma_round_at_least(kept.size() + taken.size(), 1, least.pattern());
    nearest::lemma_size_order(kept.sum(taken), least);
}

/// What a cut after a round of CE marks keeps.
proof fn lemma_ecn_share_kept(alpha: F64)
    requires
        alpha.in_unit_range(),
        32 * alpha.size() >= F64::units_per_one(),
    ensures
        per_loss::ecn_share_kept(alpha).in_unit_range(),
        128 * per_loss::ecn_share_kept(alpha).size() <= 127 * F64::units_per_one(),
{
    let u = F64::units_per_one();
    let factor = F64 { bits: state::ECN_FACTOR };
    let taken = alpha.product(factor);
    let kept = per_loss::ecn_share_kept(alpha);
    let least = F64 { bits: 0x3F80_0000_0000_0000 };
    let most = F64 { bits: 0x3FEF_C000_0000_0000 };
    lemma_ecn_constants();
    lemma_unit_range_finite(alpha);
    lemma_ecn_share_taken(alpha);
    lemma_one_less(taken);
    lemma2_to64_rest();
    volume_laws::lemma_constant(least.bits, 0x10_0000_0000_0000, 1015, 0x800_0000_0000_0000);
    volume_laws::lemma_constant(most.bits, 0x1F_C000_0000_0000, 1021, 0x20_0000_0000_0000);
    assert(alpha.size() * factor.size() >= u * least.size()) by (nonlinear_arith)
        requires
            32 * alpha.size() >= u,
            4 * factor.size() >= u,
            128 * least.size() == u,
    ;
    nearest::lemma_product_at_least(alpha, factor, least);
    assert(most.size() == rounding::magnitude(most.pattern())) by {
        reveal(F64::size);
    }
    nearest::lemma_round_at_most((u - taken.size()) as nat, 1, most.pattern());
    nearest::lemma_size_order(most, kept);
}

/// What a cut leaves of the upper bounds.
proof fn lemma_ecn_cut(s: State, ecn: EcnCounts)
    requires
        s.ecn_alpha_valid(),
        s.flags.round_start,
        s.ecn_path(),
        ecn.ecn_ce_count > s.prior_ecn_ce_count,
        s.ecn_bytes_delivered > 0,
        per_loss::ce_ratio(s.ce_total(ecn), s.ecn_bytes_delivered as nat).exceeds(
            (F64 { bits: state::ECN_THRESH }),
        ),
    ensures
        s.ecn_updated(ecn).inflight_hi <= s.inflight_hi,
        s.ecn_updated(ecn).bw_hi <= s.bw_hi,
        s.inflight_hi > 0 ==> s.ecn_updated(ecn).inflight_hi < s.inflight_hi,
        s.bw_hi > 0 ==> s.ecn_updated(ecn).bw_hi < s.bw_hi,
{
    let counted = s.ce_marks_counted(ecn);
    let bytes = counted.ecn_bytes_delivered as nat;
    let ce_bytes = counted.ecn_ce_bytes_delivered as nat;
    let ratio = per_loss::ce_ratio(ce_bytes, bytes);
    let alpha = per_loss::ecn_alpha_moved(s.ecn_alpha, ratio);
    let kept = per_loss::ecn_share_kept(alpha);
    lemma_ce_ratio_in_range(ce_bytes, bytes);
    lemma_alpha_after_marks(s.ecn_alpha, ratio);
    lemma_ecn_share_kept(alpha);
    lemma_unit_range_finite(kept);
    nearest::lemma_share_of_volume(s.inflight_hi as nat, kept, usize::MAX as nat);
    nearest::lemma_share_of_volume(s.bw_hi as nat, kept, u64::MAX as nat);
}

/// New CE marks on more than half of what a round on a short path delivered reduce both
/// upper bounds, unless they are zero.
pub proof fn law_ecn_reduces_bounds_above_threshold(s: State, ecn: EcnCounts)
    requires
        s.ecn_alpha_valid(),
        s.flags.round_start,
        s.ecn_path(),
        ecn.ecn_ce_count > s.prior_ecn_ce_count,
        s.ecn_bytes_delivered > 0,
        per_loss::ce_ratio(s.ce_total(ecn), s.ecn_bytes_delivered as nat).exceeds(
            (F64 { bits: state::ECN_THRESH }),
        ),
    ensures
        s.inflight_hi > 0 ==> s.ecn_updated(ecn).inflight_hi < s.inflight_hi,
        s.bw_hi > 0 ==> s.ecn_updated(ecn).bw_hi < s.bw_hi,
{
    lemma_ecn_cut(s, ecn);
}

/// ECN counts never raise an upper bound.
pub proof fn law_ecn_never_raises_bounds(s: State, ecn: EcnCounts)
    requires
        s.ecn_alpha_valid(),
    ensures
        s.ecn_updated(ecn).inflight_hi <= s.inflight_hi,
        s.ecn_updated(ecn).bw_hi <= s.bw_hi,
{
    if s.ecn_updated(ecn).inflight_hi != s.inflight_hi || s.ecn_updated(ecn).bw_hi != s.bw_hi {
        law_ecn_cuts_only_above_threshold(s, ecn);
        lemma_ecn_cut(s, ecn);
    }
}

/// What counts do, in full, on a short path and within a round: CE marks that are new add to
/// those of the round, as far as they can be counted, and nothing else moves but the flags
/// and the last count.
pub proof fn law_ecn_marks_add_up(s: State, ecn: EcnCounts)
    requires
        s.min_rtt.nanos < 100_001_000,
        !s.flags.round_start,
        ecn.ecn_ce_count > s.prior_ecn_ce_count,
    ensures
        ({
            let new_marks = ecn.ecn_ce_count - s.prior_ecn_ce_count;
            let after = s.ecn_updated(ecn);
            &&& after == State {
                flags: Flags { ecn_eligible: true, ecn_in_round: true, ..s.flags },
                ecn_ce_bytes_delivered: after.ecn_ce_bytes_delivered,
                prior_ecn_ce_count: ecn.ecn_ce_count,
                ..s
            }
            &&& s.ecn_ce_bytes_delivered + new_marks <= usize::MAX ==> after.ecn_ce_bytes_delivered
                == s.ecn_ce_bytes_delivered + new_marks
            &&& s.ecn_ce_bytes_delivered + new_marks > usize::MAX
                ==> after.ecn_ce_bytes_delivered == usize::MAX
        }),
{
}

/// Marks counted in two reports are those counted in one.
proof fn lemma_counted_twice(s: State, first: EcnCounts, last: EcnCounts)
    requires
        s.prior_ecn_ce_count < first.ecn_ce_count <= last.ecn_ce_count,
    ensures
        s.ce_marks_counted(first).ce_marks_counted(last) == s.ce_marks_counted(last),
{
    let once = s.ce_marks_counted(first);
    assert(once.ce_total(last) == s.ce_total(last));
}

/// What counts do to a state, case by case.
proof fn lemma_ecn_cases(s: State, ecn: EcnCounts)
    ensures
        !s.ecn_path() ==> s.ecn_updated(ecn) == (State {
            flags: Flags { ecn_eligible: false, ..s.flags },
            ..s
        }),
        s.ecn_path() && ecn.ecn_ce_count <= s.prior_ecn_ce_count ==> s.ecn_updated(ecn) == s,
        s.ecn_path() && ecn.ecn_ce_count > s.prior_ecn_ce_count && !s.flags.round_start
            ==> s.ecn_updated(ecn) == s.ce_marks_counted(ecn),
        s.ecn_path() && ecn.ecn_ce_count > s.prior_ecn_ce_count && s.flags.round_start
            ==> s.ecn_updated(ecn) == s.ce_marks_counted(ecn).ecn_round_ended(),
{
}

/// Counting marks keeps the path and the start of the round.
proof fn lemma_counting_keeps_round(s: State, ecn: EcnCounts)
    ensures
        s.ce_marks_counted(ecn).ecn_path() == s.ecn_path(),
        s.ce_marks_counted(ecn).flags.round_start == s.flags.round_start,
        s.ce_marks_counted(ecn).prior_ecn_ce_count == ecn.ecn_ce_count,
{
}

/// Over the ACKs of a round it does not matter how many of them report the CE marks: two
/// reports leave what the last one alone leaves.
pub proof fn law_ecn_reports_add_up(s: State, first: EcnCounts, last: EcnCounts)
    requires
        !s.flags.round_start,
        first.ecn_ce_count <= last.ecn_ce_count,
    ensures
        s.ecn_updated(first).ecn_updated(last) == s.ecn_updated(last),
{
    let reported = s.ecn_updated(first);
    lemma_ecn_cases(s, first);
    lemma_ecn_cases(s, last);
    lemma_ecn_cases(reported, last);
    if s.ecn_path() && first.ecn_ce_count > s.prior_ecn_ce_count {
        lemma_counting_keeps_round(s, first);
        lemma_counted_twice(s, first, last);
        if last.ecn_ce_count == first.ecn_ce_count {
            assert(s.ce_marks_counted(first) == s.ce_marks_counted(last));
        }
    }
}

/// The state at the start of a round.
#[verifier::opaque]
pub open spec fn at_round_start(s: State) -> State {
    State { flags: Flags { round_start: true, ..s.flags }, ..s }
}

/// The start of a round is told apart from the marks that were counted before.
proof fn lemma_start_after_counting(s: State, ecn: EcnCounts)
    ensures
        at_round_start(s.ce_marks_counted(ecn)) == at_round_start(s).ce_marks_counted(ecn),
        at_round_start(s).ecn_path() == s.ecn_path(),
        at_round_start(s).prior_ecn_ce_count == s.prior_ecn_ce_count,
        at_round_start(s).flags.round_start,
{
    reveal(at_round_start);
}

/// A path that is too long is so at the start of a round as well.
proof fn lemma_start_on_long_path(s: State, first: EcnCounts, last: EcnCounts)
    requires
        !s.ecn_path(),
    ensures
        at_round_start(s.ecn_updated(first)).ecn_updated(last) == at_round_start(s).ecn_updated(
            last,
        ),
{
    reveal(at_round_start);
    let started = at_round_start(s);
    let reported = at_round_start(s.ecn_updated(first));
    assert(!started.ecn_path() && !reported.ecn_path());
}

/// The ratio that the start of a round is held against is of all CE marks since the last
/// one: reports within the round and the one at its end leave what a single report at its
/// end leaves.
pub proof fn law_ecn_round_spans_its_reports(s: State, first: EcnCounts, last: EcnCounts)
    requires
        !s.flags.round_start,
        first.ecn_ce_count < last.ecn_ce_count,
    ensures
        at_round_start(s.ecn_updated(first)).ecn_updated(last) == at_round_start(s).ecn_updated(
            last,
        ),
{
    if !s.ecn_path() {
        lemma_start_on_long_path(s, first, last);
    } else {
        lemma_ecn_cases(s, first);
        if first.ecn_ce_count > s.prior_ecn_ce_count {
            let started = at_round_start(s);
            let reported = started.ce_marks_counted(first);
            lemma_start_after_counting(s, first);
            lemma_counting_keeps_round(started, first);
            lemma_counted_twice(started, first, last);
            lemma_ecn_cases(started, last);
            lemma_ecn_cases(reported, last);
        }
    }
}

/// The end of a round with new CE marks, in full: the average moves where anything was
/// delivered; where the ratio exceeds the threshold each upper bound becomes its share that
/// the new average keeps; the counts start anew; and nothing else moves but the flags and the
/// last count.
pub proof fn law_ecn_round_end_rule(s: State, ecn: EcnCounts)
    requires
        s.min_rtt.nanos < 100_001_000,
        s.flags.round_start,
        ecn.ecn_ce_count > s.prior_ecn_ce_count,
    ensures
        ({
            let after = s.ecn_updated(ecn);
            let sum = s.ecn_ce_bytes_delivered + (ecn.ecn_ce_count - s.prior_ecn_ce_count);
            let marks = if sum <= usize::MAX {
                sum as nat
            } else {
                usize::MAX as nat
            };
            let ratio = per_loss::ce_ratio(marks, s.ecn_bytes_delivered as nat);
            let alpha = per_loss::ecn_alpha_moved(s.ecn_alpha, ratio);
            let kept = per_loss::ecn_share_kept(alpha);
            let measured = s.ecn_bytes_delivered > 0;
            let cut = measured && ratio.exceeds(F64 { bits: state::ECN_THRESH });
            &&& after.ecn_alpha == if measured {
                alpha
            } else {
                s.ecn_alpha
            }
            &&& cut ==> after.inflight_hi == F64::of_nat(s.inflight_hi as nat).product(kept).whole(
                usize::MAX as nat,
            )
            &&& cut ==> after.bw_hi == F64::of_nat(s.bw_hi as nat).product(kept).whole(
                u64::MAX as nat,
            )
            &&& !cut ==> after.inflight_hi == s.inflight_hi && after.bw_hi == s.bw_hi
            &&& after == State {
                flags: Flags { ecn_eligible: true, ecn_in_round: false, ..s.flags },
                inflight_hi: after.inflight_hi,
                bw_hi: after.bw_hi,
                ecn_alpha: after.ecn_alpha,
                ecn_bytes_delivered: 0,
                ecn_ce_bytes_delivered: 0,
                prior_ecn_ce_count: ecn.ecn_ce_count,
                ..s
            }
        }),
{
    let counted = s.ce_marks_counted(ecn);
    let ratio = per_loss::ce_ratio(s.ce_total(ecn), s.ecn_bytes_delivered as nat);
    let kept = per_loss::ecn_share_kept(per_loss::ecn_alpha_moved(s.ecn_alpha, ratio));
    nearest::lemma_whole_fits(
        F64::of_nat(s.inflight_hi as nat).product(kept),
        usize::MAX as nat,
    );
    nearest::lemma_whole_fits(F64::of_nat(s.bw_hi as nat).product(kept), u64::MAX as nat);
}

/// What the CE ratio is: one where there are as many marks as bytes or more, and otherwise
/// the exact ratio to within one part in `2^53`.
pub proof fn law_ce_ratio_is_marks_over_bytes(marks: nat, bytes: nat)
    requires
        0 < bytes < 0x10_0000_0000_0000,
        marks < 0x20_0000_0000_0000,
    ensures
        ({
            let u = F64::units_per_one();
            let ratio = per_loss::ce_ratio(marks, bytes);
            &&& ratio.in_unit_range()
            &&& marks >= bytes ==> ratio.bits == float64::ONE
            &&& marks < bytes ==> {
                &&& 0x20_0000_0000_0000 * (bytes * ratio.size() - marks * u) <= marks * u
                &&& 0x20_0000_0000_0000 * (marks * u - bytes * ratio.size()) <= marks * u
            }
            &&& ratio.exceeds((F64 { bits: state::ECN_THRESH })) <==> 2 * marks > bytes
        }),
{
    let u = F64::units_per_one();
    let one = F64 { bits: float64::ONE };
    let half = F64 { bits: state::ECN_THRESH };
    let (a, b) = (F64::of_nat(marks), F64::of_nat(bytes));
    let q = a.quotient(b);
    let mu = marks * u;
    let n = mu * u;
    let d = bytes * u;
    lemma_ecn_constants();
    lemma2_to64_rest();
    lemma_ce_ratio_in_range(marks, bytes);
    nearest::lemma_of_nat_exact(marks);
    nearest::lemma_of_nat_exact(bytes);
    nearest::lemma_size_order(b, b);
    assert(d > 0) by (nonlinear_arith)
        requires
            d == bytes * u,
            bytes > 0,
            u > 0,
    ;
    assert(q.pattern() == rounding::round_pattern(n, d) && !q.negative() && !q.is_nan()) by {
        reveal(F64::quotient);
        nearest::lemma_rounded(false, n, d);
    }
    assert(one.size() == rounding::magnitude(one.pattern()) && half.size() == rounding::magnitude(
        half.pattern(),
    ) && q.size() == rounding::magnitude(q.pattern())) by {
        reveal(F64::size);
    }
    nearest::lemma_size_order(one, q);
    nearest::lemma_size_order(q, one);
    nearest::lemma_size_order(half, q);
    nearest::lemma_size_order(half, one);
    if marks >= bytes {
        assert(n >= d * u) by (nonlinear_arith)
            requires
                n == mu * u,
                mu == marks * u,
                d == bytes * u,
                marks >= bytes,
                u > 0,
        ;
        nearest::lemma_round_at_least(n, d, one.pattern());
    } else {
        assert(n <= d * u) by (nonlinear_arith)
            requires
                n == mu * u,
                mu == marks * u,
                d == bytes * u,
                marks <= bytes,
                u > 0,
        ;
        nearest::lemma_round_at_most(n, d, one.pattern());
        let m = q.size();
        if marks == 0 {
            assert(n == 0 && mu == 0) by (nonlinear_arith)
                requires
                    n == mu * u,
                    mu == marks * u,
                    marks == 0,
            ;
            float64::lemma_round_zero(d);
            nearest::lemma_size_order(q, q);
            assert(bytes * m == 0) by (nonlinear_arith)
                requires
                    m == 0,
            ;
        } else {
            assert(mu >= u) by (nonlinear_arith)
                requires
                    mu == marks * u,
                    marks >= 1,
            ;
            lemma2_to64();
            lemma_pow2_adds(64, 52);
            lemma_pow2_strictly_increases(116, 1074);
            assert(n >= rounding::HIDDEN_BIT * d) by (nonlinear_arith)
                requires
                    n == mu * u,
                    mu >= u,
                    d == bytes * u,
                    bytes < 0x10_0000_0000_0000,
                    u >= 0x1_0000_0000_0000_0000 * 0x10_0000_0000_0000,
            ;
            vstd::arithmetic::div_mod::lemma_div_is_ordered(
                (rounding::HIDDEN_BIT * d) as int,
                n as int,
                d as int,
            );
            vstd::arithmetic::div_mod::lemma_div_multiples_vanish(
                rounding::HIDDEN_BIT as int,
                d as int,
            );
            assert(d * rounding::HIDDEN_BIT == rounding::HIDDEN_BIT * d) by (nonlinear_arith);
            nearest::lemma_round_error(n, d);
            let bm = bytes * m;
            assert(d * m == bm * u) by (nonlinear_arith)
                requires
                    d == bytes * u,
                    bm == bytes * m,
            ;
            assert(0x20_0000_0000_0000 * (bm - mu) <= mu) by (nonlinear_arith)
                requires
                    0x20_0000_0000_0000 * (bm * u - mu * u) <= mu * u,
                    u > 0,
            ;
            assert(0x20_0000_0000_0000 * (mu - bm) <= mu) by (nonlinear_arith)
                requires
                    0x20_0000_0000_0000 * (mu * u - bm * u) <= mu * u,
                    u > 0,
            ;
        }
    }
    let h = half.size();
    if 2 * marks <= bytes {
        assert(n <= d * h) by (nonlinear_arith)
            requires
                n == mu * u,
                mu == marks * u,
                d == bytes * u,
                2 * marks <= bytes,
                2 * h == u,
                u > 0,
        ;
        nearest::lemma_round_at_most(n, d, half.pattern());
    } else {
        let next = half.pattern() + 1;
        let step = pow2(1021);
        volume_laws::lemma_constant(half.bits, 0x10_0000_0000_0000, 1021, 0x20_0000_0000_0000);
        float64::lemma_magnitude_step(half.pattern());
        assert(rounding::magnitude(next) == h + step);
        assert(n >= d * (h + step)) by (nonlinear_arith)
            requires
                n == mu * u,
                mu == marks * u,
                d == bytes * u,
                2 * marks >= bytes + 1,
                2 * h == u,
                u == 0x20_0000_0000_0000 * step,
                bytes < 0x10_0000_0000_0000,
                step > 0,
        ;
        nearest::lemma_round_at_least(n, d, next);
    }
}

/// The average moves one sixteenth of the way towards the ratio, to within 48 parts in
/// `2^53` of a sixteenth of one.
pub proof fn law_ecn_alpha_moves_by_a_sixteenth(alpha: F64, ratio: F64)
    requires
        alpha.in_unit_range(),
        ratio.in_unit_range(),
    ensures
        ({
            let moved = per_loss::ecn_alpha_moved(alpha, ratio);
            let exact = 15 * alpha.size() + ratio.size();
            &&& moved.in_unit_range()
            &&& 0x20_0000_0000_0000 * (16 * moved.size() - exact) <= 48 * F64::units_per_one()
            &&& 0x20_0000_0000_0000 * (exact - 16 * moved.size()) <= 48 * F64::units_per_one()
        }),
{
    let u = F64::units_per_one();
    let gain = F64 { bits: state::ECN_ALPHA_GAIN };
    let rest = F64 { bits: float64::ONE }.difference(gain);
    let kept = rest.product(alpha);
    let taken = gain.product(ratio);
    lemma_ecn_constants();
    lemma_ecn_alpha_parts(alpha, ratio);
    lemma_sum_in_unit_range(kept, taken);
    lemma_rest_of_gain();
    lemma_unit_product(rest, alpha);
    lemma_unit_product(gain, ratio);
    nearest::lemma_unit_rounding(kept.size() + taken.size(), 1);
    assert(kept.sum(taken).size() == rounding::magnitude(kept.sum(taken).pattern())) by {
        reveal(F64::size);
    }
    let (ka, ga) = (rest.size() * alpha.size(), gain.size() * ratio.size());
    assert(16 * ka == 15 * (alpha.size() * u)) by (nonlinear_arith)
        requires
            ka == rest.size() * alpha.size(),
            16 * rest.size() == 15 * u,
    ;
    assert(16 * ga == ratio.size() * u) by (nonlinear_arith)
        requires
            ga == gain.size() * ratio.size(),
            16 * gain.size() == u,
    ;
    let (a, b) = (16 * kept.size() - 15 * alpha.size(), 16 * taken.size() - ratio.size());
    assert(0x20_0000_0000_0000 * a <= 16 * u && -16 * u <= 0x20_0000_0000_0000 * a)
        by (nonlinear_arith)
        requires
            a == 16 * kept.size() - 15 * alpha.size(),
            16 * ka == 15 * (alpha.size() * u),
            0x20_0000_0000_0000 * (u * kept.size() - ka) <= u * u,
            0x20_0000_0000_0000 * (ka - u * kept.size()) <= u * u,
            u > 0,
    ;
    assert(0x20_0000_0000_0000 * b <= 16 * u && -16 * u <= 0x20_0000_0000_0000 * b)
        by (nonlinear_arith)
        requires
            b == 16 * taken.size() - ratio.size(),
            16 * ga == ratio.size() * u,
            0x20_0000_0000_0000 * (u * taken.size() - ga) <= u * u,
            0x20_0000_0000_0000 * (ga - u * taken.size()) <= u * u,
            u > 0,
    ;
}

/// A cut keeps one less a third of the average, to within seven parts in `2^53` of a third.
pub proof fn law_ecn_cut_takes_a_third_of_alpha(alpha: F64)
    requires
        alpha.in_unit_range(),
    ensures
        ({
            let u = F64::units_per_one();
            let kept = per_loss::ecn_share_kept(alpha);
            let exact = 3 * u - alpha.size();
            &&& kept.in_unit_range()
            &&& 0x20_0000_0000_0000 * (3 * kept.size() - exact) <= 7 * u
            &&& 0x20_0000_0000_0000 * (exact - 3 * kept.size()) <= 7 * u
        }),
{
    let u = F64::units_per_one();
    let v = pow2(1020);
    let factor = F64 { bits: state::ECN_FACTOR };
    let taken = alpha.product(factor);
    let kept = per_loss::ecn_share_kept(alpha);
    lemma_ecn_constants();
    lemma_ecn_share_taken(alpha);
    lemma_one_less(taken);
    assert(factor.in_unit_range());
    lemma_unit_product(alpha, factor);
    nearest::lemma_unit_rounding((u - taken.size()) as nat, 1);
    assert(kept.size() == rounding::magnitude(kept.pattern())) by {
        reveal(F64::size);
    }
    let af = alpha.size() * factor.size();
    assert(3 * factor.size() == u - v);
    assert(3 * af == alpha.size() * u - alpha.size() * v) by (nonlinear_arith)
        requires
            af == alpha.size() * factor.size(),
            3 * factor.size() == u - v,
    ;
    assert(0 <= alpha.size() * v <= u * v) by (nonlinear_arith)
        requires
            0 <= alpha.size() <= u,
            v >= 0,
    ;
    let t = 3 * taken.size() - alpha.size();
    assert(0x20_0000_0000_0000 * t <= 3 * u && -4 * u <= 0x20_0000_0000_0000 * t)
        by (nonlinear_arith)
        requires
            t == 3 * taken.size() - alpha.size(),
            3 * af == alpha.size() * u - alpha.size() * v,
            0 <= alpha.size() * v <= u * v,
            u == 0x40_0000_0000_0000 * v,
            0x20_0000_0000_0000 * (u * taken.size() - af) <= u * u,
            0x20_0000_0000_0000 * (af - u * taken.size()) <= u * u,
            u > 0,
    ;
}

/// Fifteen sixteenths as a number.
proof fn lemma_fifteen_sixteenths()
    ensures
        ({
            let most = F64 { bits: 0x3FEE_0000_0000_0000 };
            &&& most.pattern() <= rounding::INFINITY
            &&& most.size() == rounding::magnitude(most.pattern())
            &&& 16 * most.size() == 15 * F64::units_per_one()
        }),
{
    let most = F64 { bits: 0x3FEE_0000_0000_0000 };
    let p = pow2(1021);
    lemma2_to64_rest();
    volume_laws::lemma_constant(most.bits, 0x1E_0000_0000_0000, 1021, 0x20_0000_0000_0000);
    assert(most.size() == 0x1E_0000_0000_0000 * p);
    assert(F64::units_per_one() == 0x20_0000_0000_0000 * p);
    reveal(F64::size);
}

/// The share that the average keeps of itself.
proof fn lemma_rest_of_gain()
    ensures
        ({
            let rest = (F64 { bits: float64::ONE }).difference(
                (F64 { bits: state::ECN_ALPHA_GAIN }),
            );
            &&& rest.in_unit_range()
            &&& 16 * rest.size() == 15 * F64::units_per_one()
        }),
{
    let gain = F64 { bits: state::ECN_ALPHA_GAIN };
    let rest = (F64 { bits: float64::ONE }).difference(gain);
    let most = F64 { bits: 0x3FEE_0000_0000_0000 };
    assert(gain.in_unit_range() && 16 * gain.size() == F64::units_per_one()) by {
        lemma_ecn_constants();
    }
    lemma_one_less(gain);
    lemma_fifteen_sixteenths();
    let n = (F64::units_per_one() - gain.size()) as nat;
    assert(1 * rounding::magnitude(most.pattern()) == n);
    nearest::lemma_round_representable(1, most.pattern());
    assert(rest.pattern() == most.pattern());
    nearest::lemma_size_order(rest, most);
}

/// The product of two numbers between zero and one.
proof fn lemma_unit_product(a: F64, b: F64)
    requires
        a.in_unit_range(),
        b.in_unit_range(),
    ensures
        ({
            let u = F64::units_per_one();
            let p = a.product(b);
            &&& p.in_unit_range()
            &&& 0x20_0000_0000_0000 * (u * p.size() - a.size() * b.size()) <= u * u
            &&& 0x20_0000_0000_0000 * (a.size() * b.size() - u * p.size()) <= u * u
        }),
{
    let u = F64::units_per_one();
    lemma_unit_range_finite(a);
    lemma_unit_range_finite(b);
    nearest::lemma_product_parts(a, b);
    assert(a.size() * b.size() <= u * u) by (nonlinear_arith)
        requires
            a.size() <= u,
            b.size() <= u,
    ;
    nearest::lemma_unit_rounding(a.size() * b.size(), u);
    assert(a.product(b).size() == rounding::magnitude(a.product(b).pattern())) by {
        reveal(F64::size);
    }
}

/// The ECN response from end to end: at the start of a round on a short path, CE marks on
/// more than half of the bytes delivered since the last response, all reports taken together,
/// reduce both upper bounds, and marks on half of them or less leave the bounds alone.
pub proof fn law_ecn_majority_of_marks_reduces_bounds(s: State, ecn: EcnCounts)
    requires
        s.ecn_alpha_valid(),
        s.min_rtt.nanos < 100_001_000,
        s.flags.round_start,
        ecn.ecn_ce_count > s.prior_ecn_ce_count,
        0 < s.ecn_bytes_delivered < 0x10_0000_0000_0000,
        s.ecn_ce_bytes_delivered + (ecn.ecn_ce_count - s.prior_ecn_ce_count) <= usize::MAX,
        s.ecn_ce_bytes_delivered + (ecn.ecn_ce_count - s.prior_ecn_ce_count)
            < 0x20_0000_0000_0000,
    ensures
        ({
            let marks = s.ecn_ce_bytes_delivered + (ecn.ecn_ce_count - s.prior_ecn_ce_count);
            let after = s.ecn_updated(ecn);
            if 2 * marks > s.ecn_bytes_delivered {
                &&& s.inflight_hi > 0 ==> after.inflight_hi < s.inflight_hi
                &&& s.bw_hi > 0 ==> after.bw_hi < s.bw_hi
            } else {
                &&& after.inflight_hi == s.inflight_hi
                &&& after.bw_hi == s.bw_hi
            }
        }),
{
    let marks = (s.ecn_ce_bytes_delivered + (ecn.ecn_ce_count - s.prior_ecn_ce_count)) as nat;
    law_ce_ratio_is_marks_over_bytes(marks, s.ecn_bytes_delivered as nat);
    assert(s.ce_total(ecn) == marks);
    if 2 * marks > s.ecn_bytes_delivered {
        law_ecn_reduces_bounds_above_threshold(s, ecn);
    } else {
        law_ecn_round_end_rule(s, ecn);
    }
}

}
