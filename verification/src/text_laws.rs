//! What the texts say: digits that read back as their number, and a line that tells every
//! variable behind its name.

use vstd::arithmetic::power::pow;
use vstd::prelude::*;

use crate::congestion::Congestion;
use crate::controller;
use crate::state::{BBR3AckPhase, BBR3StateMachine};
use crate::text;
use crate::time::Duration;

verus! {

/// The number that decimal digits stand for.
pub open spec fn number_of(digits: Seq<char>) -> int
    decreases digits.len(),
{
    if digits.len() == 0 {
        0
    } else {
        10 * number_of(digits.drop_last()) + (digits.last() as int - '0' as int)
    }
}

/// A number in decimal reads back as the number, starts with a digit other than zero
/// unless it is zero, and holds nothing but digits.
pub proof fn law_decimal_reads_back(n: nat)
    ensures
        number_of(text::decimal(n)) == n,
        text::decimal(n).len() > 0,
        n > 0 ==> text::decimal(n)[0] != '0',
        forall|i: int|
            0 <= i < text::decimal(n).len() ==> '0' <= #[trigger] text::decimal(n)[i] <= '9',
    decreases n,
{
    let d = text::decimal(n);
    if n < 10 {
        assert(d.drop_last() =~= Seq::empty());
        assert(number_of(Seq::empty()) == 0);
    } else {
        law_decimal_reads_back(n / 10);
        assert(d.drop_last() =~= text::decimal(n / 10));
        assert(d[0] == text::decimal(n / 10)[0]);
        assert forall|i: int| 0 <= i < d.len() implies '0' <= #[trigger] d[i] <= '9' by {
            if i < d.len() - 1 {
                assert(d[i] == text::decimal(n / 10)[i]);
            }
        }
    }
}

/// A sign stands before the digits of a negative number, and before no other.
pub proof fn law_sign_tells_negative(n: int)
    ensures
        n >= 0 ==> text::signed_decimal(n) == text::decimal(n as nat),
        n < 0 ==> text::signed_decimal(n) == "-"@ + text::decimal((-n) as nat),
{
}

/// Padded digits have their width and read back as the number.
proof fn lemma_padded_reads_back(n: nat, width: nat)
    requires
        n < pow(10, width),
    ensures
        text::padded(n, width).len() == width,
        number_of(text::padded(n, width)) == n,
    decreases width,
{
    reveal(pow);
    if width > 0 {
        lemma_padded_reads_back(n / 10, (width - 1) as nat);
        let p = text::padded(n, width);
        assert(p.drop_last() =~= text::padded(n / 10, (width - 1) as nat));
    }
}

/// The digits behind a point: they are the fraction `n / 10^width`, and end in a digit
/// other than zero.
pub proof fn law_fraction_reads_back(n: nat, width: nat)
    requires
        0 < n < pow(10, width),
    ensures
        ({
            let d = text::fraction_digits(n, width);
            &&& 0 < d.len() <= width
            &&& number_of(d) * pow(10, (width - d.len()) as nat) == n
            &&& d.last() != '0'
        }),
    decreases width,
{
    reveal(pow);
    let d = text::fraction_digits(n, width);
    if width > 0 && n % 10 == 0 {
        law_fraction_reads_back(n / 10, (width - 1) as nat);
        let rest = pow(10, (width - 1 - d.len()) as nat);
        let v = number_of(d);
        assert(pow(10, (width - d.len()) as nat) == 10 * rest);
        assert(v * (10 * rest) == 10 * (v * rest)) by (nonlinear_arith);
    } else {
        lemma_padded_reads_back(n, width);
        assert(width > 0);
        assert(d.last() == text::digit(n % 10));
        assert(pow(10, (width - d.len()) as nat) == 1);
    }
}

/// Whether a text gives `count` units of `per` nanoseconds, with `width` decimals at most:
/// the whole units in decimal, the rest as a fraction behind a point where there is any,
/// and the unit's name.
pub open spec fn tells_span(
    t: Seq<char>,
    count: nat,
    per: nat,
    width: nat,
    unit: Seq<char>,
) -> bool {
    if count % per == 0 {
        t == text::decimal(count / per) + unit
    } else {
        exists|d: Seq<char>|
            {
                &&& t == text::decimal(count / per) + ("."@ + d) + unit
                &&& 0 < d.len() <= width
                &&& #[trigger] number_of(d) * pow(10, (width - d.len()) as nat) == count % per
                &&& d.last() != '0'
            }
    }
}

/// A whole number of units, and the fraction that is left, as text.
proof fn lemma_tells_span(count: nat, per: nat, width: nat, unit: Seq<char>)
    requires
        per == pow(10, width),
        per > 0,
    ensures
        tells_span(
            text::decimal(count / per) + text::fraction(count % per, width) + unit,
            count,
            per,
            width,
            unit,
        ),
{
    let t = text::decimal(count / per) + text::fraction(count % per, width) + unit;
    if count % per == 0 {
        assert(t =~= text::decimal(count / per) + unit);
    } else {
        law_fraction_reads_back(count % per, width);
        let d = text::fraction_digits(count % per, width);
        assert(t == text::decimal(count / per) + ("."@ + d) + unit);
    }
}

/// A span of time is told in the largest unit that it fills.
pub proof fn law_span_is_told_in_largest_unit(span: Duration)
    ensures
        ({
            let n = span.nanos as nat;
            let t = span.debug_text();
            &&& n >= 1_000_000_000 ==> tells_span(t, n, 1_000_000_000, 9, "s"@)
            &&& 1_000_000 <= n < 1_000_000_000 ==> tells_span(t, n, 1_000_000, 6, "ms"@)
            &&& 1_000 <= n < 1_000_000 ==> tells_span(t, n, 1_000, 3, "\u{b5}s"@)
            &&& n < 1_000 ==> t == text::decimal(n) + "ns"@
        }),
{
    reveal(pow);
    assert(pow(10, 3) == 1_000) by {
        reveal_with_fuel(pow, 4);
    }
    assert(pow(10, 6) == 1_000_000) by {
        reveal_with_fuel(pow, 7);
    }
    assert(pow(10, 9) == 1_000_000_000) by {
        reveal_with_fuel(pow, 10);
    }
    let n = span.nanos as nat;
    lemma_tells_span(n, 1_000_000_000, 9, "s"@);
    lemma_tells_span(n, 1_000_000, 6, "ms"@);
    lemma_tells_span(n, 1_000, 3, "\u{b5}s"@);
}

/// The names of the states.
pub proof fn law_states_have_their_names()
    ensures
        BBR3StateMachine::Startup.name() == "Startup"@,
        BBR3StateMachine::Drain.name() == "Drain"@,
        BBR3StateMachine::ProbeBWDOWN.name() == "ProbeBWDOWN"@,
        BBR3StateMachine::ProbeBWCRUISE.name() == "ProbeBWCRUISE"@,
        BBR3StateMachine::ProbeBWREFILL.name() == "ProbeBWREFILL"@,
        BBR3StateMachine::ProbeBWUP.name() == "ProbeBWUP"@,
        BBR3StateMachine::ProbeRTT.name() == "ProbeRTT"@,
{
}

/// The names of the phases.
pub proof fn law_phases_have_their_names()
    ensures
        BBR3AckPhase::Init.name() == "Init"@,
        BBR3AckPhase::ProbeFeedback.name() == "ProbeFeedback"@,
        BBR3AckPhase::ProbeStarting.name() == "ProbeStarting"@,
        BBR3AckPhase::ProbeStopping.name() == "ProbeStopping"@,
        BBR3AckPhase::Refilling.name() == "Refilling"@,
{
}

/// A flag is told as `true` or `false`.
pub proof fn law_flags_are_told()
    ensures
        text::flag(true) == "true"@,
        text::flag(false) == "false"@,
{
}

/// A variable in the line: its name, its value, and a space.
pub open spec fn entry(name: Seq<char>, value: Seq<char>) -> Seq<char> {
    (name + "="@) + (value + " "@)
}

/// A rate in the line.
pub open spec fn rate_value(rate: u64) -> Seq<char> {
    text::signed_decimal(controller::kbps_of(rate)) + "kbps"@
}

/// One more entry behind those that end in a space.
proof fn lemma_next_entry(
    told: Seq<char>,
    entries: Seq<char>,
    label: Seq<char>,
    name: Seq<char>,
    value: Seq<char>,
)
    requires
        told + " "@ == entries,
        label == " "@ + (name + "="@),
    ensures
        (told + label + value) + " "@ == entries + entry(name, value),
{
    assert(told + label =~= entries + (name + "="@));
    assert((told + label + value) + " "@ =~= (told + label) + (value + " "@));
    assert(entries + entry(name, value) =~= (entries + (name + "="@)) + (value + " "@));
}

/// One more rate behind those that end in their unit.
proof fn lemma_next_rate(
    told: Seq<char>,
    entries: Seq<char>,
    label: Seq<char>,
    name: Seq<char>,
    value: Seq<char>,
)
    requires
        (told + "kbps"@) + " "@ == entries,
        label == "kbps"@ + (" "@ + (name + "="@)),
    ensures
        ((told + label + value) + "kbps"@) + " "@ == entries + entry(name, value + "kbps"@),
{
    let unit = " "@ + (name + "="@);
    assert(told + label =~= (told + "kbps"@) + unit);
    lemma_next_entry(told + "kbps"@, entries, unit, name, value + "kbps"@);
    assert((told + label + value) + "kbps"@ =~= (told + "kbps"@) + unit + (value + "kbps"@));
}

/// The entries on the state machine, recovery and startup.
proof fn lemma_state_entries(r: Congestion)
    ensures
        ({
            let s = r.bbr3_state;
            r.state_text() == "bbr3={ "@
                + entry("state"@, s.state.name())
                + entry("in_recovery"@, text::flag(s.flags.in_recovery))
                + entry("ack_phase"@, s.ack_phase.name())
                + entry("filled_pipe"@, text::flag(s.flags.filled_pipe))
                + entry("full_bw_count"@, text::decimal(s.full_bw_count as nat))
                + entry("loss_events_in_round"@, text::decimal(s.loss_events_in_round as nat))
        }),
{
    let s = r.bbr3_state;
    reveal_strlit(" ");
    reveal_strlit("=");
    reveal_strlit("bbr3={ ");
    reveal_strlit("state");
    reveal_strlit("state=");
    reveal_strlit("in_recovery");
    reveal_strlit(" in_recovery=");
    reveal_strlit("ack_phase");
    reveal_strlit(" ack_phase=");
    reveal_strlit("filled_pipe");
    reveal_strlit(" filled_pipe=");
    reveal_strlit("full_bw_count");
    reveal_strlit(" full_bw_count=");
    reveal_strlit("loss_events_in_round");
    reveal_strlit(" loss_events_in_round=");
    let b0 = "bbr3={ "@ + "state="@ + s.state.name();
    let a0 = "bbr3={ "@ + entry("state"@, s.state.name());
    assert("state="@ =~= "state"@ + "="@);
    assert(b0 + " "@ =~= a0);
    assert(" in_recovery="@ =~= " "@ + ("in_recovery"@ + "="@));
    lemma_next_entry(b0, a0, " in_recovery="@, "in_recovery"@, text::flag(s.flags.in_recovery));
    let b1 = b0 + " in_recovery="@ + text::flag(s.flags.in_recovery);
    let a1 = a0 + entry("in_recovery"@, text::flag(s.flags.in_recovery));
    assert(" ack_phase="@ =~= " "@ + ("ack_phase"@ + "="@));
    lemma_next_entry(b1, a1, " ack_phase="@, "ack_phase"@, s.ack_phase.name());
    let b2 = b1 + " ack_phase="@ + s.ack_phase.name();
    let a2 = a1 + entry("ack_phase"@, s.ack_phase.name());
    assert(" filled_pipe="@ =~= " "@ + ("filled_pipe"@ + "="@));
    lemma_next_entry(b2, a2, " filled_pipe="@, "filled_pipe"@, text::flag(s.flags.filled_pipe));
    let b3 = b2 + " filled_pipe="@ + text::flag(s.flags.filled_pipe);
    let a3 = a2 + entry("filled_pipe"@, text::flag(s.flags.filled_pipe));
    assert(" full_bw_count="@ =~= " "@ + ("full_bw_count"@ + "="@));
    lemma_next_entry(
        b3,
        a3,
        " full_bw_count="@,
        "full_bw_count"@,
        text::decimal(s.full_bw_count as nat),
    );
    let b4 = b3 + " full_bw_count="@ + text::decimal(s.full_bw_count as nat);
    let a4 = a3 + entry("full_bw_count"@, text::decimal(s.full_bw_count as nat));
    assert(" loss_events_in_round="@ =~= " "@ + ("loss_events_in_round"@ + "="@));
    lemma_next_entry(
        b4,
        a4,
        " loss_events_in_round="@,
        "loss_events_in_round"@,
        text::decimal(s.loss_events_in_round as nat),
    );
}

/// The entries on round trips and aggregation.
proof fn lemma_path_entries(r: Congestion)
    ensures
        ({
            let s = r.bbr3_state;
            r.path_text() == entry("send_quantum"@, text::decimal(r.send_quantum as nat))
                + entry("extra_acked"@, text::decimal(s.extra_acked as nat))
                + entry("min_rtt"@, s.min_rtt.debug_text())
                + entry("round_start"@, text::flag(s.flags.round_start))
        }),
{
    let s = r.bbr3_state;
    reveal_strlit(" ");
    reveal_strlit("=");
    reveal_strlit("send_quantum");
    reveal_strlit("send_quantum=");
    reveal_strlit("extra_acked");
    reveal_strlit(" extra_acked=");
    reveal_strlit("min_rtt");
    reveal_strlit(" min_rtt=");
    reveal_strlit("round_start");
    reveal_strlit(" round_start=");
    let b0 = "send_quantum="@ + text::decimal(r.send_quantum as nat);
    let a0 = entry("send_quantum"@, text::decimal(r.send_quantum as nat));
    assert("send_quantum="@ =~= "send_quantum"@ + "="@);
    assert(b0 + " "@ =~= a0);
    assert(" extra_acked="@ =~= " "@ + ("extra_acked"@ + "="@));
    lemma_next_entry(b0, a0, " extra_acked="@, "extra_acked"@, text::decimal(s.extra_acked as nat));
    let b1 = b0 + " extra_acked="@ + text::decimal(s.extra_acked as nat);
    let a1 = a0 + entry("extra_acked"@, text::decimal(s.extra_acked as nat));
    assert(" min_rtt="@ =~= " "@ + ("min_rtt"@ + "="@));
    lemma_next_entry(b1, a1, " min_rtt="@, "min_rtt"@, s.min_rtt.debug_text());
    let b2 = b1 + " min_rtt="@ + s.min_rtt.debug_text();
    let a2 = a1 + entry("min_rtt"@, s.min_rtt.debug_text());
    assert(" round_start="@ =~= " "@ + ("round_start"@ + "="@));
    lemma_next_entry(b2, a2, " round_start="@, "round_start"@, text::flag(s.flags.round_start));
}

/// The entries on volumes in flight and probing.
proof fn lemma_volume_entries(r: Congestion)
    ensures
        ({
            let s = r.bbr3_state;
            r.volume_text() == entry("inflight_lo"@, text::decimal(s.inflight_lo as nat))
                + entry("inflight_hi"@, text::decimal(s.inflight_hi as nat))
                + entry("max_inflight"@, text::decimal(s.max_inflight as nat))
                + entry("probe_up_cnt"@, text::decimal(s.probe_up_cnt as nat))
                + entry("bw_probe_samples"@, text::flag(s.flags.bw_probe_samples))
                + "}"@
        }),
{
    let s = r.bbr3_state;
    reveal_strlit(" ");
    reveal_strlit("=");
    reveal_strlit("inflight_lo");
    reveal_strlit("inflight_lo=");
    reveal_strlit("inflight_hi");
    reveal_strlit(" inflight_hi=");
    reveal_strlit("max_inflight");
    reveal_strlit(" max_inflight=");
    reveal_strlit("probe_up_cnt");
    reveal_strlit("bw_probe_samples");
    reveal_strlit(" bw_probe_samples=");
    reveal_strlit("probe_up_cnt=");
    let b0 = "inflight_lo="@ + text::decimal(s.inflight_lo as nat);
    let a0 = entry("inflight_lo"@, text::decimal(s.inflight_lo as nat));
    assert("inflight_lo="@ =~= "inflight_lo"@ + "="@);
    assert(b0 + " "@ =~= a0);
    assert(" inflight_hi="@ =~= " "@ + ("inflight_hi"@ + "="@));
    lemma_next_entry(b0, a0, " inflight_hi="@, "inflight_hi"@, text::decimal(s.inflight_hi as nat));
    let b1 = b0 + " inflight_hi="@ + text::decimal(s.inflight_hi as nat);
    let a1 = a0 + entry("inflight_hi"@, text::decimal(s.inflight_hi as nat));
    assert(" max_inflight="@ =~= " "@ + ("max_inflight"@ + "="@));
    lemma_next_entry(
        b1,
        a1,
        " max_inflight="@,
        "max_inflight"@,
        text::decimal(s.max_inflight as nat),
    );
    let b2 = b1 + " max_inflight="@ + text::decimal(s.max_inflight as nat);
    let a2 = a1 + entry("max_inflight"@, text::decimal(s.max_inflight as nat));
    let gap = " "@ + "probe_up_cnt="@;
    assert("probe_up_cnt="@ =~= "probe_up_cnt"@ + "="@);
    lemma_next_entry(b2, a2, gap, "probe_up_cnt"@, text::decimal(s.probe_up_cnt as nat));
    let b3 = b2 + " "@ + "probe_up_cnt="@ + text::decimal(s.probe_up_cnt as nat);
    assert(b2 + " "@ + "probe_up_cnt="@ =~= b2 + gap);
    let a3 = a2 + entry("probe_up_cnt"@, text::decimal(s.probe_up_cnt as nat));
    assert(" bw_probe_samples="@ =~= " "@ + ("bw_probe_samples"@ + "="@));
    lemma_next_entry(
        b3,
        a3,
        " bw_probe_samples="@,
        "bw_probe_samples"@,
        text::flag(s.flags.bw_probe_samples),
    );
}

/// The entries on bandwidths.
proof fn lemma_rate_entries(r: Congestion)
    ensures
        ({
            let s = r.bbr3_state;
            r.rate_text() == entry("max_bw"@, rate_value(s.max_bw))
                + entry("bw_lo"@, rate_value(s.bw_lo))
                + entry("bw"@, rate_value(s.bw))
                + entry("bw_hi"@, rate_value(s.bw_hi))
                + entry("full_bw"@, rate_value(s.full_bw))
        }),
{
    let s = r.bbr3_state;
    reveal_strlit(" ");
    reveal_strlit("=");
    reveal_strlit("kbps");
    reveal_strlit("kbps ");
    reveal_strlit("max_bw");
    reveal_strlit("max_bw=");
    reveal_strlit("bw_lo");
    reveal_strlit("kbps bw_lo=");
    reveal_strlit("bw");
    reveal_strlit("kbps bw=");
    reveal_strlit("bw_hi");
    reveal_strlit("kbps bw_hi=");
    reveal_strlit("full_bw");
    reveal_strlit("kbps full_bw=");
    let b0 = "max_bw="@ + text::signed_decimal(controller::kbps_of(s.max_bw));
    let a0 = entry("max_bw"@, rate_value(s.max_bw));
    assert("max_bw="@ =~= "max_bw"@ + "="@);
    assert((b0 + "kbps"@) + " "@ =~= a0);
    assert("kbps bw_lo="@ =~= "kbps"@ + (" "@ + ("bw_lo"@ + "="@)));
    lemma_next_rate(
        b0,
        a0,
        "kbps bw_lo="@,
        "bw_lo"@,
        text::signed_decimal(controller::kbps_of(s.bw_lo)),
    );
    let b1 = b0 + "kbps bw_lo="@ + text::signed_decimal(controller::kbps_of(s.bw_lo));
    let a1 = a0 + entry("bw_lo"@, rate_value(s.bw_lo));
    assert("kbps bw="@ =~= "kbps"@ + (" "@ + ("bw"@ + "="@)));
    lemma_next_rate(b1, a1, "kbps bw="@, "bw"@, text::signed_decimal(controller::kbps_of(s.bw)));
    let b2 = b1 + "kbps bw="@ + text::signed_decimal(controller::kbps_of(s.bw));
    let a2 = a1 + entry("bw"@, rate_value(s.bw));
    assert("kbps bw_hi="@ =~= "kbps"@ + (" "@ + ("bw_hi"@ + "="@)));
    lemma_next_rate(
        b2,
        a2,
        "kbps bw_hi="@,
        "bw_hi"@,
        text::signed_decimal(controller::kbps_of(s.bw_hi)),
    );
    let b3 = b2 + "kbps bw_hi="@ + text::signed_decimal(controller::kbps_of(s.bw_hi));
    let a3 = a2 + entry("bw_hi"@, rate_value(s.bw_hi));
    assert("kbps full_bw="@ =~= "kbps"@ + (" "@ + ("full_bw"@ + "="@)));
    lemma_next_rate(
        b3,
        a3,
        "kbps full_bw="@,
        "full_bw"@,
        text::signed_decimal(controller::kbps_of(s.full_bw)),
    );
    let b4 = b3 + "kbps full_bw="@ + text::signed_decimal(controller::kbps_of(s.full_bw));
    assert("kbps "@ =~= "kbps"@ + " "@);
    assert(b4 + "kbps "@ =~= (b4 + "kbps"@) + " "@);
}

/// The line tells every variable once, behind its name, between its braces: what stands in
/// it is what the controller holds.
pub proof fn law_line_tells_every_variable(r: Congestion)
    ensures
        ({
            let s = r.bbr3_state;
            let machine = "bbr3={ "@
                + entry("state"@, s.state.name())
                + entry("in_recovery"@, text::flag(s.flags.in_recovery))
                + entry("ack_phase"@, s.ack_phase.name())
                + entry("filled_pipe"@, text::flag(s.flags.filled_pipe))
                + entry("full_bw_count"@, text::decimal(s.full_bw_count as nat))
                + entry("loss_events_in_round"@, text::decimal(s.loss_events_in_round as nat));
            let path = entry("send_quantum"@, text::decimal(r.send_quantum as nat))
                + entry("extra_acked"@, text::decimal(s.extra_acked as nat))
                + entry("min_rtt"@, s.min_rtt.debug_text())
                + entry("round_start"@, text::flag(s.flags.round_start));
            let rates = entry("max_bw"@, rate_value(s.max_bw))
                + entry("bw_lo"@, rate_value(s.bw_lo))
                + entry("bw"@, rate_value(s.bw))
                + entry("bw_hi"@, rate_value(s.bw_hi))
                + entry("full_bw"@, rate_value(s.full_bw));
            let volumes = entry("inflight_lo"@, text::decimal(s.inflight_lo as nat))
                + entry("inflight_hi"@, text::decimal(s.inflight_hi as nat))
                + entry("max_inflight"@, text::decimal(s.max_inflight as nat))
                + entry("probe_up_cnt"@, text::decimal(s.probe_up_cnt as nat))
                + entry("bw_probe_samples"@, text::flag(s.flags.bw_probe_samples))
                + "}"@;
            r.state_text() + r.path_text() + r.rate_text() + r.volume_text() == machine + path
                + rates + volumes
        }),
{
    lemma_state_entries(r);
    lemma_path_entries(r);
    lemma_rate_entries(r);
    lemma_volume_entries(r);
}

}
