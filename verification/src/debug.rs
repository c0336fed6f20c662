//! The controller as one line of text.

use vstd::prelude::*;
use vstd::string::*;

use crate::congestion::Congestion;
use crate::controller;
use crate::state::{BBR3AckPhase, BBR3StateMachine};
use crate::text;

verus! {

impl BBR3StateMachine {
    /// The name of a state.
    pub open spec fn name(self) -> Seq<char> {
        match self {
            BBR3StateMachine::Startup => "Startup"@,
            BBR3StateMachine::Drain => "Drain"@,
            BBR3StateMachine::ProbeBWDOWN => "ProbeBWDOWN"@,
            BBR3StateMachine::ProbeBWCRUISE => "ProbeBWCRUISE"@,
            BBR3StateMachine::ProbeBWREFILL => "ProbeBWREFILL"@,
            BBR3StateMachine::ProbeBWUP => "ProbeBWUP"@,
            BBR3StateMachine::ProbeRTT => "ProbeRTT"@,
        }
    }

    /// The name of a state.
    pub fn as_str(&self) -> (t: &'static str)
        ensures
            t@ == self.name(),
    {
        match *self {
            BBR3StateMachine::Startup => "Startup",
            BBR3StateMachine::Drain => "Drain",
            BBR3StateMachine::ProbeBWDOWN => "ProbeBWDOWN",
            BBR3StateMachine::ProbeBWCRUISE => "ProbeBWCRUISE",
            BBR3StateMachine::ProbeBWREFILL => "ProbeBWREFILL",
            BBR3StateMachine::ProbeBWUP => "ProbeBWUP",
            BBR3StateMachine::ProbeRTT => "ProbeRTT",
        }
    }
}

impl BBR3AckPhase {
    /// The name of a phase.
    pub open spec fn name(self) -> Seq<char> {
        match self {
            BBR3AckPhase::Init => "Init"@,
            BBR3AckPhase::ProbeFeedback => "ProbeFeedback"@,
            BBR3AckPhase::ProbeStarting => "ProbeStarting"@,
            BBR3AckPhase::ProbeStopping => "ProbeStopping"@,
            BBR3AckPhase::Refilling => "Refilling"@,
        }
    }

    /// The name of a phase.
    pub fn as_str(&self) -> (t: &'static str)
        ensures
            t@ == self.name(),
    {
        match *self {
            BBR3AckPhase::Init => "Init",
            BBR3AckPhase::ProbeFeedback => "ProbeFeedback",
            BBR3AckPhase::ProbeStarting => "ProbeStarting",
            BBR3AckPhase::ProbeStopping => "ProbeStopping",
            BBR3AckPhase::Refilling => "Refilling",
        }
    }
}

impl Congestion {
    /// State machine, recovery and startup.
    pub open spec fn state_text(self) -> Seq<char> {
        let s = self.bbr3_state;
        "bbr3={ "@ + "state="@ + s.state.name() + " in_recovery="@ + text::flag(
            s.flags.in_recovery,
        ) + " ack_phase="@ + s.ack_phase.name() + " filled_pipe="@ + text::flag(
            s.flags.filled_pipe,
        ) + " full_bw_count="@ + text::decimal(s.full_bw_count as nat) + " loss_events_in_round="@
            + text::decimal(s.loss_events_in_round as nat) + " "@
    }

    /// Round trips and aggregation.
    pub open spec fn path_text(self) -> Seq<char> {
        let s = self.bbr3_state;
        "send_quantum="@ + text::decimal(self.send_quantum as nat) + " extra_acked="@
            + text::decimal(s.extra_acked as nat) + " min_rtt="@ + s.min_rtt.debug_text()
            + " round_start="@ + text::flag(s.flags.round_start) + " "@
    }

    /// Bandwidths.
    pub open spec fn rate_text(self) -> Seq<char> {
        let s = self.bbr3_state;
        "max_bw="@ + text::signed_decimal(controller::kbps_of(s.max_bw)) + "kbps bw_lo="@
            + text::signed_decimal(controller::kbps_of(s.bw_lo)) + "kbps bw="@
            + text::signed_decimal(controller::kbps_of(s.bw)) + "kbps bw_hi="@
            + text::signed_decimal(controller::kbps_of(s.bw_hi)) + "kbps full_bw="@
            + text::signed_decimal(controller::kbps_of(s.full_bw)) + "kbps "@
    }

    /// Volumes in flight and probing.
    pub open spec fn volume_text(self) -> Seq<char> {
        let s = self.bbr3_state;
        "inflight_lo="@ + text::decimal(s.inflight_lo as nat) + " inflight_hi="@ + text::decimal(
            s.inflight_hi as nat,
        ) + " max_inflight="@ + text::decimal(s.max_inflight as nat) + " "@ + "probe_up_cnt="@
            + text::decimal(s.probe_up_cnt as nat) + " bw_probe_samples="@ + text::flag(
            s.flags.bw_probe_samples,
        ) + " "@ + "}"@
    }
}

/// Appends a label and a whole number.
fn push_number(out: &mut String, label: &str, n: usize)
    ensures
        final(out)@ == old(out)@ + label@ + text::decimal(n as nat),
{
    out.append(label);
    text::push_decimal(out, n as u128);
}

/// Appends a label and a flag.
fn push_flag(out: &mut String, label: &str, b: bool)
    ensures
        final(out)@ == old(out)@ + label@ + text::flag(b),
{
    out.append(label);
    text::push_flag(out, b);
}

/// Appends a label and a rate in kbit/sec.
fn push_rate(out: &mut String, label: &str, rate: u64)
    ensures
        final(out)@ == old(out)@ + label@ + text::signed_decimal(controller::kbps_of(rate)),
{
    out.append(label);
    text::push_signed_decimal(out, controller::rate_kbps(rate));
}

/// State machine, recovery and startup.
fn state_line(r: &Congestion) -> (out: String)
    ensures
        out@ == r.state_text(),
{
    let mut out: String = "bbr3={ ".to_owned();
    out.append("state=");
    out.append(r.bbr3_state.state.as_str());
    push_flag(&mut out, " in_recovery=", r.bbr3_state.flags.in_recovery);
    out.append(" ack_phase=");
    out.append(r.bbr3_state.ack_phase.as_str());
    push_flag(&mut out, " filled_pipe=", r.bbr3_state.flags.filled_pipe);
    push_number(&mut out, " full_bw_count=", r.bbr3_state.full_bw_count);
    push_number(&mut out, " loss_events_in_round=", r.bbr3_state.loss_events_in_round);
    out.append(" ");
    out
}

/// Round trips and aggregation.
fn path_line(r: &Congestion) -> (out: String)
    ensures
        out@ == r.path_text(),
{
    let mut out: String = "send_quantum=".to_owned();
    text::push_decimal(&mut out, r.send_quantum as u128);
    push_number(&mut out, " extra_acked=", r.bbr3_state.extra_acked);
    out.append(" min_rtt=");
    text::push_duration(&mut out, r.bbr3_state.min_rtt);
    push_flag(&mut out, " round_start=", r.bbr3_state.flags.round_start);
    out.append(" ");
    out
}

/// Bandwidths.
fn rate_line(r: &Congestion) -> (out: String)
    ensures
        out@ == r.rate_text(),
{
    let mut out: String = "max_bw=".to_owned();
    text::push_signed_decimal(&mut out, controller::rate_kbps(r.bbr3_state.max_bw));
    push_rate(&mut out, "kbps bw_lo=", r.bbr3_state.bw_lo);
    push_rate(&mut out, "kbps bw=", r.bbr3_state.bw);
    push_rate(&mut out, "kbps bw_hi=", r.bbr3_state.bw_hi);
    push_rate(&mut out, "kbps full_bw=", r.bbr3_state.full_bw);
    out.append("kbps ");
    out
}

/// Volumes in flight and probing.
fn volume_line(r: &Congestion) -> (out: String)
    ensures
        out@ == r.volume_text(),
{
    let mut out: String = "inflight_lo=".to_owned();
    text::push_decimal(&mut out, r.bbr3_state.inflight_lo as u128);
    push_number(&mut out, " inflight_hi=", r.bbr3_state.inflight_hi);
    push_number(&mut out, " max_inflight=", r.bbr3_state.max_inflight);
    out.append(" ");
    push_number(&mut out, "probe_up_cnt=", r.bbr3_state.probe_up_cnt);
    push_flag(&mut out, " bw_probe_samples=", r.bbr3_state.flags.bw_probe_samples);
    out.append(" ");
    out.append("}");
    out
}

/// The controller as one line of text.
pub fn debug_fmt(r: &Congestion) -> (out: String)
    ensures
        out@ == r.state_text() + r.path_text() + r.rate_text() + r.volume_text(),
{
    let mut out: String = state_line(r);
    out.append(path_line(r).as_str());
    out.append(rate_line(r).as_str());
    out.append(volume_line(r).as_str());
    out
}

}
