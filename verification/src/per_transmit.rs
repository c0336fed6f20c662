//! BBR3 functions when transmitting packets.

use vstd::prelude::*;

use crate::congestion::Congestion;
use crate::float64::F64;
use crate::float64;
use crate::per_ack;
use crate::state::{BBR3StateMachine, Flags, State};
use crate::steps::ControllerSteps;
use crate::time::Instant;

verus! {

impl Congestion {
    /// Whether a transmission ends an idle period: nothing is in flight because the
    /// application had nothing to send.
    pub open spec fn restarts_from_idle(self, bytes_in_flight: usize) -> bool {
        bytes_in_flight == 0 && self.delivery_rate.app_limited
    }

    /// The controller once it has noted a restart from idle.
    pub open spec fn idle_restart_noted(self, now: Instant) -> Congestion {
        self.with_state(
            State {
                flags: Flags { idle_restart: true, ..self.bbr3_state.flags },
                extra_acked_interval_start: now,
                ..self.bbr3_state
            },
        )
    }
}

/// What a restart from idle may lead to: pacing at the estimated bandwidth in a ProbeBW
/// state, a check for the end of ProbeRTT in that state, and no more in the others.
pub open spec fn restart_outcome<S: ControllerSteps>(
    r: Congestion,
    bytes_in_flight: usize,
    now: Instant,
    steps: S,
    outcome: Congestion,
) -> bool {
    let noted = r.idle_restart_noted(now);
    if !r.restarts_from_idle(bytes_in_flight) {
        outcome == r
    } else if r.in_probe_bw() {
        call_ensures(
            S::bbr3_set_pacing_rate_with_gain,
            (&steps, noted, F64 { bits: float64::ONE }),
            outcome,
        )
    } else if r.bbr3_state.state == BBR3StateMachine::ProbeRTT {
        call_ensures(S::bbr3_check_probe_rtt_done, (&steps, noted, now), outcome)
    } else {
        outcome == noted
    }
}

/// Handles a transmission that may end an idle period.
#[verifier::rlimit(30)]
pub fn bbr3_handle_restart_from_idle<S: ControllerSteps>(
    r: &mut Congestion,
    bytes_in_flight: usize,
    now: Instant,
    steps: &S,
)
    ensures
        restart_outcome(*old(r), bytes_in_flight, now, *steps, *final(r)),
{
    if bytes_in_flight == 0 && r.delivery_rate.app_limited {
        r.bbr3_state.flags.idle_restart = true;
        r.bbr3_state.extra_acked_interval_start = now;
        if per_ack::bbr3_is_in_a_probe_bw_state(r) {
            *r = steps.bbr3_set_pacing_rate_with_gain(*r, F64 { bits: float64::ONE });
        } else if r.bbr3_state.state == BBR3StateMachine::ProbeRTT {
            *r = steps.bbr3_check_probe_rtt_done(*r, now);
        }
    }
}

/// The steps on every transmission.
pub fn bbr3_on_transmit<S: ControllerSteps>(
    r: &mut Congestion,
    bytes_in_flight: usize,
    now: Instant,
    steps: &S,
)
    ensures
        restart_outcome(*old(r), bytes_in_flight, now, *steps, *final(r)),
{
    bbr3_handle_restart_from_idle(r, bytes_in_flight, now, steps);
}

}
