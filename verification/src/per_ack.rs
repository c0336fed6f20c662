//! What the window and the in-flight target are while ACKs come in.

use vstd::prelude::*;

use crate::congestion::Congestion;
use crate::state::BBR3StateMachine;

verus! {

impl Congestion {
    /// The window to come back to after recovery or ProbeRTT: the current one, or the
    /// one saved before where the current one is already cut.
    pub open spec fn window_to_save(self) -> usize {
        if self.bbr3_state.flags.in_recovery || self.bbr3_state.state
            == BBR3StateMachine::ProbeRTT {
            if self.congestion_window >= self.bbr3_state.prior_cwnd {
                self.congestion_window
            } else {
                self.bbr3_state.prior_cwnd
            }
        } else {
            self.congestion_window
        }
    }

    /// The volume of data to aim for: the smaller of the BDP and the window.
    pub open spec fn target_inflight(self) -> usize {
        if self.bbr3_state.bdp <= self.congestion_window {
            self.bbr3_state.bdp
        } else {
            self.congestion_window
        }
    }

    /// Whether the flow is in one of the ProbeBW states.
    pub open spec fn in_probe_bw(self) -> bool {
        match self.bbr3_state.state {
            BBR3StateMachine::ProbeBWDOWN => true,
            BBR3StateMachine::ProbeBWCRUISE => true,
            BBR3StateMachine::ProbeBWREFILL => true,
            BBR3StateMachine::ProbeBWUP => true,
            _ => false,
        }
    }

    /// The window is at least the saved one again.
    pub open spec fn with_window_restored(self) -> Congestion {
        Congestion {
            congestion_window: if self.congestion_window >= self.bbr3_state.prior_cwnd {
                self.congestion_window
            } else {
                self.bbr3_state.prior_cwnd
            },
            ..self
        }
    }
}

/// The window to come back to after recovery or ProbeRTT.
pub fn bbr3_save_cwnd(r: &Congestion) -> (cwnd: usize)
    ensures
        cwnd == r.window_to_save(),
{
    if !r.bbr3_state.flags.in_recovery && r.bbr3_state.state != BBR3StateMachine::ProbeRTT {
        r.congestion_window
    } else {
        r.congestion_window.max(r.bbr3_state.prior_cwnd)
    }
}

/// Brings the window back to at least the saved one.
pub fn bbr3_restore_cwnd(r: &mut Congestion)
    ensures
        *final(r) == old(r).with_window_restored(),
{
    r.congestion_window = r.congestion_window.max(r.bbr3_state.prior_cwnd);
}

/// The volume of data to aim for.
pub fn bbr3_target_inflight(r: &Congestion) -> (target: usize)
    ensures
        target == r.target_inflight(),
{
    r.bbr3_state.bdp.min(r.congestion_window)
}

/// Whether the flow is in one of the ProbeBW states.
pub fn bbr3_is_in_a_probe_bw_state(r: &Congestion) -> (b: bool)
    ensures
        b == r.in_probe_bw(),
{
    let state: BBR3StateMachine = r.bbr3_state.state;
    state == BBR3StateMachine::ProbeBWDOWN || state == BBR3StateMachine::ProbeBWCRUISE || state
        == BBR3StateMachine::ProbeBWREFILL || state == BBR3StateMachine::ProbeBWUP
}

}
