//! The steps of the algorithm that a user of this crate supplies.

use vstd::prelude::*;

use crate::congestion::{Acked, Congestion};
use crate::float64::F64;
use crate::time::Instant;

verus! {

/// Path model, pacing and initialization: the steps that run between those of this
/// crate. Each takes the controller as it stands and hands back what it makes of it.
/// Nothing is assumed of a step beyond what a function that calls it demands.
pub trait ControllerSteps {
    /// Puts a new controller into Startup.
    fn bbr3_init(&self, r: Congestion) -> Congestion;

    /// Updates the round count and the windowed maximum bandwidth.
    fn bbr3_update_max_bw(&self, r: Congestion, packet: &Acked) -> Congestion;

    /// Updates the path model and the state machine for one acknowledged packet.
    fn bbr3_update_model_and_state(
        &self,
        r: Congestion,
        packet: &Acked,
        bytes_in_flight: usize,
        now: Instant,
    ) -> Congestion;

    /// Sets pacing rate, send quantum and window from the model.
    fn bbr3_update_control_parameters(
        &self,
        r: Congestion,
        bytes_in_flight: usize,
        now: Instant,
    ) -> Congestion;

    /// Sets the pacing rate to the bandwidth times `pacing_gain`.
    fn bbr3_set_pacing_rate_with_gain(&self, r: Congestion, pacing_gain: F64) -> Congestion;

    /// Leaves ProbeRTT where it has lasted long enough.
    fn bbr3_check_probe_rtt_done(&self, r: Congestion, now: Instant) -> Congestion;
}

}
