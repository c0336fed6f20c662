//! BBR3 functions on every packet loss event, and the congestion signals that ACKs
//! collect over a round.

use vstd::prelude::*;

use crate::congestion::{Acked, Congestion, DeliveryRate, EcnCounts, Sent};
use crate::float64::F64;
use crate::float64;
use crate::per_ack;
use crate::state::{BBR3StateMachine, Flags, State};
use crate::state;
use crate::steps::ControllerSteps;
use crate::time::{Duration, Instant};
use crate::time;

verus! {

/// The larger of two volumes.
pub open spec fn larger(a: nat, b: nat) -> nat {
    if a >= b {
        a
    } else {
        b
    }
}

/// The larger of two volumes.
pub(crate) fn larger_usize(a: usize, b: usize) -> (m: usize)
    ensures
        m == larger(a as nat, b as nat),
{
    if a >= b {
        a
    } else {
        b
    }
}

/// The larger of two rates.
fn larger_u64(a: u64, b: u64) -> (m: u64)
    ensures
        m == larger(a as nat, b as nat),
{
    if a >= b {
        a
    } else {
        b
    }
}

impl Congestion {
    /// This controller with other state variables.
    pub open spec fn with_state(self, bbr3_state: State) -> Congestion {
        Congestion { bbr3_state, ..self }
    }

    /// The loss rate that the configuration asks to tolerate.
    pub open spec fn configured_loss_threshold(self) -> F64 {
        match self.satellite_loss_threshold {
            Some(thresh) => thresh,
            None => F64 { bits: state::LOSS_THRESH },
        }
    }

    /// Whether the configuration tolerates more loss than the default and there is a
    /// round trip to hold against the minimum.
    pub open spec fn rtt_guard_applies(self) -> bool {
        &&& self.configured_loss_threshold().exceeds(F64 { bits: state::LOSS_THRESH })
        &&& self.bbr3_state.min_rtt.nanos != time::DURATION_MAX
        &&& self.delivery_rate.sample.rtt.nanos != 0
    }

    /// The minimum round trip can be scaled where it is held against the latest one.
    pub open spec fn loss_threshold_defined(self) -> bool {
        self.rtt_guard_applies() ==> self.bbr3_state.min_rtt.scales_by(
            F64 { bits: state::RTT_INFLATION_LIMIT },
        )
    }

    /// Whether the latest round trip lies more than 30% above the minimum, which stands
    /// for real congestion.
    pub open spec fn rtt_inflated(self) -> bool {
        self.rtt_guard_applies() && self.delivery_rate.sample.rtt.nanos
            > self.bbr3_state.min_rtt.scaled(F64 { bits: state::RTT_INFLATION_LIMIT })
    }

    /// The loss rate tolerated now.
    pub open spec fn loss_threshold(self) -> F64 {
        if self.rtt_inflated() {
            F64 { bits: state::LOSS_THRESH }
        } else {
            self.configured_loss_threshold()
        }
    }

    /// The volume of loss tolerated now, of what was in flight.
    pub open spec fn tolerated_loss(self) -> nat {
        F64::of_nat(self.bbr3_state.tx_in_flight as nat).product(self.loss_threshold()).whole(
            usize::MAX as nat,
        )
    }

    /// Whether more was lost than is tolerated.
    pub open spec fn inflight_too_high(self) -> bool {
        self.bbr3_state.lost > self.tolerated_loss()
    }

    /// What inflight_hi is cut to: what was in flight, and at least the target times
    /// `BETA`.
    pub open spec fn inflight_cap(self) -> nat {
        larger(
            self.bbr3_state.tx_in_flight as nat,
            F64::of_nat(self.target_inflight() as nat).product(F64 { bits: state::BETA }).whole(
                usize::MAX as nat,
            ),
        )
    }

    /// The controller once it has checked what is in flight: it reacts to too much where
    /// there are bandwidth probe samples.
    pub open spec fn inflight_checked(self) -> Congestion {
        if self.inflight_too_high() && self.bbr3_state.flags.bw_probe_samples {
            self.inflight_too_high_handled()
        } else {
            self
        }
    }

    /// The reaction to too much data in flight. A frozen window does not react. Probing
    /// goes on in ProbeBW_UP and stops in every other state. The cap moves unless the
    /// sample was limited by the application.
    pub open spec fn inflight_too_high_handled(self) -> Congestion {
        if self.cwnd_frozen {
            self
        } else {
            self.with_state(
                State {
                    flags: Flags {
                        bw_probe_samples: self.bbr3_state.flags.bw_probe_samples
                            && self.bbr3_state.state == BBR3StateMachine::ProbeBWUP,
                        ..self.bbr3_state.flags
                    },
                    inflight_hi: if self.delivery_rate.sample.is_app_limited {
                        self.bbr3_state.inflight_hi
                    } else {
                        self.inflight_cap() as usize
                    },
                    ..self.bbr3_state
                },
            )
        }
    }
}

/// The effective loss threshold: the configured one, or the default one while the round
/// trip is inflated.
pub fn effective_loss_threshold(r: &Congestion) -> (thresh: F64)
    requires
        r.loss_threshold_defined(),
    ensures
        thresh == r.loss_threshold(),
{
    let standard: F64 = F64 { bits: state::LOSS_THRESH };
    let thresh: F64 = match r.satellite_loss_threshold {
        Some(thresh) => thresh,
        None => standard,
    };
    if thresh.is_above(standard) {
        let min_rtt: Duration = r.bbr3_state.min_rtt;
        if min_rtt.nanos != time::DURATION_MAX {
            let latest_rtt: Duration = r.delivery_rate.sample.rtt;
            if latest_rtt.nanos != 0 && latest_rtt.nanos > min_rtt.mul_f64(
                F64 { bits: state::RTT_INFLATION_LIMIT },
            ).nanos {
                return standard;
            }
        }
    }
    thresh
}

/// Whether `effective_loss_threshold` accepts the controller.
pub fn is_loss_threshold_defined(r: &Congestion) -> (b: bool)
    ensures
        b == r.loss_threshold_defined(),
{
    let standard: F64 = F64 { bits: state::LOSS_THRESH };
    let thresh: F64 = match r.satellite_loss_threshold {
        Some(thresh) => thresh,
        None => standard,
    };
    !thresh.is_above(standard) || r.bbr3_state.min_rtt.nanos == time::DURATION_MAX
        || r.delivery_rate.sample.rtt.nanos == 0 || r.bbr3_state.min_rtt.can_scale_by(
        F64 { bits: state::RTT_INFLATION_LIMIT },
    )
}

/// Whether more was lost than is tolerated.
pub fn bbr3_is_inflight_too_high(r: &mut Congestion) -> (b: bool)
    requires
        old(r).loss_threshold_defined(),
    ensures
        b == old(r).inflight_too_high(),
        *final(r) == *old(r),
{
    let thresh: F64 = effective_loss_threshold(r);
    r.bbr3_state.lost > F64::from_usize(r.bbr3_state.tx_in_flight).times(thresh).to_usize()
}

/// What inflight_hi is cut to.
fn inflight_cap(r: &Congestion) -> (cap: usize)
    ensures
        cap == r.inflight_cap(),
{
    let target: usize = per_ack::bbr3_target_inflight(r);
    larger_usize(
        r.bbr3_state.tx_in_flight,
        F64::from_usize(target).times(F64 { bits: state::BETA }).to_usize(),
    )
}

/// Reacts to too much data in flight.
#[verifier::rlimit(30)]
pub fn bbr3_handle_inflight_too_high(r: &mut Congestion, _now: Instant)
    ensures
        *final(r) == old(r).inflight_too_high_handled(),
{
    if r.cwnd_frozen {
        return;
    }
    // Probing goes on in ProbeBW_UP: stopping it here would leave that state before the
    // available bandwidth is used.
    let keeps_probing: bool = r.bbr3_state.flags.bw_probe_samples && r.bbr3_state.state
        == BBR3StateMachine::ProbeBWUP;
    let inflight_hi: usize = if r.delivery_rate.sample.is_app_limited {
        r.bbr3_state.inflight_hi
    } else {
        inflight_cap(r)
    };
    r.bbr3_state.flags.bw_probe_samples = keeps_probing;
    r.bbr3_state.inflight_hi = inflight_hi;
}

/// Whether inflight is too high, with the reaction to it where there are bandwidth probe
/// samples.
pub fn bbr3_check_inflight_too_high(r: &mut Congestion, now: Instant) -> (b: bool)
    requires
        old(r).loss_threshold_defined(),
    ensures
        b == old(r).inflight_too_high(),
        *final(r) == old(r).inflight_checked(),
{
    if bbr3_is_inflight_too_high(r) {
        if r.bbr3_state.flags.bw_probe_samples {
            bbr3_handle_inflight_too_high(r, now);
        }
        return true;
    }
    false
}

impl Congestion {
    /// The controller once it has noted what a lost packet says about the path.
    pub open spec fn loss_noted(self, packet: Sent, lost_bytes: usize) -> Congestion {
        Congestion {
            bbr3_state: State {
                tx_in_flight: packet.tx_in_flight,
                lost: lost_bytes,
                ..self.bbr3_state
            },
            delivery_rate: DeliveryRate {
                app_limited: packet.is_app_limited,
                ..self.delivery_rate
            },
            ..self
        }
    }

    /// The minimum round trip can be scaled where it is held against the gap between
    /// two losses.
    pub open spec fn loss_gap_defined(self) -> bool {
        self.bbr3_state.last_loss_time is Some && self.bbr3_state.min_rtt.nanos
            != time::DURATION_MAX ==> self.bbr3_state.min_rtt.scales_by(
            F64 { bits: state::ISOLATED_LOSS_GAP },
        )
    }

    /// Whether a loss at `now` stands alone: the first one does, and one that comes more
    /// than two minimum round trips after the last.
    pub open spec fn loss_isolated(self, now: Instant) -> bool {
        match self.bbr3_state.last_loss_time {
            Some(last) => self.bbr3_state.min_rtt.nanos != time::DURATION_MAX && now.since(last)
                > self.bbr3_state.min_rtt.scaled(F64 { bits: state::ISOLATED_LOSS_GAP }),
            None => true,
        }
    }

    /// Whether a loss at `now` is taken for a bit error.
    pub open spec fn loss_is_bit_error(self, now: Instant) -> bool {
        self.satellite_loss_discrimination && self.loss_isolated(now)
    }

    /// The controller once it has told bit errors from congestion for a loss at `now`.
    /// Only discrimination keeps track of when losses come and of how many stood alone; a
    /// loss that is not taken for a bit error counts as congestion.
    pub open spec fn loss_classified(self, now: Instant) -> Congestion {
        self.with_state(
            State {
                last_loss_time: if self.satellite_loss_discrimination {
                    Some(now)
                } else {
                    self.bbr3_state.last_loss_time
                },
                consecutive_isolated_losses: if !self.satellite_loss_discrimination {
                    self.bbr3_state.consecutive_isolated_losses
                } else if self.loss_isolated(now) {
                    (self.bbr3_state.consecutive_isolated_losses + 1) as u32
                } else {
                    0
                },
                congestion_losses_in_round: if self.loss_is_bit_error(now) {
                    self.bbr3_state.congestion_losses_in_round
                } else {
                    (self.bbr3_state.congestion_losses_in_round + 1) as usize
                },
                ..self.bbr3_state
            },
        )
    }

    /// The counter that a loss at `now` adds to has room for it.
    pub open spec fn loss_countable(self, now: Instant) -> bool {
        &&& self.satellite_loss_discrimination ==> self.loss_gap_defined()
        &&& if self.loss_is_bit_error(now) {
            self.bbr3_state.consecutive_isolated_losses < u32::MAX
        } else {
            self.bbr3_state.congestion_losses_in_round < usize::MAX
        }
    }

    /// How much of what follows the volume in flight before a lost packet of `size`
    /// bytes could be lost until the threshold is met: the share of loss tolerated there,
    /// less what was lost already, over the share that must arrive.
    pub open spec fn lost_prefix(self, size: usize) -> F64 {
        let thresh = self.loss_threshold();
        thresh.product(F64::of_nat((self.bbr3_state.tx_in_flight - size) as nat)).difference(
            F64::of_nat((self.bbr3_state.lost - size) as nat),
        ).quotient(F64 { bits: float64::ONE }.difference(thresh))
    }

    /// The volume in flight at which the loss of a packet of `size` bytes met the
    /// threshold.
    pub open spec fn inflight_at_threshold(self, size: usize) -> nat {
        (self.bbr3_state.tx_in_flight - size) as nat + self.lost_prefix(size).whole(
            usize::MAX as nat,
        )
    }

    /// The packet is part of what was in flight and of what was lost, and the volume
    /// that met the threshold can be counted.
    pub open spec fn threshold_inflight_defined(self, size: usize) -> bool {
        &&& self.loss_threshold_defined()
        &&& size <= self.bbr3_state.tx_in_flight
        &&& size <= self.bbr3_state.lost
        &&& self.inflight_at_threshold(size) <= usize::MAX
    }

    /// The response to a loss that counts as congestion.
    pub open spec fn loss_responded(self, packet: Sent) -> Congestion {
        if self.inflight_too_high() {
            self.with_state(
                State {
                    tx_in_flight: self.inflight_at_threshold(packet.size) as usize,
                    ..self.bbr3_state
                },
            ).inflight_too_high_handled()
        } else {
            self
        }
    }

    /// What a lost packet makes of the controller. Without bandwidth probe samples
    /// nothing is made of it, and a bit error gets no response.
    pub open spec fn lost_packet_handled(
        self,
        packet: Sent,
        lost_bytes: usize,
        now: Instant,
    ) -> Congestion {
        let noted = self.loss_noted(packet, lost_bytes);
        if !self.bbr3_state.flags.bw_probe_samples {
            self
        } else if noted.loss_is_bit_error(now) {
            noted.loss_classified(now)
        } else {
            noted.loss_classified(now).loss_responded(packet)
        }
    }

    /// What `lost_packet_handled` computes on the way stays in range.
    pub open spec fn lost_packet_accepted(
        self,
        packet: Sent,
        lost_bytes: usize,
        now: Instant,
    ) -> bool {
        let noted = self.loss_noted(packet, lost_bytes);
        let classified = noted.loss_classified(now);
        self.bbr3_state.flags.bw_probe_samples ==> {
            &&& noted.loss_countable(now)
            &&& !noted.loss_is_bit_error(now) ==> {
                &&& classified.loss_threshold_defined()
                &&& classified.inflight_too_high() ==> classified.threshold_inflight_defined(
                    packet.size,
                )
            }
        }
    }
}

/// Whether a loss at `now` stands alone.
fn is_isolated_loss(r: &Congestion, now: Instant) -> (b: bool)
    requires
        r.loss_gap_defined(),
    ensures
        b == r.loss_isolated(now),
{
    match r.bbr3_state.last_loss_time {
        Some(last) => {
            let gap: Duration = now.duration_since(last);
            let min_rtt: Duration = r.bbr3_state.min_rtt;
            min_rtt.nanos != time::DURATION_MAX && gap.nanos > min_rtt.mul_f64(
                F64 { bits: state::ISOLATED_LOSS_GAP },
            ).nanos
        },
        None => true,
    }
}

/// Tells bit errors from congestion for a loss at `now`; true for a bit error.
fn classify_loss(r: &mut Congestion, now: Instant) -> (bit_error: bool)
    requires
        old(r).loss_countable(now),
    ensures
        bit_error == old(r).loss_is_bit_error(now),
        *final(r) == old(r).loss_classified(now),
{
    if !r.satellite_loss_discrimination {
        r.bbr3_state.congestion_losses_in_round = r.bbr3_state.congestion_losses_in_round + 1;
        return false;
    }
    let isolated: bool = is_isolated_loss(r, now);
    let isolated_losses: u32 = if isolated {
        r.bbr3_state.consecutive_isolated_losses + 1
    } else {
        0
    };
    let congestion_losses: usize = if isolated {
        r.bbr3_state.congestion_losses_in_round
    } else {
        r.bbr3_state.congestion_losses_in_round + 1
    };
    r.bbr3_state.last_loss_time = Some(now);
    r.bbr3_state.consecutive_isolated_losses = isolated_losses;
    r.bbr3_state.congestion_losses_in_round = congestion_losses;
    isolated
}

/// How much of what follows the volume in flight before a lost packet of `size` bytes
/// could be lost until the threshold is met.
fn lost_prefix(r: &Congestion, size: usize) -> (prefix: usize)
    requires
        r.loss_threshold_defined(),
        size <= r.bbr3_state.tx_in_flight,
        size <= r.bbr3_state.lost,
    ensures
        prefix == r.lost_prefix(size).whole(usize::MAX as nat),
{
    let inflight_prev: usize = r.bbr3_state.tx_in_flight - size;
    let lost_prev: usize = r.bbr3_state.lost - size;
    let thresh: F64 = effective_loss_threshold(r);
    let prefix: F64 = thresh.times(F64::from_usize(inflight_prev)).minus(
        F64::from_usize(lost_prev),
    ).over(F64 { bits: float64::ONE }.minus(thresh));
    prefix.to_usize()
}

/// The volume in flight at which the loss of `packet` met the threshold.
pub fn bbr3_inflight_hi_from_lost_packet(r: &Congestion, packet: &Sent) -> (inflight: usize)
    requires
        r.threshold_inflight_defined(packet.size),
    ensures
        inflight == r.inflight_at_threshold(packet.size),
{
    let prefix: usize = lost_prefix(r, packet.size);
    r.bbr3_state.tx_in_flight - packet.size + prefix
}

/// Whether `bbr3_inflight_hi_from_lost_packet` accepts a packet of `size` bytes.
fn is_threshold_inflight_defined(r: &Congestion, size: usize) -> (b: bool)
    ensures
        b == r.threshold_inflight_defined(size),
{
    is_loss_threshold_defined(r) && size <= r.bbr3_state.tx_in_flight && size <= r.bbr3_state.lost
        && lost_prefix(r, size) <= usize::MAX - (r.bbr3_state.tx_in_flight - size)
}

/// Whether `classify_loss` accepts a loss at `now`.
fn is_loss_countable(r: &Congestion, now: Instant) -> (b: bool)
    ensures
        b == r.loss_countable(now),
{
    if !r.satellite_loss_discrimination {
        return r.bbr3_state.congestion_losses_in_round < usize::MAX;
    }
    let min_rtt: Duration = r.bbr3_state.min_rtt;
    if r.bbr3_state.last_loss_time.is_some() && min_rtt.nanos != time::DURATION_MAX
        && !min_rtt.can_scale_by(F64 { bits: state::ISOLATED_LOSS_GAP }) {
        return false;
    }
    if is_isolated_loss(r, now) {
        r.bbr3_state.consecutive_isolated_losses < u32::MAX
    } else {
        r.bbr3_state.congestion_losses_in_round < usize::MAX
    }
}

/// Whether `bbr3_update_on_loss` accepts a lost packet.
pub fn is_lost_packet_accepted(
    r: &Congestion,
    packet: &Sent,
    lost_bytes: usize,
    now: Instant,
) -> (b: bool)
    ensures
        b == r.lost_packet_accepted(*packet, lost_bytes, now),
{
    if !r.bbr3_state.flags.bw_probe_samples {
        return true;
    }
    let mut noted: Congestion = *r;
    noted.bbr3_state.tx_in_flight = packet.tx_in_flight;
    noted.bbr3_state.lost = lost_bytes;
    noted.delivery_rate.update_app_limited(packet.is_app_limited);
    if !is_loss_countable(&noted, now) {
        return false;
    }
    if classify_loss(&mut noted, now) {
        return true;
    }
    is_loss_threshold_defined(&noted) && (!bbr3_is_inflight_too_high(&mut noted)
        || is_threshold_inflight_defined(&noted, packet.size))
}

/// Handles a packet that was declared lost at `now`.
pub fn bbr3_handle_lost_packet(r: &mut Congestion, packet: &Sent, lost_bytes: usize, now: Instant)
    requires
        old(r).lost_packet_accepted(*packet, lost_bytes, now),
    ensures
        *final(r) == old(r).lost_packet_handled(*packet, lost_bytes, now),
{
    if !r.bbr3_state.flags.bw_probe_samples {
        return;
    }
    r.bbr3_state.tx_in_flight = packet.tx_in_flight;
    r.bbr3_state.lost = lost_bytes;
    r.delivery_rate.update_app_limited(packet.is_app_limited);
    // Isolated losses are likely bit errors, not congestion.
    if classify_loss(r, now) {
        return;
    }
    if bbr3_is_inflight_too_high(r) {
        let tx_in_flight: usize = bbr3_inflight_hi_from_lost_packet(r, packet);
        r.bbr3_state.tx_in_flight = tx_in_flight;
        bbr3_handle_inflight_too_high(r, now);
    }
}

/// The steps on every loss: handles a packet that was declared lost at `now`.
pub fn bbr3_update_on_loss(r: &mut Congestion, packet: &Sent, lost_bytes: usize, now: Instant)
    requires
        old(r).lost_packet_accepted(*packet, lost_bytes, now),
    ensures
        *final(r) == old(r).lost_packet_handled(*packet, lost_bytes, now),
{
    bbr3_handle_lost_packet(r, packet, lost_bytes, now);
}

impl Congestion {
    /// Whether the flow is probing for bandwidth.
    pub open spec fn probing_bw(self) -> bool {
        match self.bbr3_state.state {
            BBR3StateMachine::Startup => true,
            BBR3StateMachine::ProbeBWREFILL => true,
            BBR3StateMachine::ProbeBWUP => true,
            _ => false,
        }
    }

    /// Whether the latest sample was taken of data sent after the loss round began.
    pub open spec fn loss_round_ends(self) -> bool {
        self.delivery_rate.sample.prior_delivered >= self.bbr3_state.loss_round_delivered
    }

    /// The delivery signals near the start of ACK processing: the maxima take in the
    /// latest sample, and a round that has passed makes room for the next.
    pub open spec fn delivery_signals_updated(self) -> Congestion {
        self.with_state(
            State {
                flags: Flags {
                    loss_round_start: self.loss_round_ends(),
                    ..self.bbr3_state.flags
                },
                bw_latest: larger(
                    self.bbr3_state.bw_latest as nat,
                    self.delivery_rate.sample.delivery_rate as nat,
                ) as u64,
                inflight_latest: larger(
                    self.bbr3_state.inflight_latest as nat,
                    self.delivery_rate.sample.delivered as nat,
                ) as usize,
                loss_round_delivered: if self.loss_round_ends() {
                    self.delivery_rate.delivered
                } else {
                    self.bbr3_state.loss_round_delivered
                },
                ..self.bbr3_state
            },
        )
    }

    /// The delivery signals near the end of ACK processing: a new round starts from the
    /// latest sample.
    pub open spec fn delivery_signals_advanced(self) -> Congestion {
        if self.bbr3_state.flags.loss_round_start {
            self.with_state(
                State {
                    bw_latest: self.delivery_rate.sample.delivery_rate,
                    inflight_latest: self.delivery_rate.sample.delivered,
                    ..self.bbr3_state
                },
            )
        } else {
            self
        }
    }

    /// No loss in the round so far.
    pub open spec fn loss_round_reset(self) -> Congestion {
        self.with_state(
            State {
                flags: Flags { loss_in_round: false, ..self.bbr3_state.flags },
                loss_events_in_round: 0,
                congestion_losses_in_round: 0,
                ..self.bbr3_state
            },
        )
    }

    /// Neither loss nor delivery in the round so far.
    pub open spec fn congestion_signals_reset(self) -> Congestion {
        self.with_state(
            State { bw_latest: 0, inflight_latest: 0, ..self.loss_round_reset().bbr3_state },
        )
    }

    /// No short-term bounds.
    pub open spec fn lower_bounds_forgotten(self) -> Congestion {
        self.with_state(
            State { bw_lo: u64::MAX, inflight_lo: usize::MAX, ..self.bbr3_state },
        )
    }

    /// The bandwidth is brought within its bounds.
    pub open spec fn bandwidth_bounded(self) -> Congestion {
        self.with_state(State { bw: self.bbr3_state.bounded_bw(), ..self.bbr3_state })
    }

    /// Lower bounds that were never set start from the maximum bandwidth and from the
    /// window.
    pub open spec fn lower_bounds_initialized(self) -> Congestion {
        self.with_state(
            State {
                bw_lo: if self.bbr3_state.bw_lo == u64::MAX {
                    self.bbr3_state.max_bw
                } else {
                    self.bbr3_state.bw_lo
                },
                inflight_lo: if self.bbr3_state.inflight_lo == usize::MAX {
                    self.congestion_window
                } else {
                    self.bbr3_state.inflight_lo
                },
                ..self.bbr3_state
            },
        )
    }

    /// Lower bounds come down by `BETA`, but not below what was delivered in the round.
    pub open spec fn lower_bounds_reduced(self) -> Congestion {
        self.with_state(
            State {
                bw_lo: larger(
                    self.bbr3_state.bw_latest as nat,
                    F64::of_nat(self.bbr3_state.bw_lo as nat).product(
                        F64 { bits: state::BETA },
                    ).whole(u64::MAX as nat),
                ) as u64,
                inflight_lo: larger(
                    self.bbr3_state.inflight_latest as nat,
                    F64::of_nat(self.bbr3_state.inflight_lo as nat).product(
                        F64 { bits: state::BETA },
                    ).whole(usize::MAX as nat),
                ) as usize,
                ..self.bbr3_state
            },
        )
    }

    /// The response of the lower bounds to congestion in the round. There is none while
    /// the flow probes for bandwidth.
    pub open spec fn lower_bounds_adapted(self) -> Congestion {
        if !self.probing_bw() && self.bbr3_state.flags.loss_in_round {
            self.lower_bounds_initialized().lower_bounds_reduced()
        } else {
            self
        }
    }

    /// The loss that an ACK reports is counted. With discrimination the round has
    /// congestion only where a loss was not taken for a bit error.
    pub open spec fn loss_counted(self) -> Congestion {
        if self.bbr3_state.lost > 0 {
            self.with_state(
                State {
                    flags: Flags {
                        loss_in_round: self.bbr3_state.flags.loss_in_round
                            || !self.satellite_loss_discrimination
                            || self.bbr3_state.congestion_losses_in_round > 0,
                        ..self.bbr3_state.flags
                    },
                    loss_events_in_round: (self.bbr3_state.loss_events_in_round + 1) as usize,
                    ..self.bbr3_state
                },
            )
        } else {
            self
        }
    }

    /// The response to the congestion signals of one ACK. The lower bounds adapt when the
    /// loss round ends, and the round then starts anew; in ProbeBW_CRUISE they adapt
    /// within the round too.
    pub open spec fn congestion_signals_applied(self) -> Congestion {
        let counted = self.loss_counted();
        if self.bbr3_state.flags.loss_round_start {
            counted.lower_bounds_adapted().loss_round_reset()
        } else if self.bbr3_state.state == BBR3StateMachine::ProbeBWCRUISE {
            counted.lower_bounds_adapted()
        } else {
            counted
        }
    }
}

/// Takes the latest sample into the delivery signals, near the start of ACK processing.
pub fn bbr3_update_latest_delivery_signals(r: &mut Congestion)
    ensures
        *final(r) == old(r).delivery_signals_updated(),
{
    let ends: bool = r.delivery_rate.sample.prior_delivered >= r.bbr3_state.loss_round_delivered;
    let loss_round_delivered: usize = if ends {
        r.delivery_rate.delivered
    } else {
        r.bbr3_state.loss_round_delivered
    };
    let bw_latest: u64 = larger_u64(
        r.bbr3_state.bw_latest,
        r.delivery_rate.sample.delivery_rate,
    );
    let inflight_latest: usize = larger_usize(
        r.bbr3_state.inflight_latest,
        r.delivery_rate.sample.delivered,
    );
    r.bbr3_state.flags.loss_round_start = ends;
    r.bbr3_state.bw_latest = bw_latest;
    r.bbr3_state.inflight_latest = inflight_latest;
    r.bbr3_state.loss_round_delivered = loss_round_delivered;
}

/// Starts a new round of delivery signals, near the end of ACK processing.
pub fn bbr3_advance_latest_delivery_signals(r: &mut Congestion)
    ensures
        *final(r) == old(r).delivery_signals_advanced(),
{
    if r.bbr3_state.flags.loss_round_start {
        r.bbr3_state.bw_latest = r.delivery_rate.sample.delivery_rate;
        r.bbr3_state.inflight_latest = r.delivery_rate.sample.delivered;
    }
}

/// Forgets the losses and the delivery maxima of the round.
pub fn bbr3_reset_congestion_signals(r: &mut Congestion)
    ensures
        *final(r) == old(r).congestion_signals_reset(),
{
    reset_loss_round(r);
    r.bbr3_state.bw_latest = 0;
    r.bbr3_state.inflight_latest = 0;
}

/// Whether the flow is probing for bandwidth.
pub fn bbr3_is_probing_bw(r: &Congestion) -> (b: bool)
    ensures
        b == r.probing_bw(),
{
    let state: BBR3StateMachine = r.bbr3_state.state;
    state == BBR3StateMachine::Startup || state == BBR3StateMachine::ProbeBWREFILL || state
        == BBR3StateMachine::ProbeBWUP
}

/// Handles the first congestion episode in a bandwidth probing cycle.
pub fn bbr3_init_lower_bounds(r: &mut Congestion)
    ensures
        *final(r) == old(r).lower_bounds_initialized(),
{
    if r.bbr3_state.bw_lo == u64::MAX {
        r.bbr3_state.bw_lo = r.bbr3_state.max_bw;
    }
    if r.bbr3_state.inflight_lo == usize::MAX {
        r.bbr3_state.inflight_lo = r.congestion_window;
    }
}

/// Adjusts the lower bounds for loss.
pub fn bbr3_loss_lower_bounds(r: &mut Congestion)
    ensures
        *final(r) == old(r).lower_bounds_reduced(),
{
    let beta: F64 = F64 { bits: state::BETA };
    r.bbr3_state.bw_lo = larger_u64(
        r.bbr3_state.bw_latest,
        F64::from_u64(r.bbr3_state.bw_lo).times(beta).to_u64(),
    );
    r.bbr3_state.inflight_lo = larger_usize(
        r.bbr3_state.inflight_latest,
        F64::from_usize(r.bbr3_state.inflight_lo).times(beta).to_usize(),
    );
}

/// Responds to congestion in the round, unless the flow probes for bandwidth.
pub fn bbr3_adapt_lower_bounds_from_congestion(r: &mut Congestion)
    ensures
        *final(r) == old(r).lower_bounds_adapted(),
{
    if bbr3_is_probing_bw(r) {
        return;
    }
    if r.bbr3_state.flags.loss_in_round {
        bbr3_init_lower_bounds(r);
        bbr3_loss_lower_bounds(r);
    }
}

/// Counts the loss that an ACK reports.
fn count_loss(r: &mut Congestion)
    requires
        old(r).bbr3_state.lost > 0 ==> old(r).bbr3_state.loss_events_in_round < usize::MAX,
    ensures
        *final(r) == old(r).loss_counted(),
{
    if r.bbr3_state.lost > 0 {
        let in_round: bool = r.bbr3_state.flags.loss_in_round || !r.satellite_loss_discrimination
            || r.bbr3_state.congestion_losses_in_round > 0;
        r.bbr3_state.flags.loss_in_round = in_round;
        r.bbr3_state.loss_events_in_round = r.bbr3_state.loss_events_in_round + 1;
    }
}

/// Forgets the losses of the round.
fn reset_loss_round(r: &mut Congestion)
    ensures
        *final(r) == old(r).loss_round_reset(),
{
    r.bbr3_state.flags.loss_in_round = false;
    r.bbr3_state.loss_events_in_round = 0;
    r.bbr3_state.congestion_losses_in_round = 0;
}

/// Responds to the congestion signals of one ACK, once the maximum bandwidth is up to
/// date.
pub fn bbr3_apply_congestion_signals(r: &mut Congestion)
    requires
        old(r).bbr3_state.lost > 0 ==> old(r).bbr3_state.loss_events_in_round < usize::MAX,
    ensures
        *final(r) == old(r).congestion_signals_applied(),
{
    count_loss(r);
    if r.bbr3_state.flags.loss_round_start {
        bbr3_adapt_lower_bounds_from_congestion(r);
        reset_loss_round(r);
    } else if r.bbr3_state.state == BBR3StateMachine::ProbeBWCRUISE {
        bbr3_adapt_lower_bounds_from_congestion(r);
    }
}

/// Whether `outcome` is what the congestion signals of an ACK may make of the controller:
/// the step for the maximum bandwidth comes first, and what it makes of the controller
/// responds to the signals.
pub open spec fn congestion_signals_outcome<S: ControllerSteps>(
    r: Congestion,
    packet: Acked,
    steps: S,
    outcome: Congestion,
) -> bool {
    exists|m: Congestion| #[trigger]
        call_ensures(S::bbr3_update_max_bw, (&steps, r, &packet), m) && outcome
            == m.congestion_signals_applied()
}

/// Updates the congestion signals on every ACK: the maximum bandwidth first, then the
/// losses and the lower bounds.
pub fn bbr3_update_congestion_signals<S: ControllerSteps>(
    r: &mut Congestion,
    packet: &Acked,
    steps: &S,
)
    requires
        forall|m: Congestion| #[trigger]
            call_ensures(S::bbr3_update_max_bw, (steps, *old(r), packet), m)
                && m.bbr3_state.lost > 0 ==> m.bbr3_state.loss_events_in_round < usize::MAX,
    ensures
        congestion_signals_outcome(*old(r), *packet, *steps, *final(r)),
{
    *r = steps.bbr3_update_max_bw(*r, packet);
    bbr3_apply_congestion_signals(r);
}

/// Forgets the short-term bounds.
pub fn bbr3_reset_lower_bounds(r: &mut Congestion)
    ensures
        *final(r) == old(r).lower_bounds_forgotten(),
{
    r.bbr3_state.bw_lo = u64::MAX;
    r.bbr3_state.inflight_lo = usize::MAX;
}

impl State {
    /// The smallest of the maximum bandwidth and its two bounds.
    pub open spec fn bounded_bw(self) -> u64 {
        if self.max_bw <= self.bw_lo && self.max_bw <= self.bw_hi {
            self.max_bw
        } else if self.bw_lo <= self.bw_hi {
            self.bw_lo
        } else {
            self.bw_hi
        }
    }
}

/// Sets the bandwidth to the smallest of the maximum and its two bounds.
pub fn bbr3_bound_bw_for_model(r: &mut Congestion)
    ensures
        *final(r) == old(r).bandwidth_bounded(),
{
    r.bbr3_state.bw = r.bbr3_state.max_bw.min(r.bbr3_state.bw_lo.min(r.bbr3_state.bw_hi));
}

/// The share of CE marks in what was delivered, at most one.
pub open spec fn ce_ratio(ce_bytes: nat, bytes: nat) -> F64 {
    let ratio = F64::of_nat(ce_bytes).quotient(F64::of_nat(bytes));
    if ratio.exceeds(F64 { bits: float64::ONE }) {
        F64 { bits: float64::ONE }
    } else {
        ratio
    }
}

/// The moving average of the CE ratio, moved towards `ratio`.
pub open spec fn ecn_alpha_moved(alpha: F64, ratio: F64) -> F64 {
    let gain = F64 { bits: state::ECN_ALPHA_GAIN };
    F64 { bits: float64::ONE }.difference(gain).product(alpha).sum(gain.product(ratio))
}

/// What is left of an upper bound after a reduction in proportion to `alpha`.
pub open spec fn ecn_share_kept(alpha: F64) -> F64 {
    F64 { bits: float64::ONE }.difference(alpha.product(F64 { bits: state::ECN_FACTOR }))
}

impl State {
    /// Whether the path is short enough for ECN feedback to be fresh.
    pub open spec fn ecn_path(self) -> bool {
        self.min_rtt.nanos / (time::NANOS_PER_MICRO as u128) <= state::ECN_MAX_RTT_US
    }

    /// How many CE marks are new.
    pub open spec fn ce_delta(self, ecn: EcnCounts) -> nat {
        if ecn.ecn_ce_count > self.prior_ecn_ce_count {
            (ecn.ecn_ce_count - self.prior_ecn_ce_count) as nat
        } else {
            0
        }
    }

    /// The CE marks of the round with those that are new, as far as they can be counted.
    pub open spec fn ce_total(self, ecn: EcnCounts) -> nat {
        let total = self.ecn_ce_bytes_delivered as nat + self.ce_delta(ecn);
        if total <= usize::MAX {
            total
        } else {
            usize::MAX as nat
        }
    }

    /// The state at the end of a round: the average moves, the upper bounds are cut where
    /// the ratio exceeds the threshold, and the counts start anew. A round in which
    /// nothing was delivered has no ratio.
    pub open spec fn ecn_round_ended(self) -> State {
        let ratio = ce_ratio(
            self.ecn_ce_bytes_delivered as nat,
            self.ecn_bytes_delivered as nat,
        );
        let alpha = ecn_alpha_moved(self.ecn_alpha, ratio);
        let measured = self.ecn_bytes_delivered > 0;
        let cut = measured && ratio.exceeds(F64 { bits: state::ECN_THRESH });
        State {
            flags: Flags { ecn_in_round: false, ..self.flags },
            ecn_alpha: if measured {
                alpha
            } else {
                self.ecn_alpha
            },
            inflight_hi: if cut {
                F64::of_nat(self.inflight_hi as nat).product(ecn_share_kept(alpha)).whole(
                    usize::MAX as nat,
                ) as usize
            } else {
                self.inflight_hi
            },
            bw_hi: if cut {
                F64::of_nat(self.bw_hi as nat).product(ecn_share_kept(alpha)).whole(
                    u64::MAX as nat,
                ) as u64
            } else {
                self.bw_hi
            },
            ecn_bytes_delivered: 0,
            ecn_ce_bytes_delivered: 0,
            ..self
        }
    }

    /// The state once new CE marks are counted.
    pub open spec fn ce_marks_counted(self, ecn: EcnCounts) -> State {
        State {
            flags: Flags { ecn_eligible: true, ecn_in_round: true, ..self.flags },
            ecn_ce_bytes_delivered: self.ce_total(ecn) as usize,
            prior_ecn_ce_count: ecn.ecn_ce_count,
            ..self
        }
    }

    /// What ECN counts make of the state. A path that is too long is not eligible, and
    /// counts without new CE marks change nothing.
    pub open spec fn ecn_updated(self, ecn: EcnCounts) -> State {
        if !self.ecn_path() {
            State { flags: Flags { ecn_eligible: false, ..self.flags }, ..self }
        } else if self.ce_delta(ecn) == 0 {
            self
        } else if self.flags.round_start {
            self.ce_marks_counted(ecn).ecn_round_ended()
        } else {
            self.ce_marks_counted(ecn)
        }
    }
}

/// The share of CE marks in what was delivered, at most one.
fn measure_ce_ratio(ce_bytes: usize, bytes: usize) -> (ratio: F64)
    ensures
        ratio == ce_ratio(ce_bytes as nat, bytes as nat),
{
    let one: F64 = F64 { bits: float64::ONE };
    let ratio: F64 = F64::from_usize(ce_bytes).over(F64::from_usize(bytes));
    if ratio.is_above(one) {
        one
    } else {
        ratio
    }
}

/// The moving average of the CE ratio, moved towards `ratio`.
fn move_ecn_alpha(alpha: F64, ratio: F64) -> (moved: F64)
    ensures
        moved == ecn_alpha_moved(alpha, ratio),
{
    let gain: F64 = F64 { bits: state::ECN_ALPHA_GAIN };
    F64 { bits: float64::ONE }.minus(gain).times(alpha).plus(gain.times(ratio))
}

/// Counts new CE marks.
fn count_ce_marks(s: &mut State, ecn: &EcnCounts)
    requires
        ecn.ecn_ce_count > old(s).prior_ecn_ce_count,
    ensures
        *final(s) == old(s).ce_marks_counted(*ecn),
{
    let delta: u64 = ecn.ecn_ce_count - s.prior_ecn_ce_count;
    let total: u128 = s.ecn_ce_bytes_delivered as u128 + delta as u128;
    let ce_bytes: usize = if total <= usize::MAX as u128 {
        total as usize
    } else {
        usize::MAX
    };
    s.flags.ecn_eligible = true;
    s.flags.ecn_in_round = true;
    s.ecn_ce_bytes_delivered = ce_bytes;
    s.prior_ecn_ce_count = ecn.ecn_ce_count;
}

/// Ends an ECN round.
fn end_ecn_round(s: &mut State)
    ensures
        *final(s) == old(s).ecn_round_ended(),
{
    let measured: bool = s.ecn_bytes_delivered > 0;
    let ratio: F64 = measure_ce_ratio(s.ecn_ce_bytes_delivered, s.ecn_bytes_delivered);
    let moved: F64 = move_ecn_alpha(s.ecn_alpha, ratio);
    let kept: F64 = F64 { bits: float64::ONE }.minus(moved.times(F64 { bits: state::ECN_FACTOR }));
    let cut: bool = measured && ratio.is_above(F64 { bits: state::ECN_THRESH });
    let inflight_hi: usize = if cut {
        F64::from_usize(s.inflight_hi).times(kept).to_usize()
    } else {
        s.inflight_hi
    };
    let bw_hi: u64 = if cut {
        F64::from_u64(s.bw_hi).times(kept).to_u64()
    } else {
        s.bw_hi
    };
    let alpha: F64 = if measured {
        moved
    } else {
        s.ecn_alpha
    };
    s.ecn_alpha = alpha;
    s.inflight_hi = inflight_hi;
    s.bw_hi = bw_hi;
    s.ecn_bytes_delivered = 0;
    s.ecn_ce_bytes_delivered = 0;
    s.flags.ecn_in_round = false;
}

/// Updates the ECN state from the counts that an ACK carries, and cuts the upper bounds
/// at the end of a round with too many CE marks.
pub fn bbr3_update_ecn(r: &mut Congestion, ecn: &EcnCounts)
    ensures
        *final(r) == old(r).with_state(old(r).bbr3_state.ecn_updated(*ecn)),
{
    if r.bbr3_state.min_rtt.as_micros() > state::ECN_MAX_RTT_US as u128 {
        r.bbr3_state.flags.ecn_eligible = false;
        return;
    }
    if ecn.ecn_ce_count <= r.bbr3_state.prior_ecn_ce_count {
        return;
    }
    count_ce_marks(&mut r.bbr3_state, ecn);
    if r.bbr3_state.flags.round_start {
        end_ecn_round(&mut r.bbr3_state);
    }
}

}
