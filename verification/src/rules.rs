//! What each operation does, field by field: which variables move, to what, and on which
//! occasion.

use vstd::prelude::*;

use crate::congestion::{Acked, Congestion, DeliveryRate, EcnCounts, RecoveryConfig, Sent};
use crate::controller;
use crate::float64::F64;
use crate::float64;
use crate::laws;
use crate::nearest;
use crate::per_loss;
use crate::per_transmit;
use crate::state::{BBR3AckPhase, BBR3StateMachine, Flags, State};
use crate::state;
use crate::steps::ControllerSteps;
use crate::time::Instant;
use crate::time;

verus! {

/// The threshold rule in full: the default threshold stands in for a configured one
/// exactly where that is higher, both round trips are known, and the latest one exceeds
/// the minimum times 1.3.
pub proof fn law_default_threshold_replaces_raised_one(r: Congestion)
    ensures
        ({
            let default = F64 { bits: state::LOSS_THRESH };
            let min_rtt = r.bbr3_state.min_rtt;
            let rtt = r.delivery_rate.sample.rtt;
            match r.satellite_loss_threshold {
                None => r.loss_threshold() == default,
                Some(t) => if t.exceeds(default) && min_rtt.nanos != time::DURATION_MAX
                    && rtt.nanos > 0 && rtt.nanos > min_rtt.scaled(
                    F64 { bits: state::RTT_INFLATION_LIMIT },
                ) {
                    r.loss_threshold() == default
                } else {
                    r.loss_threshold() == t
                },
            }
        }),
{
}

/// The verdict and the volume at threshold, whatever the threshold is: too much is in
/// flight where the loss exceeds the threshold's share of it, rounded down; and a loss met
/// the threshold `t` when `(t * rest - other loss) / (1 - t)` bytes followed the rest of
/// what was in flight.
pub proof fn law_verdict_and_volume_follow_threshold(r: Congestion, size: usize)
    requires
        size <= r.bbr3_state.tx_in_flight,
        size <= r.bbr3_state.lost,
    ensures
        ({
            let t = r.loss_threshold();
            let inflight = r.bbr3_state.tx_in_flight as nat;
            let rest = (r.bbr3_state.tx_in_flight - size) as nat;
            let other = (r.bbr3_state.lost - size) as nat;
            let room = F64 { bits: float64::ONE }.difference(t);
            let excess = t.product(F64::of_nat(rest)).difference(F64::of_nat(other));
            let limit = usize::MAX as nat;
            &&& r.inflight_too_high() <==> r.bbr3_state.lost > F64::of_nat(inflight).product(
                t,
            ).whole(limit)
            &&& r.inflight_at_threshold(size) == rest + excess.quotient(room).whole(limit)
        }),
{
}

/// What has no say in the threshold and in the verdict on what is in flight: only the
/// configured threshold, the two round trips, the volume in flight and the loss have.
pub proof fn law_verdict_depends_on_path_and_loss_alone(a: Congestion, b: Congestion)
    requires
        a.satellite_loss_threshold == b.satellite_loss_threshold,
        a.bbr3_state.min_rtt == b.bbr3_state.min_rtt,
        a.delivery_rate.sample.rtt == b.delivery_rate.sample.rtt,
    ensures
        a.loss_threshold() == b.loss_threshold(),
        a.bbr3_state.tx_in_flight == b.bbr3_state.tx_in_flight ==> a.tolerated_loss()
            == b.tolerated_loss(),
        a.bbr3_state.tx_in_flight == b.bbr3_state.tx_in_flight && a.bbr3_state.lost
            == b.bbr3_state.lost ==> a.inflight_too_high() == b.inflight_too_high(),
{
}

/// The reaction to too much data in flight, in every state: unless the sample was limited
/// by the application, the cap becomes the larger of what was in flight and the share of
/// the target that a round with loss leaves, where the target is the smaller of BDP and
/// window. The probe survives in ProbeBW_UP alone, and nothing else moves.
pub proof fn law_reaction_caps_inflight(r: Congestion)
    requires
        !r.cwnd_frozen,
    ensures
        ({
            let before = r.bbr3_state;
            let after = r.inflight_too_high_handled().bbr3_state;
            let target = if before.bdp <= r.congestion_window {
                before.bdp
            } else {
                r.congestion_window
            };
            let share = F64::of_nat(target as nat).product(F64 { bits: state::BETA }).whole(
                usize::MAX as nat,
            );
            &&& r.delivery_rate.sample.is_app_limited ==> after.inflight_hi == before.inflight_hi
            &&& !r.delivery_rate.sample.is_app_limited ==> {
                &&& after.inflight_hi >= before.tx_in_flight
                &&& after.inflight_hi >= share
                &&& after.inflight_hi == before.tx_in_flight || after.inflight_hi == share
            }
            &&& after.flags.bw_probe_samples == (before.flags.bw_probe_samples && before.state
                == BBR3StateMachine::ProbeBWUP)
            &&& r.inflight_too_high_handled() == Congestion {
                bbr3_state: State {
                    flags: Flags {
                        bw_probe_samples: after.flags.bw_probe_samples,
                        ..before.flags
                    },
                    inflight_hi: after.inflight_hi,
                    ..before
                },
                ..r
            }
        }),
{
    nearest::lemma_whole_fits(
        F64::of_nat(r.target_inflight() as nat).product(F64 { bits: state::BETA }),
        usize::MAX as nat,
    );
}

/// The check of what is in flight reacts exactly where more was lost than is tolerated
/// and there are bandwidth probe samples.
pub proof fn law_check_reacts_to_too_much_inflight(r: Congestion)
    ensures
        r.inflight_too_high() && r.bbr3_state.flags.bw_probe_samples ==> r.inflight_checked()
            == r.inflight_too_high_handled(),
        !r.inflight_too_high() || !r.bbr3_state.flags.bw_probe_samples ==> r.inflight_checked()
            == r,
{
}

/// When losses stand alone: the first one does; a later one does exactly where the
/// minimum round trip is known and the time since the last loss exceeds twice that.
pub proof fn law_isolation_rule(r: Congestion, now: Instant)
    ensures
        match r.bbr3_state.last_loss_time {
            None => r.loss_isolated(now),
            Some(last) => r.loss_isolated(now) == (r.bbr3_state.min_rtt.nanos
                != time::DURATION_MAX && now.nanos > last.nanos && now.nanos - last.nanos
                > r.bbr3_state.min_rtt.scaled(F64 { bits: state::ISOLATED_LOSS_GAP })),
        },
{
}

/// The response to a loss moves the record of what was in flight, the cap and the probe.
#[verifier::rlimit(40)]
#[verifier::spinoff_prover]
proof fn lemma_response_moves_three(r: Congestion, packet: Sent)
    ensures
        r.loss_responded(packet) == (Congestion {
            bbr3_state: State {
                flags: Flags {
                    bw_probe_samples: r.loss_responded(packet).bbr3_state.flags.bw_probe_samples,
                    ..r.bbr3_state.flags
                },
                tx_in_flight: r.loss_responded(packet).bbr3_state.tx_in_flight,
                inflight_hi: r.loss_responded(packet).bbr3_state.inflight_hi,
                ..r.bbr3_state
            },
            ..r
        }),
{
}

/// What every loss leaves on record while there are bandwidth probe samples. A loss is
/// taken for a bit error where discrimination is on and it stands alone; any other one
/// adds to the congestion losses of the round. Only discrimination keeps track of when
/// losses came. Beyond this record and the response nothing moves.
pub proof fn law_loss_is_put_on_record(
    r: Congestion,
    packet: Sent,
    lost_bytes: usize,
    now: Instant,
)
    requires
        r.bbr3_state.flags.bw_probe_samples,
        r.satellite_loss_discrimination && r.loss_isolated(now)
            ==> r.bbr3_state.consecutive_isolated_losses < u32::MAX,
        !r.satellite_loss_discrimination || !r.loss_isolated(now)
            ==> r.bbr3_state.congestion_losses_in_round < usize::MAX,
    ensures
        ({
            let before = r.bbr3_state;
            let outcome = r.lost_packet_handled(packet, lost_bytes, now);
            let after = outcome.bbr3_state;
            let bit_error = r.satellite_loss_discrimination && r.loss_isolated(now);
            &&& after.lost == lost_bytes
            &&& outcome.delivery_rate.app_limited == packet.is_app_limited
            &&& bit_error ==> after.congestion_losses_in_round
                == before.congestion_losses_in_round
            &&& !bit_error ==> after.congestion_losses_in_round
                == before.congestion_losses_in_round + 1
            &&& r.satellite_loss_discrimination ==> after.last_loss_time == Some(now)
            &&& bit_error ==> after.consecutive_isolated_losses
                == before.consecutive_isolated_losses + 1
            &&& r.satellite_loss_discrimination && !bit_error
                ==> after.consecutive_isolated_losses == 0
            &&& !r.satellite_loss_discrimination ==> after.last_loss_time
                == before.last_loss_time && after.consecutive_isolated_losses
                == before.consecutive_isolated_losses
            &&& outcome == Congestion {
                bbr3_state: State {
                    flags: Flags {
                        bw_probe_samples: after.flags.bw_probe_samples,
                        ..before.flags
                    },
                    tx_in_flight: after.tx_in_flight,
                    lost: after.lost,
                    inflight_hi: after.inflight_hi,
                    congestion_losses_in_round: after.congestion_losses_in_round,
                    last_loss_time: after.last_loss_time,
                    consecutive_isolated_losses: after.consecutive_isolated_losses,
                    ..before
                },
                delivery_rate: DeliveryRate {
                    app_limited: packet.is_app_limited,
                    ..r.delivery_rate
                },
                ..r
            }
        }),
{
    let noted = r.loss_noted(packet, lost_bytes);
    let classified = noted.loss_classified(now);
    assert(noted.loss_isolated(now) == r.loss_isolated(now));
    lemma_response_moves_three(classified, packet);
    assert(r.lost_packet_handled(packet, lost_bytes, now) == classified
        || r.lost_packet_handled(packet, lost_bytes, now) == classified.loss_responded(packet));
}

/// The response to a loss that is not a bit error, whether discrimination is on or off.
/// Where more was lost than the threshold tolerates of what was in flight with the packet,
/// the volume that met the threshold takes the place of that, the cap becomes the larger of
/// it and the share of the target that a round with loss leaves (unless the sample was
/// limited by the application), and the probe goes on in ProbeBW_UP alone.
pub proof fn law_congestion_loss_gets_response(
    r: Congestion,
    packet: Sent,
    lost_bytes: usize,
    now: Instant,
)
    requires
        r.bbr3_state.flags.bw_probe_samples,
        !r.cwnd_frozen,
        !r.satellite_loss_discrimination || !r.loss_isolated(now),
        lost_bytes > F64::of_nat(packet.tx_in_flight as nat).product(r.loss_threshold()).whole(
            usize::MAX as nat,
        ),
    ensures
        ({
            let before = r.bbr3_state;
            let after = r.lost_packet_handled(packet, lost_bytes, now).bbr3_state;
            let lossy = Congestion {
                bbr3_state: State {
                    tx_in_flight: packet.tx_in_flight,
                    lost: lost_bytes,
                    ..before
                },
                ..r
            };
            let target = if before.bdp <= r.congestion_window {
                before.bdp
            } else {
                r.congestion_window
            };
            let share = F64::of_nat(target as nat).product(F64 { bits: state::BETA }).whole(
                usize::MAX as nat,
            );
            &&& after.tx_in_flight == lossy.inflight_at_threshold(packet.size) as usize
            &&& r.delivery_rate.sample.is_app_limited ==> after.inflight_hi == before.inflight_hi
            &&& !r.delivery_rate.sample.is_app_limited ==> {
                &&& after.inflight_hi >= after.tx_in_flight
                &&& after.inflight_hi >= share
                &&& after.inflight_hi == after.tx_in_flight || after.inflight_hi == share
            }
            &&& after.flags.bw_probe_samples == (before.state == BBR3StateMachine::ProbeBWUP)
        }),
{
    let noted = r.loss_noted(packet, lost_bytes);
    let classified = noted.loss_classified(now);
    let lossy = Congestion {
        bbr3_state: State {
            tx_in_flight: packet.tx_in_flight,
            lost: lost_bytes,
            ..r.bbr3_state
        },
        ..r
    };
    assert(classified.loss_threshold() == r.loss_threshold());
    assert(lossy.loss_threshold() == r.loss_threshold());
    assert(noted.loss_isolated(now) == r.loss_isolated(now));
    assert(classified.inflight_at_threshold(packet.size) == lossy.inflight_at_threshold(
        packet.size,
    ));
    let met = classified.with_state(
        State {
            tx_in_flight: classified.inflight_at_threshold(packet.size) as usize,
            ..classified.bbr3_state
        },
    );
    law_reaction_caps_inflight(met);
}

/// The volume put on record for a loss, while there are probe samples: that which met the
/// threshold, where more was lost than is tolerated and the loss is no bit error; else that
/// of the packet. A frozen window changes nothing about it.
pub proof fn law_volume_on_record(r: Congestion, packet: Sent, lost_bytes: usize, now: Instant)
    requires
        r.bbr3_state.flags.bw_probe_samples,
    ensures
        ({
            let after = r.lost_packet_handled(packet, lost_bytes, now).bbr3_state;
            let lossy = Congestion {
                bbr3_state: State {
                    tx_in_flight: packet.tx_in_flight,
                    lost: lost_bytes,
                    ..r.bbr3_state
                },
                ..r
            };
            let tolerated = F64::of_nat(packet.tx_in_flight as nat).product(
                r.loss_threshold(),
            ).whole(usize::MAX as nat);
            let bit_error = r.satellite_loss_discrimination && r.loss_isolated(now);
            if lost_bytes > tolerated && !bit_error {
                after.tx_in_flight == lossy.inflight_at_threshold(packet.size) as usize
            } else {
                after.tx_in_flight == packet.tx_in_flight
            }
        }),
{
    let noted = r.loss_noted(packet, lost_bytes);
    let classified = noted.loss_classified(now);
    let lossy = Congestion {
        bbr3_state: State {
            tx_in_flight: packet.tx_in_flight,
            lost: lost_bytes,
            ..r.bbr3_state
        },
        ..r
    };
    assert(classified.loss_threshold() == r.loss_threshold());
    assert(lossy.loss_threshold() == r.loss_threshold());
    assert(noted.loss_isolated(now) == r.loss_isolated(now));
    assert(classified.inflight_at_threshold(packet.size) == lossy.inflight_at_threshold(
        packet.size,
    ));
}

/// A loss within what the threshold tolerates of what was in flight with the packet gets
/// no response: the probe goes on, the cap stays, and the packet's volume is on record.
pub proof fn law_tolerated_loss_gets_no_response(
    r: Congestion,
    packet: Sent,
    lost_bytes: usize,
    now: Instant,
)
    requires
        r.bbr3_state.flags.bw_probe_samples,
        lost_bytes <= F64::of_nat(packet.tx_in_flight as nat).product(r.loss_threshold()).whole(
            usize::MAX as nat,
        ),
    ensures
        ({
            let after = r.lost_packet_handled(packet, lost_bytes, now).bbr3_state;
            &&& after.tx_in_flight == packet.tx_in_flight
            &&& after.inflight_hi == r.bbr3_state.inflight_hi
            &&& after.flags.bw_probe_samples
        }),
{
    let classified = r.loss_noted(packet, lost_bytes).loss_classified(now);
    assert(classified.loss_threshold() == r.loss_threshold());
}

/// A frozen window keeps its cap and its probe through any loss.
pub proof fn law_frozen_window_keeps_cap(
    r: Congestion,
    packet: Sent,
    lost_bytes: usize,
    now: Instant,
)
    requires
        r.cwnd_frozen,
    ensures
        ({
            let after = r.lost_packet_handled(packet, lost_bytes, now).bbr3_state;
            &&& after.inflight_hi == r.bbr3_state.inflight_hi
            &&& after.flags == r.bbr3_state.flags
        }),
{
}

/// The steps on a loss do not read what was newly lost.
proof fn lemma_loss_steps_ignore_newly_lost(
    r: Congestion,
    packet: Sent,
    lost_bytes: usize,
    now: Instant,
)
    ensures
        r.lost_bytes_noted(lost_bytes).lost_packet_handled(packet, lost_bytes, now)
            == r.lost_packet_handled(packet, lost_bytes, now).lost_bytes_noted(lost_bytes),
{
    let a = r.loss_noted(packet, lost_bytes);
    let b = r.lost_bytes_noted(lost_bytes).loss_noted(packet, lost_bytes);
    assert(b == a.lost_bytes_noted(lost_bytes));
    let c = a.loss_classified(now);
    let d = b.loss_classified(now);
    assert(d == c.lost_bytes_noted(lost_bytes));
    assert(c.loss_threshold() == d.loss_threshold());
    assert(c.inflight_at_threshold(packet.size) == d.inflight_at_threshold(packet.size));
    let e = c.with_state(
        State {
            tx_in_flight: c.inflight_at_threshold(packet.size) as usize,
            ..c.bbr3_state
        },
    );
    let f = d.with_state(
        State {
            tx_in_flight: d.inflight_at_threshold(packet.size) as usize,
            ..d.bbr3_state
        },
    );
    assert(f == e.lost_bytes_noted(lost_bytes));
    assert(f.inflight_too_high_handled() == e.inflight_too_high_handled().lost_bytes_noted(
        lost_bytes,
    ));
}

/// The steps on a loss leave recovery, window and datagram size alone.
proof fn lemma_loss_steps_leave_recovery_alone(
    r: Congestion,
    packet: Sent,
    lost_bytes: usize,
    now: Instant,
)
    ensures
        ({
            let lone = r.lost_packet_handled(packet, lost_bytes, now);
            &&& lone.congestion_window == r.congestion_window
            &&& lone.max_datagram_size == r.max_datagram_size
            &&& lone.congestion_recovery_start_time == r.congestion_recovery_start_time
            &&& lone.delivery_rate.delivered == r.delivery_rate.delivered
            &&& lone.bbr3_state.flags.in_recovery == r.bbr3_state.flags.in_recovery
            &&& lone.bbr3_state.flags.packet_conservation
                == r.bbr3_state.flags.packet_conservation
            &&& lone.bbr3_state.newly_acked_bytes == r.bbr3_state.newly_acked_bytes
            &&& lone.bbr3_state.prior_cwnd == r.bbr3_state.prior_cwnd
            &&& lone.bbr3_state.next_round_delivered == r.bbr3_state.next_round_delivered
            &&& lone.bbr3_state.state == r.bbr3_state.state
        }),
{
}

/// A congestion event runs the steps on a loss, whether or not it also begins a recovery
/// episode: what they leave of the model is what a lost packet alone leaves of it. On top
/// of that it notes the lost bytes and, outside an episode, begins one.
pub proof fn law_event_runs_loss_steps(
    r: Congestion,
    bytes_in_flight: usize,
    lost_bytes: usize,
    packet: Sent,
    now: Instant,
)
    requires
        !r.cwnd_frozen,
        lost_bytes <= bytes_in_flight,
        bytes_in_flight - lost_bytes + r.bbr3_state.newly_acked_bytes <= usize::MAX,
        bytes_in_flight - lost_bytes + r.max_datagram_size <= usize::MAX,
    ensures
        ({
            let lone = r.lost_packet_handled(packet, lost_bytes, now);
            let outcome = r.congestion_event_handled(bytes_in_flight, lost_bytes, packet, now);
            let before = r.bbr3_state;
            let after = outcome.bbr3_state;
            let within = match r.congestion_recovery_start_time {
                Some(start) => packet.time_sent.nanos <= start.nanos,
                None => false,
            };
            let allowance = if before.newly_acked_bytes >= r.max_datagram_size {
                before.newly_acked_bytes
            } else {
                r.max_datagram_size
            };
            &&& outcome == Congestion {
                bbr3_state: State {
                    flags: Flags {
                        packet_conservation: before.flags.packet_conservation || !within,
                        in_recovery: before.flags.in_recovery || !within,
                        ..lone.bbr3_state.flags
                    },
                    newly_lost_bytes: lost_bytes,
                    prior_cwnd: after.prior_cwnd,
                    next_round_delivered: if within {
                        before.next_round_delivered
                    } else {
                        r.delivery_rate.delivered
                    },
                    ..lone.bbr3_state
                },
                congestion_window: outcome.congestion_window,
                congestion_recovery_start_time: if within {
                    r.congestion_recovery_start_time
                } else {
                    Some(now)
                },
                ..lone
            }
            &&& within ==> outcome.congestion_window == r.congestion_window
            &&& within ==> after.prior_cwnd == before.prior_cwnd
            &&& !within ==> outcome.congestion_window == bytes_in_flight - lost_bytes + allowance
            &&& !within && !before.flags.in_recovery && before.state
                != BBR3StateMachine::ProbeRTT ==> after.prior_cwnd == r.congestion_window
            &&& !within && (before.flags.in_recovery || before.state
                == BBR3StateMachine::ProbeRTT) ==> {
                &&& after.prior_cwnd >= before.prior_cwnd
                &&& after.prior_cwnd >= r.congestion_window
                &&& after.prior_cwnd == before.prior_cwnd || after.prior_cwnd
                    == r.congestion_window
            }
        }),
{
    lemma_loss_steps_ignore_newly_lost(r, packet, lost_bytes, now);
    lemma_loss_steps_leave_recovery_alone(r, packet, lost_bytes, now);
}

/// A congestion event for a loss that is not a bit error and that the threshold does not
/// tolerate caps what is in flight and ends the probe outside ProbeBW_UP.
pub proof fn law_event_caps_inflight(
    r: Congestion,
    bytes_in_flight: usize,
    lost_bytes: usize,
    packet: Sent,
    now: Instant,
)
    requires
        !r.cwnd_frozen,
        lost_bytes <= bytes_in_flight,
        bytes_in_flight - lost_bytes + r.bbr3_state.newly_acked_bytes <= usize::MAX,
        bytes_in_flight - lost_bytes + r.max_datagram_size <= usize::MAX,
        r.bbr3_state.congestion_losses_in_round < usize::MAX,
        r.bbr3_state.flags.bw_probe_samples,
        !r.delivery_rate.sample.is_app_limited,
        !r.satellite_loss_discrimination || !r.loss_isolated(now),
        lost_bytes > F64::of_nat(packet.tx_in_flight as nat).product(r.loss_threshold()).whole(
            usize::MAX as nat,
        ),
    ensures
        ({
            let before = r.bbr3_state;
            let after = r.congestion_event_handled(
                bytes_in_flight,
                lost_bytes,
                packet,
                now,
            ).bbr3_state;
            let target = if before.bdp <= r.congestion_window {
                before.bdp
            } else {
                r.congestion_window
            };
            let share = F64::of_nat(target as nat).product(F64 { bits: state::BETA }).whole(
                usize::MAX as nat,
            );
            &&& after.lost == lost_bytes
            &&& after.congestion_losses_in_round == before.congestion_losses_in_round + 1
            &&& after.inflight_hi >= after.tx_in_flight
            &&& after.inflight_hi >= share
            &&& after.inflight_hi == after.tx_in_flight || after.inflight_hi == share
            &&& after.flags.bw_probe_samples == (before.state == BBR3StateMachine::ProbeBWUP)
        }),
{
    law_event_runs_loss_steps(r, bytes_in_flight, lost_bytes, packet, now);
    law_congestion_loss_gets_response(r, packet, lost_bytes, now);
    law_loss_is_put_on_record(r, packet, lost_bytes, now);
}

/// A loss can be counted where both counters have room, and the minimum round trip, if it
/// is to be held against the time since the last loss, can be doubled.
pub proof fn law_loss_can_be_counted(r: Congestion, now: Instant)
    requires
        r.bbr3_state.consecutive_isolated_losses < u32::MAX,
        r.bbr3_state.congestion_losses_in_round < usize::MAX,
        r.bbr3_state.last_loss_time is None || r.bbr3_state.min_rtt.nanos == time::DURATION_MAX
            || r.bbr3_state.min_rtt.scales_by((F64 { bits: state::ISOLATED_LOSS_GAP })),
    ensures
        r.loss_countable(now),
{
}

/// Whether the round has congestion once an ACK has reported its losses: it had before, or
/// the ACK reports loss and either discrimination is off or a loss of the round was not
/// taken for a bit error.
proof fn lemma_round_has_congestion(r: Congestion)
    ensures
        r.loss_counted().bbr3_state.flags.loss_in_round == (r.bbr3_state.flags.loss_in_round || (
        r.bbr3_state.lost > 0 && (!r.satellite_loss_discrimination
            || r.bbr3_state.congestion_losses_in_round > 0))),
{
}

/// Congestion in a round lowers the short-term bounds, with discrimination on or off: at the
/// end of the loss round, and in ProbeBW_CRUISE on every ACK, unless the flow probes for
/// bandwidth. Each bound becomes the larger of what was delivered and the share that a round
/// with loss leaves, where a bound that was never set starts from the maximum bandwidth or
/// the window.
pub proof fn law_congestion_lowers_bounds(r: Congestion)
    requires
        r.bbr3_state.flags.loss_in_round || (r.bbr3_state.lost > 0 && (
        !r.satellite_loss_discrimination || r.bbr3_state.congestion_losses_in_round > 0)),
        r.bbr3_state.flags.loss_round_start || r.bbr3_state.state
            == BBR3StateMachine::ProbeBWCRUISE,
        r.bbr3_state.state != BBR3StateMachine::Startup,
        r.bbr3_state.state != BBR3StateMachine::ProbeBWREFILL,
        r.bbr3_state.state != BBR3StateMachine::ProbeBWUP,
    ensures
        ({
            let before = r.bbr3_state;
            let after = r.congestion_signals_applied().bbr3_state;
            let bw = if before.bw_lo == u64::MAX {
                before.max_bw
            } else {
                before.bw_lo
            };
            let inflight = if before.inflight_lo == usize::MAX {
                r.congestion_window
            } else {
                before.inflight_lo
            };
            let bw_share = F64::of_nat(bw as nat).product(F64 { bits: state::BETA }).whole(
                u64::MAX as nat,
            );
            let inflight_share = F64::of_nat(inflight as nat).product(
                F64 { bits: state::BETA },
            ).whole(usize::MAX as nat);
            &&& after.bw_lo >= before.bw_latest
            &&& after.bw_lo >= bw_share
            &&& after.bw_lo == before.bw_latest || after.bw_lo == bw_share
            &&& after.inflight_lo >= before.inflight_latest
            &&& after.inflight_lo >= inflight_share
            &&& after.inflight_lo == before.inflight_latest || after.inflight_lo
                == inflight_share
        }),
{
    let counted = r.loss_counted();
    lemma_round_has_congestion(r);
    lemma_counting_moves_two(r);
    assert(!counted.probing_bw());
    lemma_reduction_rule(counted.lower_bounds_initialized());
    assert(counted.lower_bounds_adapted()
        == counted.lower_bounds_initialized().lower_bounds_reduced());
}

/// Without congestion in the round, while the flow probes for bandwidth, and within a round
/// outside ProbeBW_CRUISE, the short-term bounds stay.
pub proof fn law_bounds_stay_without_occasion(r: Congestion)
    requires
        ({
            ||| !r.bbr3_state.flags.loss_in_round && (r.bbr3_state.lost == 0 || (
            r.satellite_loss_discrimination && r.bbr3_state.congestion_losses_in_round == 0))
            ||| !r.bbr3_state.flags.loss_round_start && r.bbr3_state.state
                != BBR3StateMachine::ProbeBWCRUISE
            ||| r.bbr3_state.state == BBR3StateMachine::Startup
            ||| r.bbr3_state.state == BBR3StateMachine::ProbeBWREFILL
            ||| r.bbr3_state.state == BBR3StateMachine::ProbeBWUP
        }),
    ensures
        r.congestion_signals_applied().bbr3_state.bw_lo == r.bbr3_state.bw_lo,
        r.congestion_signals_applied().bbr3_state.inflight_lo == r.bbr3_state.inflight_lo,
{
    lemma_round_has_congestion(r);
    lemma_counting_moves_two(r);
}

/// Within a loss round an ACK adds its losses to those of the round, and the end of the
/// round forgets them.
pub proof fn law_losses_belong_to_their_round(r: Congestion)
    requires
        r.bbr3_state.lost > 0 ==> r.bbr3_state.loss_events_in_round < usize::MAX,
    ensures
        ({
            let before = r.bbr3_state;
            let after = r.congestion_signals_applied().bbr3_state;
            if before.flags.loss_round_start {
                &&& !after.flags.loss_in_round
                &&& after.loss_events_in_round == 0
                &&& after.congestion_losses_in_round == 0
            } else {
                &&& after.flags.loss_in_round == (before.flags.loss_in_round || (before.lost > 0
                    && (!r.satellite_loss_discrimination || before.congestion_losses_in_round
                    > 0)))
                &&& before.lost > 0 ==> after.loss_events_in_round == before.loss_events_in_round
                    + 1
                &&& before.lost == 0 ==> after.loss_events_in_round
                    == before.loss_events_in_round
                &&& after.congestion_losses_in_round == before.congestion_losses_in_round
            }
        }),
{
    let counted = r.loss_counted();
    lemma_round_has_congestion(r);
    lemma_counting_moves_two(r);
    lemma_reduction_rule(counted.lower_bounds_initialized());
}

/// The signals of an ACK move the short-term bounds and the losses of the round, and
/// nothing else.
#[verifier::rlimit(40)]
#[verifier::spinoff_prover]
pub proof fn law_ack_signals_move_bounds_and_losses(r: Congestion)
    ensures
        ({
            let after = r.congestion_signals_applied().bbr3_state;
            r.congestion_signals_applied() == Congestion {
                bbr3_state: State {
                    flags: Flags {
                        loss_in_round: after.flags.loss_in_round,
                        ..r.bbr3_state.flags
                    },
                    bw_lo: after.bw_lo,
                    inflight_lo: after.inflight_lo,
                    loss_events_in_round: after.loss_events_in_round,
                    congestion_losses_in_round: after.congestion_losses_in_round,
                    ..r.bbr3_state
                },
                ..r
            }
        }),
{
    let counted = r.loss_counted();
    lemma_counting_moves_two(r);
    lemma_reduction_rule(counted.lower_bounds_initialized());
}

/// Counting a loss moves the flag and the number of events.
proof fn lemma_counting_moves_two(r: Congestion)
    ensures
        r.loss_counted() == (Congestion {
            bbr3_state: State {
                flags: Flags {
                    loss_in_round: r.loss_counted().bbr3_state.flags.loss_in_round,
                    ..r.bbr3_state.flags
                },
                loss_events_in_round: r.loss_counted().bbr3_state.loss_events_in_round,
                ..r.bbr3_state
            },
            ..r
        }),
{
}

/// A reduction moves the two short-term bounds.
proof fn lemma_reduction_rule(r: Congestion)
    ensures
        ({
            let before = r.bbr3_state;
            let after = r.lower_bounds_reduced().bbr3_state;
            let beta = F64 { bits: state::BETA };
            let bw = F64::of_nat(before.bw_lo as nat).product(beta).whole(u64::MAX as nat);
            let inflight = F64::of_nat(before.inflight_lo as nat).product(beta).whole(
                usize::MAX as nat,
            );
            &&& after.bw_lo == if before.bw_latest >= bw {
                before.bw_latest as nat
            } else {
                bw
            }
            &&& after.inflight_lo == if before.inflight_latest >= inflight {
                before.inflight_latest as nat
            } else {
                inflight
            }
            &&& r.lower_bounds_reduced() == Congestion {
                bbr3_state: State {
                    bw_lo: after.bw_lo,
                    inflight_lo: after.inflight_lo,
                    ..before
                },
                ..r
            }
        }),
{
    let beta = F64 { bits: state::BETA };
    nearest::lemma_whole_fits(
        F64::of_nat(r.bbr3_state.bw_lo as nat).product(beta),
        u64::MAX as nat,
    );
    nearest::lemma_whole_fits(
        F64::of_nat(r.bbr3_state.inflight_lo as nat).product(beta),
        usize::MAX as nat,
    );
}

/// The congestion signals respond to what the step for the maximum bandwidth made of the
/// controller: where that is bound to be `m`, the outcome is the response of `m`.
pub proof fn law_signals_follow_maximum_bandwidth<S: ControllerSteps>(
    r: Congestion,
    packet: Acked,
    steps: S,
    outcome: Congestion,
    m: Congestion,
)
    requires
        per_loss::congestion_signals_outcome(r, packet, steps, outcome),
        forall|x: Congestion| #[trigger]
            call_ensures(S::bbr3_update_max_bw, (&steps, r, &packet), x) ==> x == m,
    ensures
        outcome == m.congestion_signals_applied(),
{
}

/// Which states probe for bandwidth, and which are the ProbeBW states.
pub proof fn law_states_that_probe(r: Congestion)
    ensures
        r.probing_bw() == (r.bbr3_state.state == BBR3StateMachine::Startup || r.bbr3_state.state
            == BBR3StateMachine::ProbeBWREFILL || r.bbr3_state.state
            == BBR3StateMachine::ProbeBWUP),
        r.in_probe_bw() == (r.bbr3_state.state != BBR3StateMachine::Startup
            && r.bbr3_state.state != BBR3StateMachine::Drain && r.bbr3_state.state
            != BBR3StateMachine::ProbeRTT),
{
}

/// The target is the smaller of BDP and window, and the window to come back to is no smaller
/// than the present one: it is that one outside recovery and ProbeRTT, and there the larger
/// of it and the one saved before.
pub proof fn law_target_and_saved_window(r: Congestion)
    ensures
        ({
            let s = r.bbr3_state;
            let cut = s.flags.in_recovery || s.state == BBR3StateMachine::ProbeRTT;
            &&& r.target_inflight() <= s.bdp && r.target_inflight() <= r.congestion_window
            &&& r.target_inflight() == s.bdp || r.target_inflight() == r.congestion_window
            &&& r.window_to_save() >= r.congestion_window
            &&& !cut ==> r.window_to_save() == r.congestion_window
            &&& cut ==> r.window_to_save() >= s.prior_cwnd && (r.window_to_save()
                == s.prior_cwnd || r.window_to_save() == r.congestion_window)
        }),
{
}

/// What the start of ACK processing does to the delivery signals: each maximum becomes the
/// larger of itself and the sample, and a loss round ends exactly where the sample was
/// taken of data sent after it began; the next one then lasts until what is delivered now.
pub proof fn law_delivery_signals_rule(r: Congestion)
    ensures
        ({
            let before = r.bbr3_state;
            let sample = r.delivery_rate.sample;
            let after = r.delivery_signals_updated().bbr3_state;
            let ends = sample.prior_delivered >= before.loss_round_delivered;
            &&& after.bw_latest >= before.bw_latest && after.bw_latest >= sample.delivery_rate
            &&& after.bw_latest == before.bw_latest || after.bw_latest == sample.delivery_rate
            &&& after.inflight_latest >= before.inflight_latest && after.inflight_latest
                >= sample.delivered
            &&& after.inflight_latest == before.inflight_latest || after.inflight_latest
                == sample.delivered
            &&& after.flags.loss_round_start == ends
            &&& ends ==> after.loss_round_delivered == r.delivery_rate.delivered
            &&& !ends ==> after.loss_round_delivered == before.loss_round_delivered
            &&& r.delivery_signals_updated() == Congestion {
                bbr3_state: State {
                    flags: Flags {
                        loss_round_start: ends,
                        ..before.flags
                    },
                    bw_latest: after.bw_latest,
                    inflight_latest: after.inflight_latest,
                    loss_round_delivered: after.loss_round_delivered,
                    ..before
                },
                ..r
            }
        }),
{
}

/// What the end of ACK processing does to the delivery signals: where a loss round has
/// just ended they start from the sample, and otherwise nothing moves.
pub proof fn law_delivery_signals_restart_with_round(r: Congestion)
    ensures
        !r.bbr3_state.flags.loss_round_start ==> r.delivery_signals_advanced() == r,
        r.bbr3_state.flags.loss_round_start ==> r.delivery_signals_advanced() == (Congestion {
            bbr3_state: State {
                bw_latest: r.delivery_rate.sample.delivery_rate,
                inflight_latest: r.delivery_rate.sample.delivered,
                ..r.bbr3_state
            },
            ..r
        }),
{
}

/// Resetting the congestion signals forgets the losses and the deliveries of the round,
/// and nothing else.
pub proof fn law_reset_forgets_round(r: Congestion)
    ensures
        r.congestion_signals_reset() == (Congestion {
            bbr3_state: State {
                flags: Flags { loss_in_round: false, ..r.bbr3_state.flags },
                loss_events_in_round: 0,
                congestion_losses_in_round: 0,
                bw_latest: 0,
                inflight_latest: 0,
                ..r.bbr3_state
            },
            ..r
        }),
{
}

/// Forgotten short-term bounds bound nothing, and bounding the bandwidth without them
/// leaves the smaller of the maximum and the long-term bound.
pub proof fn law_forgotten_bounds_bound_nothing(r: Congestion)
    ensures
        ({
            let forgotten = r.lower_bounds_forgotten();
            let before = r.bbr3_state;
            let bw = forgotten.bandwidth_bounded().bbr3_state.bw;
            &&& forgotten == Congestion {
                bbr3_state: State { bw_lo: u64::MAX, inflight_lo: usize::MAX, ..before },
                ..r
            }
            &&& bw <= before.max_bw && bw <= before.bw_hi
            &&& bw == before.max_bw || bw == before.bw_hi
        }),
{
}

/// Bounding the bandwidth sets it to the smallest of the maximum and its two bounds, and
/// moves nothing else.
pub proof fn law_bounding_sets_bandwidth_alone(r: Congestion)
    ensures
        ({
            let before = r.bbr3_state;
            let bw = r.bandwidth_bounded().bbr3_state.bw;
            &&& bw <= before.max_bw && bw <= before.bw_lo && bw <= before.bw_hi
            &&& bw == before.max_bw || bw == before.bw_lo || bw == before.bw_hi
            &&& r.bandwidth_bounded() == Congestion { bbr3_state: State { bw, ..before }, ..r }
        }),
{
}

/// Entering recovery cuts the window to what is in flight and what was just acknowledged,
/// or one datagram if that is more; it saves the window, or keeps a larger one that was
/// saved before the window was cut; and a round starts.
pub proof fn law_entering_recovery_rule(r: Congestion, in_flight: usize, now: Instant)
    requires
        in_flight + r.bbr3_state.newly_acked_bytes <= usize::MAX,
        in_flight + r.max_datagram_size <= usize::MAX,
    ensures
        ({
            let before = r.bbr3_state;
            let outcome = r.recovery_entered(in_flight, now);
            let after = outcome.bbr3_state;
            let cut_before = before.flags.in_recovery || before.state
                == BBR3StateMachine::ProbeRTT;
            &&& outcome.congestion_window >= in_flight + before.newly_acked_bytes
            &&& outcome.congestion_window >= in_flight + r.max_datagram_size
            &&& outcome.congestion_window == in_flight + before.newly_acked_bytes
                || outcome.congestion_window == in_flight + r.max_datagram_size
            &&& after.prior_cwnd >= r.congestion_window
            &&& !cut_before ==> after.prior_cwnd == r.congestion_window
            &&& cut_before ==> after.prior_cwnd >= before.prior_cwnd && (after.prior_cwnd
                == before.prior_cwnd || after.prior_cwnd == r.congestion_window)
            &&& outcome == Congestion {
                bbr3_state: State {
                    flags: Flags {
                        packet_conservation: true,
                        in_recovery: true,
                        ..before.flags
                    },
                    prior_cwnd: after.prior_cwnd,
                    next_round_delivered: r.delivery_rate.delivered,
                    ..before
                },
                congestion_window: outcome.congestion_window,
                congestion_recovery_start_time: Some(now),
                ..r
            }
        }),
{
}

/// Leaving recovery brings the window back to the saved one, unless it is larger by then.
pub proof fn law_leaving_recovery_rule(r: Congestion)
    ensures
        ({
            let outcome = r.recovery_exited();
            &&& outcome.congestion_window >= r.congestion_window
            &&& outcome.congestion_window >= r.bbr3_state.prior_cwnd
            &&& outcome.congestion_window == r.congestion_window || outcome.congestion_window
                == r.bbr3_state.prior_cwnd
            &&& outcome == Congestion {
                bbr3_state: State {
                    flags: Flags {
                        packet_conservation: false,
                        in_recovery: false,
                        ..r.bbr3_state.flags
                    },
                    ..r.bbr3_state
                },
                congestion_window: outcome.congestion_window,
                congestion_recovery_start_time: None,
                ..r
            }
        }),
{
}

/// A packet belongs to the recovery episode exactly where there is one and the packet was
/// not sent after it began.
pub proof fn law_episode_holds_earlier_packets(r: Congestion, sent_time: Instant)
    ensures
        r.recovering(sent_time) == (r.congestion_recovery_start_time is Some && sent_time.nanos
            <= r.congestion_recovery_start_time->0.nanos),
{
}

/// The end of an idle period is noted in every state, with the time from which
/// aggregation is measured anew. In the ProbeBW states the flow then paces at the estimated
/// bandwidth, gain one; in ProbeRTT it checks whether that is done.
pub proof fn law_restart_rule<S: ControllerSteps>(
    r: Congestion,
    now: Instant,
    steps: S,
    outcome: Congestion,
)
    requires
        r.delivery_rate.app_limited,
        per_transmit::restart_outcome(r, 0, now, steps, outcome),
    ensures
        ({
            let noted = Congestion {
                bbr3_state: State {
                    flags: Flags { idle_restart: true, ..r.bbr3_state.flags },
                    extra_acked_interval_start: now,
                    ..r.bbr3_state
                },
                ..r
            };
            match r.bbr3_state.state {
                BBR3StateMachine::Startup => outcome == noted,
                BBR3StateMachine::Drain => outcome == noted,
                BBR3StateMachine::ProbeRTT => call_ensures(
                    S::bbr3_check_probe_rtt_done,
                    (&steps, noted, now),
                    outcome,
                ),
                _ => call_ensures(
                    S::bbr3_set_pacing_rate_with_gain,
                    (&steps, noted, F64 { bits: float64::ONE }),
                    outcome,
                ),
            }
        }),
{
}

/// A new controller has the configured window, no episode, and no freeze; a new flow is in
/// Startup, bounds nothing and has measured, counted and flagged nothing.
pub proof fn law_new_controller_rule(cfg: RecoveryConfig, now: Instant)
    requires
        cfg.max_datagram_size * cfg.initial_congestion_window_packets <= usize::MAX,
    ensures
        ({
            let r = Congestion::configured(cfg, now);
            let s = r.bbr3_state;
            &&& r.congestion_window == cfg.max_datagram_size
                * cfg.initial_congestion_window_packets
            &&& r.send_quantum == r.congestion_window
            &&& r.max_datagram_size == cfg.max_datagram_size
            &&& r.initial_congestion_window_packets == cfg.initial_congestion_window_packets
            &&& r.satellite_loss_threshold == cfg.satellite_loss_threshold
            &&& r.satellite_loss_discrimination == cfg.satellite_loss_discrimination
            &&& r.congestion_recovery_start_time is None
            &&& !r.cwnd_frozen
            &&& r.delivery_rate.delivered == 0 && !r.delivery_rate.app_limited
            &&& r.delivery_rate.sample.rtt.nanos == 0 && r.delivery_rate.sample.delivered == 0
            &&& r.delivery_rate.sample.delivery_rate == 0
            &&& r.delivery_rate.sample.prior_delivered == 0
            &&& !r.delivery_rate.sample.is_app_limited
            &&& s.state == BBR3StateMachine::Startup && s.ack_phase == BBR3AckPhase::Init
            &&& s.bw_hi == u64::MAX && s.bw_lo == u64::MAX
            &&& s.inflight_hi == usize::MAX && s.inflight_lo == usize::MAX
            &&& s.min_rtt.nanos == time::DURATION_MAX
            &&& s.probe_rtt_min_delay.nanos == time::DURATION_MAX
            &&& s.ecn_alpha.bits == float64::ONE
            &&& s.pacing_gain.bits == 0 && s.cwnd_gain.bits == 0
            &&& s.last_loss_time is None && s.probe_rtt_done_stamp is None
            &&& s.extra_acked_interval_start == now && s.min_rtt_stamp == now
            &&& s.probe_rtt_min_stamp == now && s.start_time == now && s.cycle_stamp == now
            &&& s.tx_in_flight == 0 && s.lost == 0
            &&& s.newly_acked_bytes == 0 && s.newly_lost_bytes == 0
            &&& s.pacing_rate == 0 && s.init_pacing_rate == 0
            &&& s.round_count == 0 && s.next_round_delivered == 0
            &&& s.max_bw == 0 && s.bw == 0 && s.bdp == 0
            &&& s.extra_acked == 0 && s.offload_budget == 0 && s.max_inflight == 0
            &&& s.bw_latest == 0 && s.inflight_latest == 0
            &&& s.max_bw_filter.estimate == 0 && s.extra_acked_filter.estimate == 0
            &&& s.cycle_count == 0 && s.extra_acked_delivered == 0
            &&& s.full_bw == 0 && s.full_bw_count == 0
            &&& s.prior_cwnd == 0 && s.probe_up_cnt == 0 && s.prior_bytes_in_flight == 0
            &&& s.bw_probe_wait.nanos == 0 && s.rounds_since_probe == 0
            &&& s.bw_probe_up_rounds == 0 && s.bw_probe_up_acks == 0
            &&& s.loss_round_delivered == 0 && s.loss_events_in_round == 0
            &&& s.congestion_losses_in_round == 0 && s.consecutive_isolated_losses == 0
            &&& s.ecn_bytes_delivered == 0 && s.ecn_ce_bytes_delivered == 0
            &&& s.prior_ecn_ce_count == 0
            &&& !s.flags.packet_conservation && !s.flags.round_start && !s.flags.idle_restart
            &&& !s.flags.filled_pipe && !s.flags.probe_rtt_expired && !s.flags.in_recovery
            &&& !s.flags.bw_probe_samples && !s.flags.probe_rtt_round_done
            &&& !s.flags.loss_round_start && !s.flags.loss_in_round
            &&& !s.flags.ecn_eligible && !s.flags.ecn_in_round
        }),
{
}

/// Packets hold together what each of them holds.
pub proof fn law_sizes_add_up(packets: Seq<Acked>, packet: Acked)
    ensures
        controller::total_size(Seq::empty()) == 0,
        controller::total_size(packets.push(packet)) == controller::total_size(packets)
            + packet.size,
{
    assert(packets.push(packet).drop_last() =~= packets);
}

/// An ACK hands every packet to the model step in turn, with what is in flight before it:
/// the first one with the controller as it stands, no bytes newly acknowledged yet.
pub proof fn law_model_step_sees_every_packet<S: ControllerSteps>(
    r: Congestion,
    bytes_in_flight: usize,
    packets: Seq<Acked>,
    now: Instant,
    ecn_counts: Option<EcnCounts>,
    steps: S,
    outcome: Congestion,
    i: int,
)
    requires
        controller::acks_outcome(r, bytes_in_flight, packets, now, ecn_counts, steps, outcome),
        controller::total_size(packets) <= bytes_in_flight,
        0 <= i < packets.len(),
    ensures
        exists|x: Congestion, m: Congestion| #[trigger]
            call_ensures(
                S::bbr3_update_model_and_state,
                (
                    &steps,
                    x,
                    &packets[i],
                    (bytes_in_flight - controller::total_size(packets.take(i))) as usize,
                    now,
                ),
                m,
            ),
        exists|m: Congestion| #[trigger]
            call_ensures(
                S::bbr3_update_model_and_state,
                (
                    &steps,
                    (Congestion {
                        bbr3_state: State {
                            newly_acked_bytes: 0,
                            prior_bytes_in_flight: bytes_in_flight,
                            ..r.bbr3_state
                        },
                        ..r
                    }),
                    &packets[0],
                    bytes_in_flight,
                    now,
                ),
                m,
            ),
{
    let (before, models, tuned) = choose|
        before: Seq<Congestion>,
        models: Seq<Congestion>,
        tuned: Congestion,
    |
        {
            &&& #[trigger] controller::ack_run(
                steps,
                packets,
                bytes_in_flight,
                now,
                before,
                models,
            )
            &&& before[0] == r.acks_begun(bytes_in_flight)
            &&& #[trigger] call_ensures(
                S::bbr3_update_control_parameters,
                (
                    &steps,
                    before.last().recovery_checked(packets),
                    (bytes_in_flight - controller::total_size(packets)) as usize,
                    now,
                ),
                tuned,
            )
            &&& outcome == tuned.acks_finished(ecn_counts)
        };
    assert(packets.take(0) =~= Seq::empty());
    let left = (bytes_in_flight - controller::total_size(packets.take(i))) as usize;
    assert(call_ensures(
        S::bbr3_update_model_and_state,
        (&steps, before[i], &packets[i], left, now),
        models[i],
    ));
    assert(call_ensures(
        S::bbr3_update_model_and_state,
        (&steps, before[0], &packets[0], bytes_in_flight, now),
        models[0],
    ));
}

/// After the packets the control step runs once, with what they leave in flight, and what
/// it makes of the controller is the outcome but for ECN and the lost bytes.
pub proof fn law_control_step_sees_what_is_left<S: ControllerSteps>(
    r: Congestion,
    bytes_in_flight: usize,
    packets: Seq<Acked>,
    now: Instant,
    ecn_counts: Option<EcnCounts>,
    steps: S,
    outcome: Congestion,
)
    requires
        controller::acks_outcome(r, bytes_in_flight, packets, now, ecn_counts, steps, outcome),
        controller::total_size(packets) <= bytes_in_flight,
    ensures
        exists|x: Congestion, tuned: Congestion|
            {
                &&& #[trigger] call_ensures(
                    S::bbr3_update_control_parameters,
                    (
                        &steps,
                        x,
                        (bytes_in_flight - controller::total_size(packets)) as usize,
                        now,
                    ),
                    tuned,
                )
                &&& outcome == Congestion {
                    bbr3_state: State {
                        newly_lost_bytes: 0,
                        ..match ecn_counts {
                            Some(ecn) => tuned.bbr3_state.ecn_updated(ecn),
                            None => tuned.bbr3_state,
                        }
                    },
                    ..tuned
                }
            },
{
}

/// Whether the steps of an ACK leave the controller as it is.
pub open spec fn ack_steps_change_nothing<S: ControllerSteps>(steps: S) -> bool {
    &&& forall|r: Congestion, packet: &Acked, left: usize, now: Instant, m: Congestion| #[trigger]
        call_ensures(S::bbr3_update_model_and_state, (&steps, r, packet, left, now), m) ==> m == r
    &&& forall|r: Congestion, left: usize, now: Instant, m: Congestion| #[trigger]
        call_ensures(S::bbr3_update_control_parameters, (&steps, r, left, now), m) ==> m == r
}

/// What a run leaves where the model step changes nothing.
proof fn lemma_run_of_still_steps<S: ControllerSteps>(
    r: Congestion,
    bytes_in_flight: usize,
    packets: Seq<Acked>,
    now: Instant,
    steps: S,
    before: Seq<Congestion>,
    models: Seq<Congestion>,
)
    requires
        ack_steps_change_nothing(steps),
        controller::ack_run(steps, packets, bytes_in_flight, now, before, models),
        before[0] == r.acks_begun(bytes_in_flight),
        controller::total_size(packets) <= bytes_in_flight,
        r.bbr3_state.ecn_bytes_delivered + controller::total_size(packets) <= usize::MAX,
    ensures
        before.last() == (Congestion {
            bbr3_state: State {
                newly_acked_bytes: controller::total_size(packets) as usize,
                ecn_bytes_delivered: (r.bbr3_state.ecn_bytes_delivered + controller::total_size(
                    packets,
                )) as usize,
                prior_bytes_in_flight: if packets.len() == 0 {
                    bytes_in_flight
                } else {
                    (bytes_in_flight - controller::total_size(packets.drop_last())) as usize
                },
                ..r.bbr3_state
            },
            ..r
        }),
    decreases packets.len(),
{
    if packets.len() > 0 {
        laws::lemma_ack_run_shortened(steps, packets, bytes_in_flight, now, before, models);
        lemma_run_of_still_steps(
            r,
            bytes_in_flight,
            packets.drop_last(),
            now,
            steps,
            before.drop_last(),
            models.drop_last(),
        );
    }
}

/// The end of recovery in full.
#[verifier::rlimit(40)]
#[verifier::spinoff_prover]
proof fn lemma_recovery_checked(r: Congestion, packets: Seq<Acked>)
    ensures
        ({
            let within = match r.congestion_recovery_start_time {
                Some(start) => packets.last().time_sent.nanos <= start.nanos,
                None => false,
            };
            let leaves = packets.len() > 0 && !within;
            r.recovery_checked(packets) == Congestion {
                bbr3_state: State {
                    flags: Flags {
                        packet_conservation: r.bbr3_state.flags.packet_conservation && !leaves,
                        in_recovery: r.bbr3_state.flags.in_recovery && !leaves,
                        ..r.bbr3_state.flags
                    },
                    ..r.bbr3_state
                },
                congestion_window: if leaves && r.bbr3_state.prior_cwnd > r.congestion_window {
                    r.bbr3_state.prior_cwnd
                } else {
                    r.congestion_window
                },
                congestion_recovery_start_time: if leaves {
                    None
                } else {
                    r.congestion_recovery_start_time
                },
                ..r
            }
        }),
{
}

/// What the packets of an ACK make of the controller where the steps change nothing: their
/// bytes are counted, what was in flight before the last of them is noted, and recovery has
/// ended where that was sent after the episode began.
#[verifier::opaque]
pub open spec fn packets_accounted(
    r: Congestion,
    bytes_in_flight: usize,
    packets: Seq<Acked>,
) -> Congestion {
    let within = match r.congestion_recovery_start_time {
        Some(start) => packets.last().time_sent.nanos <= start.nanos,
        None => false,
    };
    let leaves = packets.len() > 0 && !within;
    Congestion {
        bbr3_state: State {
            flags: Flags {
                packet_conservation: r.bbr3_state.flags.packet_conservation && !leaves,
                in_recovery: r.bbr3_state.flags.in_recovery && !leaves,
                ..r.bbr3_state.flags
            },
            newly_acked_bytes: controller::total_size(packets) as usize,
            ecn_bytes_delivered: (r.bbr3_state.ecn_bytes_delivered + controller::total_size(
                packets,
            )) as usize,
            prior_bytes_in_flight: if packets.len() == 0 {
                bytes_in_flight
            } else {
                (bytes_in_flight - controller::total_size(packets.drop_last())) as usize
            },
            ..r.bbr3_state
        },
        congestion_window: if leaves && r.bbr3_state.prior_cwnd > r.congestion_window {
            r.bbr3_state.prior_cwnd
        } else {
            r.congestion_window
        },
        congestion_recovery_start_time: if leaves {
            None
        } else {
            r.congestion_recovery_start_time
        },
        ..r
    }
}

/// A run with the end of recovery, where the steps change nothing.
#[verifier::rlimit(40)]
#[verifier::spinoff_prover]
proof fn lemma_packets_accounted(
    r: Congestion,
    bytes_in_flight: usize,
    packets: Seq<Acked>,
    last: Congestion,
)
    requires
        last == (Congestion {
            bbr3_state: State {
                newly_acked_bytes: controller::total_size(packets) as usize,
                ecn_bytes_delivered: (r.bbr3_state.ecn_bytes_delivered + controller::total_size(
                    packets,
                )) as usize,
                prior_bytes_in_flight: if packets.len() == 0 {
                    bytes_in_flight
                } else {
                    (bytes_in_flight - controller::total_size(packets.drop_last())) as usize
                },
                ..r.bbr3_state
            },
            ..r
        }),
    ensures
        last.recovery_checked(packets) == packets_accounted(r, bytes_in_flight, packets),
{
    reveal(packets_accounted);
    lemma_recovery_checked(last, packets);
}

/// Taking in the ECN counts replaces the state variables, and the lost bytes are settled.
proof fn lemma_acks_finished(r: Congestion, ecn_counts: Option<EcnCounts>)
    ensures
        r.acks_finished(ecn_counts) == (Congestion {
            bbr3_state: State {
                newly_lost_bytes: 0,
                ..match ecn_counts {
                    Some(ecn) => r.bbr3_state.ecn_updated(ecn),
                    None => r.bbr3_state,
                }
            },
            ..r
        }),
{
}

/// An ACK before ECN, where its steps change nothing.
proof fn lemma_ack_of_still_steps<S: ControllerSteps>(
    r: Congestion,
    bytes_in_flight: usize,
    packets: Seq<Acked>,
    now: Instant,
    ecn_counts: Option<EcnCounts>,
    steps: S,
    outcome: Congestion,
)
    requires
        ack_steps_change_nothing(steps),
        controller::acks_outcome(r, bytes_in_flight, packets, now, ecn_counts, steps, outcome),
        controller::total_size(packets) <= bytes_in_flight,
        r.bbr3_state.ecn_bytes_delivered + controller::total_size(packets) <= usize::MAX,
    ensures
        outcome == packets_accounted(r, bytes_in_flight, packets).acks_finished(ecn_counts),
{
    let (before, models, tuned) = choose|
        before: Seq<Congestion>,
        models: Seq<Congestion>,
        tuned: Congestion,
    |
        {
            &&& #[trigger] controller::ack_run(
                steps,
                packets,
                bytes_in_flight,
                now,
                before,
                models,
            )
            &&& before[0] == r.acks_begun(bytes_in_flight)
            &&& #[trigger] call_ensures(
                S::bbr3_update_control_parameters,
                (
                    &steps,
                    before.last().recovery_checked(packets),
                    (bytes_in_flight - controller::total_size(packets)) as usize,
                    now,
                ),
                tuned,
            )
            &&& outcome == tuned.acks_finished(ecn_counts)
        };
    lemma_run_of_still_steps(r, bytes_in_flight, packets, now, steps, before, models);
    assert(tuned == before.last().recovery_checked(packets));
    lemma_packets_accounted(r, bytes_in_flight, packets, before.last());
}

/// What an ACK does on its own, where its steps change nothing: it accounts for its packets,
/// takes in the ECN counts, and settles the lost bytes.
pub proof fn law_ack_accounting_rule<S: ControllerSteps>(
    r: Congestion,
    bytes_in_flight: usize,
    packets: Seq<Acked>,
    now: Instant,
    ecn_counts: Option<EcnCounts>,
    steps: S,
    outcome: Congestion,
)
    requires
        ack_steps_change_nothing(steps),
        controller::acks_outcome(r, bytes_in_flight, packets, now, ecn_counts, steps, outcome),
        controller::total_size(packets) <= bytes_in_flight,
        r.bbr3_state.ecn_bytes_delivered + controller::total_size(packets) <= usize::MAX,
    ensures
        ({
            let accounted = packets_accounted(r, bytes_in_flight, packets);
            outcome == Congestion {
                bbr3_state: State {
                    newly_lost_bytes: 0,
                    ..match ecn_counts {
                        Some(ecn) => accounted.bbr3_state.ecn_updated(ecn),
                        None => accounted.bbr3_state,
                    }
                },
                ..accounted
            }
        }),
{
    lemma_ack_of_still_steps(r, bytes_in_flight, packets, now, ecn_counts, steps, outcome);
    lemma_acks_finished(packets_accounted(r, bytes_in_flight, packets), ecn_counts);
}

/// A rate in kbit/sec is eight thousandths of it, without the fraction; no limit is -1.
pub proof fn law_rate_is_told_in_kilobits(rate: u64)
    requires
        rate < u64::MAX ==> rate * 8 < 1000 * (isize::MAX + 1),
    ensures
        rate == u64::MAX ==> controller::kbps_of(rate) == -1,
        rate < u64::MAX ==> 1000 * controller::kbps_of(rate) <= 8 * rate < 1000 * (
        controller::kbps_of(rate) + 1),
{
}

/// The time since an earlier instant leads back to the present; a later one is no time ago.
pub proof fn law_time_since_leads_to_now(now: Instant, earlier: Instant)
    ensures
        earlier.nanos <= now.nanos ==> earlier.nanos + now.since(earlier) == now.nanos,
        earlier.nanos > now.nanos ==> now.since(earlier) == 0,
{
}

}
