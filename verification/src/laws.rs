//! What holds of the controller whatever the path does to its packets.

use vstd::prelude::*;

use crate::congestion::{Acked, Congestion, EcnCounts, RecoveryConfig, Sent};
use crate::controller;
use crate::per_transmit;
use crate::state::{BBR3StateMachine, State};
use crate::state;
use crate::steps::ControllerSteps;
use crate::time::Instant;
use crate::time;

verus! {

/// Too much data in flight does not end ProbeBW_UP: the flow keeps its state and its
/// bandwidth probe samples, and only the cap on inflight moves.
pub proof fn law_probe_up_goes_on(r: Congestion)
    requires
        r.bbr3_state.state == BBR3StateMachine::ProbeBWUP,
    ensures
        r.inflight_too_high_handled() == r.with_state(
            (State {
                inflight_hi: r.inflight_too_high_handled().bbr3_state.inflight_hi,
                ..r.bbr3_state
            }),
        ),
{
}

/// Too much data in flight ends the bandwidth probe in every state but ProbeBW_UP, and
/// leads to no other state.
pub proof fn law_probe_ends_outside_probe_up(r: Congestion)
    requires
        !r.cwnd_frozen,
        r.bbr3_state.state != BBR3StateMachine::ProbeBWUP,
    ensures
        !r.inflight_too_high_handled().bbr3_state.flags.bw_probe_samples,
        r.inflight_too_high_handled().bbr3_state.state == r.bbr3_state.state,
{
}

/// A frozen window reacts to nothing.
pub proof fn law_frozen_window_stays(
    r: Congestion,
    bytes_in_flight: usize,
    lost_bytes: usize,
    packet: Sent,
    now: Instant,
)
    requires
        r.cwnd_frozen,
    ensures
        r.inflight_too_high_handled() == r,
        r.congestion_event_handled(bytes_in_flight, lost_bytes, packet, now) == r,
{
}

/// Without bandwidth probe samples a lost packet changes nothing.
pub proof fn law_loss_without_samples_is_ignored(
    r: Congestion,
    packet: Sent,
    lost_bytes: usize,
    now: Instant,
)
    requires
        !r.bbr3_state.flags.bw_probe_samples,
    ensures
        r.lost_packet_handled(packet, lost_bytes, now) == r,
{
}

/// A loss that is taken for a bit error is noted and counted, and gets no response: the
/// probe goes on, the cap stays, and the round has no more congestion than before.
pub proof fn law_bit_error_gets_no_response(
    r: Congestion,
    packet: Sent,
    lost_bytes: usize,
    now: Instant,
)
    requires
        r.bbr3_state.flags.bw_probe_samples,
        r.loss_is_bit_error(now),
    ensures
        r.lost_packet_handled(packet, lost_bytes, now) == r.loss_noted(
            packet,
            lost_bytes,
        ).with_state(
            (State {
                tx_in_flight: packet.tx_in_flight,
                lost: lost_bytes,
                last_loss_time: Some(now),
                consecutive_isolated_losses: (r.bbr3_state.consecutive_isolated_losses
                    + 1) as u32,
                ..r.bbr3_state
            }),
        ),
{
}

/// The first loss of a flow stands alone, whatever the path.
pub proof fn law_first_loss_is_isolated(r: Congestion, now: Instant)
    requires
        r.bbr3_state.last_loss_time is None,
    ensures
        r.loss_isolated(now),
{
}

/// While the minimum round trip is unknown, no loss but the first stands alone.
pub proof fn law_loss_on_unknown_path_is_congestion(r: Congestion, now: Instant)
    requires
        r.bbr3_state.last_loss_time is Some,
        r.bbr3_state.min_rtt.nanos == time::DURATION_MAX,
    ensures
        !r.loss_isolated(now),
{
}

/// Without discrimination every loss counts as congestion, and nothing is kept of when
/// losses came.
pub proof fn law_every_loss_counts_without_discrimination(
    r: Congestion,
    packet: Sent,
    lost_bytes: usize,
    now: Instant,
)
    requires
        r.bbr3_state.flags.bw_probe_samples,
        !r.satellite_loss_discrimination,
        r.bbr3_state.congestion_losses_in_round < usize::MAX,
    ensures
        ({
            let after = r.lost_packet_handled(packet, lost_bytes, now).bbr3_state;
            &&& after.congestion_losses_in_round == r.bbr3_state.congestion_losses_in_round + 1
            &&& after.last_loss_time == r.bbr3_state.last_loss_time
            &&& after.consecutive_isolated_losses == r.bbr3_state.consecutive_isolated_losses
        }),
{
}

/// With discrimination, a round in which every loss was taken for a bit error does not
/// lower the short-term bounds, and does not count as one with loss.
pub proof fn law_bit_errors_keep_lower_bounds(r: Congestion)
    requires
        r.satellite_loss_discrimination,
        r.bbr3_state.congestion_losses_in_round == 0,
        !r.bbr3_state.flags.loss_in_round,
    ensures
        r.congestion_signals_applied().bbr3_state.bw_lo == r.bbr3_state.bw_lo,
        r.congestion_signals_applied().bbr3_state.inflight_lo == r.bbr3_state.inflight_lo,
        !r.congestion_signals_applied().bbr3_state.flags.loss_in_round,
        r.congestion_signals_applied().bbr3_state.congestion_losses_in_round == 0,
{
}

/// A loss that is taken for a bit error, followed by the ACK that reports it, lowers no
/// short-term bound.
pub proof fn law_bit_error_then_ack_keeps_lower_bounds(
    r: Congestion,
    packet: Sent,
    lost_bytes: usize,
    now: Instant,
)
    requires
        r.bbr3_state.flags.bw_probe_samples,
        r.loss_is_bit_error(now),
        r.bbr3_state.congestion_losses_in_round == 0,
        !r.bbr3_state.flags.loss_in_round,
    ensures
        ({
            let after = r.lost_packet_handled(
                packet,
                lost_bytes,
                now,
            ).congestion_signals_applied().bbr3_state;
            &&& after.bw_lo == r.bbr3_state.bw_lo
            &&& after.inflight_lo == r.bbr3_state.inflight_lo
        }),
{
    law_bit_error_gets_no_response(r, packet, lost_bytes, now);
    law_bit_errors_keep_lower_bounds(r.lost_packet_handled(packet, lost_bytes, now));
}

/// A flow that probes for bandwidth does not lower its short-term bounds.
pub proof fn law_probing_keeps_lower_bounds(r: Congestion)
    requires
        r.probing_bw(),
    ensures
        r.congestion_signals_applied().bbr3_state.bw_lo == r.bbr3_state.bw_lo,
        r.congestion_signals_applied().bbr3_state.inflight_lo == r.bbr3_state.inflight_lo,
{
}

/// Within a round the short-term bounds stay, except in ProbeBW_CRUISE.
pub proof fn law_lower_bounds_wait_for_round_end(r: Congestion)
    requires
        !r.bbr3_state.flags.loss_round_start,
        r.bbr3_state.state != BBR3StateMachine::ProbeBWCRUISE,
    ensures
        r.congestion_signals_applied().bbr3_state.bw_lo == r.bbr3_state.bw_lo,
        r.congestion_signals_applied().bbr3_state.inflight_lo == r.bbr3_state.inflight_lo,
{
}

/// A round without loss leaves the short-term bounds alone, in every state.
pub proof fn law_lower_bounds_stay_without_loss(r: Congestion)
    requires
        r.bbr3_state.lost == 0,
        !r.bbr3_state.flags.loss_in_round,
    ensures
        r.congestion_signals_applied().bbr3_state.bw_lo == r.bbr3_state.bw_lo,
        r.congestion_signals_applied().bbr3_state.inflight_lo == r.bbr3_state.inflight_lo,
{
}

/// In ProbeBW_CRUISE loss lowers the short-term bounds before the round ends, and the
/// round keeps its losses.
pub proof fn law_cruise_responds_within_round(r: Congestion)
    requires
        r.bbr3_state.state == BBR3StateMachine::ProbeBWCRUISE,
        !r.bbr3_state.flags.loss_round_start,
        r.bbr3_state.flags.loss_in_round,
    ensures
        ({
            let after = r.congestion_signals_applied().bbr3_state;
            let reduced = r.lower_bounds_initialized().lower_bounds_reduced().bbr3_state;
            &&& after.bw_lo == reduced.bw_lo
            &&& after.inflight_lo == reduced.inflight_lo
            &&& after.flags.loss_in_round
            &&& after.congestion_losses_in_round == r.bbr3_state.congestion_losses_in_round
        }),
{
}

/// The end of a loss round forgets the losses of the round.
pub proof fn law_round_end_forgets_losses(r: Congestion)
    requires
        r.bbr3_state.flags.loss_round_start,
    ensures
        !r.congestion_signals_applied().bbr3_state.flags.loss_in_round,
        r.congestion_signals_applied().bbr3_state.loss_events_in_round == 0,
        r.congestion_signals_applied().bbr3_state.congestion_losses_in_round == 0,
{
}

/// The first congestion after the short-term bounds were forgotten starts from the
/// maximum bandwidth and the window.
pub proof fn law_lower_bounds_start_from_model(r: Congestion)
    ensures
        ({
            let forgotten = r.with_state(
                State { bw_lo: u64::MAX, inflight_lo: usize::MAX, ..r.bbr3_state },
            );
            &&& forgotten.lower_bounds_initialized().bbr3_state.bw_lo == r.bbr3_state.max_bw
            &&& forgotten.lower_bounds_initialized().bbr3_state.inflight_lo
                == r.congestion_window
        }),
{
}

/// The bandwidth is the smallest of the maximum, the long-term bound and the short-term
/// bound.
pub proof fn law_bandwidth_is_smallest_bound(s: State)
    ensures
        s.bounded_bw() <= s.max_bw,
        s.bounded_bw() <= s.bw_hi,
        s.bounded_bw() <= s.bw_lo,
        s.bounded_bw() == s.max_bw || s.bounded_bw() == s.bw_hi || s.bounded_bw() == s.bw_lo,
{
}

/// Leaving recovery undoes entering it: the window is no smaller than before, and no
/// packet belongs to an episode any more.
pub proof fn law_recovery_gives_window_back(
    r: Congestion,
    in_flight: usize,
    now: Instant,
    sent_time: Instant,
)
    requires
        in_flight + r.recovery_allowance() <= usize::MAX,
    ensures
        ({
            let after = r.recovery_entered(in_flight, now).recovery_exited();
            &&& after.congestion_window >= r.congestion_window
            &&& !after.bbr3_state.flags.in_recovery
            &&& !after.bbr3_state.flags.packet_conservation
            &&& !after.recovering(sent_time)
        }),
{
}

/// A loss outside an episode begins one: the window becomes what is left in flight and
/// one more flight of ACKs, and the episode holds the packets sent until now.
pub proof fn law_loss_begins_episode(
    r: Congestion,
    bytes_in_flight: usize,
    lost_bytes: usize,
    packet: Sent,
    now: Instant,
    sent_time: Instant,
)
    requires
        !r.cwnd_frozen,
        !r.recovering(packet.time_sent),
        r.congestion_event_accepted(bytes_in_flight, lost_bytes, packet, now),
    ensures
        ({
            let after = r.congestion_event_handled(bytes_in_flight, lost_bytes, packet, now);
            &&& after.bbr3_state.flags.in_recovery
            &&& after.bbr3_state.flags.packet_conservation
            &&& after.congestion_window == bytes_in_flight - lost_bytes + r.recovery_allowance()
            &&& after.bbr3_state.newly_lost_bytes == lost_bytes
            &&& after.recovering(sent_time) <==> sent_time.nanos <= now.nanos
        }),
{
}

/// Another loss of the same episode cuts the window no further.
pub proof fn law_episode_cuts_window_once(
    r: Congestion,
    bytes_in_flight: usize,
    lost_bytes: usize,
    packet: Sent,
    now: Instant,
)
    requires
        r.recovering(packet.time_sent),
    ensures
        ({
            let after = r.congestion_event_handled(bytes_in_flight, lost_bytes, packet, now);
            &&& after.congestion_window == r.congestion_window
            &&& after.bbr3_state.prior_cwnd == r.bbr3_state.prior_cwnd
            &&& after.congestion_recovery_start_time == r.congestion_recovery_start_time
        }),
{
}

/// The loss threshold is the configured one while the round trip is stable, and the
/// default one while it is inflated or where none is configured.
pub proof fn law_loss_threshold_is_configured_or_default(r: Congestion)
    ensures
        r.rtt_inflated() ==> r.loss_threshold().bits == state::LOSS_THRESH,
        !r.rtt_inflated() && r.satellite_loss_threshold is Some ==> r.loss_threshold()
            == r.satellite_loss_threshold->0,
        r.satellite_loss_threshold is None ==> r.loss_threshold().bits == state::LOSS_THRESH,
        r.satellite_loss_threshold is None ==> r.loss_threshold_defined(),
{
}

/// Where inflight is too high, more loss of the same volume leaves it too high.
pub proof fn law_more_loss_stays_too_high(r: Congestion, lost: usize)
    requires
        r.inflight_too_high(),
        lost >= r.bbr3_state.lost,
    ensures
        r.with_state((State { lost, ..r.bbr3_state })).inflight_too_high(),
{
    let more = r.with_state(State { lost, ..r.bbr3_state });
    assert(more.loss_threshold() == r.loss_threshold());
}

/// Without loss inflight is never too high.
pub proof fn law_no_loss_is_tolerated(r: Congestion)
    requires
        r.bbr3_state.lost == 0,
    ensures
        !r.inflight_too_high(),
{
}

/// The volume at which the loss of a packet met the threshold holds all that was in
/// flight before the packet.
pub proof fn law_threshold_volume_holds_earlier_packets(r: Congestion, size: usize)
    requires
        size <= r.bbr3_state.tx_in_flight,
    ensures
        r.inflight_at_threshold(size) >= r.bbr3_state.tx_in_flight - size,
{
}

/// Over an ACK the delivery signals are maxima of what came before and of the sample; at
/// the end of a loss round they become the sample.
pub proof fn law_delivery_signals_are_round_maxima(r: Congestion)
    ensures
        ({
            let updated = r.delivery_signals_updated();
            let advanced = updated.delivery_signals_advanced();
            let sample = r.delivery_rate.sample;
            &&& updated.bbr3_state.bw_latest >= r.bbr3_state.bw_latest
            &&& updated.bbr3_state.bw_latest >= sample.delivery_rate
            &&& updated.bbr3_state.inflight_latest >= r.bbr3_state.inflight_latest
            &&& updated.bbr3_state.inflight_latest >= sample.delivered
            &&& r.loss_round_ends() ==> advanced.bbr3_state.bw_latest == sample.delivery_rate
                && advanced.bbr3_state.inflight_latest == sample.delivered
            &&& !r.loss_round_ends() ==> advanced == updated
        }),
{
}

/// The interval between ProbeRTT states is the configured one, or five seconds.
pub proof fn law_probe_rtt_interval_is_configured_or_default(cfg: RecoveryConfig, now: Instant)
    ensures
        ({
            let interval = Congestion::configured(cfg, now).bbr3_state.probe_rtt_interval;
            &&& cfg.probe_rtt_interval is Some ==> interval == cfg.probe_rtt_interval->0
            &&& cfg.probe_rtt_interval is None ==> interval.nanos == 5_000_000_000
        }),
{
}

/// A transmission changes nothing unless it ends an idle period.
pub proof fn law_busy_transmission_changes_nothing<S: ControllerSteps>(
    r: Congestion,
    bytes_in_flight: usize,
    now: Instant,
    steps: S,
    outcome: Congestion,
)
    requires
        bytes_in_flight > 0 || !r.delivery_rate.app_limited,
        per_transmit::restart_outcome(r, bytes_in_flight, now, steps, outcome),
    ensures
        outcome == r,
{
}

/// In Startup and Drain the end of an idle period is noted, and nothing else happens.
pub proof fn law_restart_outside_probes_is_only_noted<S: ControllerSteps>(
    r: Congestion,
    now: Instant,
    steps: S,
    outcome: Congestion,
)
    requires
        r.bbr3_state.state == BBR3StateMachine::Startup || r.bbr3_state.state
            == BBR3StateMachine::Drain,
        r.delivery_rate.app_limited,
        per_transmit::restart_outcome(r, 0, now, steps, outcome),
    ensures
        outcome == r.idle_restart_noted(now),
{
}

/// A run without its last packet.
pub(crate) proof fn lemma_ack_run_shortened<S: ControllerSteps>(
    steps: S,
    packets: Seq<Acked>,
    bytes_in_flight: usize,
    now: Instant,
    before: Seq<Congestion>,
    models: Seq<Congestion>,
)
    requires
        controller::ack_run(steps, packets, bytes_in_flight, now, before, models),
        packets.len() > 0,
    ensures
        controller::ack_run(
            steps,
            packets.drop_last(),
            bytes_in_flight,
            now,
            before.drop_last(),
            models.drop_last(),
        ),
        ({
            let left = (bytes_in_flight - controller::total_size(packets.drop_last())) as usize;
            &&& call_ensures(
                S::bbr3_update_model_and_state,
                (&steps, before.drop_last().last(), &packets.last(), left, now),
                models.last(),
            )
            &&& before.last() == models.last().packet_accounted(packets.last().size, left)
        }),
{
    let shorter = packets.drop_last();
    let modelled = models.drop_last();
    assert forall|i: int| 0 <= i < shorter.len() implies {
        let left = (bytes_in_flight - controller::total_size(shorter.take(i))) as usize;
        &&& call_ensures(
            S::bbr3_update_model_and_state,
            (&steps, before.drop_last()[i], &shorter[i], left, now),
            #[trigger] modelled[i],
        )
        &&& before.drop_last()[i + 1] == modelled[i].packet_accounted(shorter[i].size, left)
    } by {
        assert(shorter.take(i) =~= packets.take(i));
        assert(modelled[i] == models[i]);
    }
    let last = packets.len() - 1;
    assert(packets.take(last) =~= shorter);
    assert(models[last] == models.last());
}

/// Whether the model step never adds to the counts of acknowledged bytes.
pub open spec fn model_step_counts_nothing<S: ControllerSteps>(steps: S) -> bool {
    forall|r: Congestion, packet: &Acked, left: usize, now: Instant, m: Congestion| #[trigger]
        call_ensures(S::bbr3_update_model_and_state, (&steps, r, packet, left, now), m) ==> {
            &&& m.bbr3_state.newly_acked_bytes <= r.bbr3_state.newly_acked_bytes
            &&& m.bbr3_state.ecn_bytes_delivered <= r.bbr3_state.ecn_bytes_delivered
        }
}

/// Whether the model step leaves the counts of acknowledged bytes alone.
pub open spec fn model_step_keeps_counts<S: ControllerSteps>(steps: S) -> bool {
    forall|r: Congestion, packet: &Acked, left: usize, now: Instant, m: Congestion| #[trigger]
        call_ensures(S::bbr3_update_model_and_state, (&steps, r, packet, left, now), m) ==> {
            &&& m.bbr3_state.newly_acked_bytes == r.bbr3_state.newly_acked_bytes
            &&& m.bbr3_state.ecn_bytes_delivered == r.bbr3_state.ecn_bytes_delivered
        }
}

/// Over a run the counts grow by no more than the acknowledged bytes.
proof fn lemma_run_counts_at_most<S: ControllerSteps>(
    r: Congestion,
    bytes_in_flight: usize,
    packets: Seq<Acked>,
    now: Instant,
    steps: S,
    before: Seq<Congestion>,
    models: Seq<Congestion>,
)
    requires
        model_step_counts_nothing(steps),
        controller::ack_run(steps, packets, bytes_in_flight, now, before, models),
        before[0] == r.acks_begun(bytes_in_flight),
        controller::total_size(packets) <= bytes_in_flight,
        r.bbr3_state.ecn_bytes_delivered + controller::total_size(packets) <= usize::MAX,
    ensures
        before.last().bbr3_state.newly_acked_bytes <= controller::total_size(packets),
        before.last().bbr3_state.ecn_bytes_delivered <= r.bbr3_state.ecn_bytes_delivered
            + controller::total_size(packets),
    decreases packets.len(),
{
    if packets.len() > 0 {
        lemma_ack_run_shortened(steps, packets, bytes_in_flight, now, before, models);
        lemma_run_counts_at_most(
            r,
            bytes_in_flight,
            packets.drop_last(),
            now,
            steps,
            before.drop_last(),
            models.drop_last(),
        );
    }
}

/// Where the model step never adds to the counts of acknowledged bytes, they have room
/// for every packet of an ACK that they have room for in total.
pub proof fn law_counts_have_room<S: ControllerSteps>(
    r: Congestion,
    bytes_in_flight: usize,
    packets: Seq<Acked>,
    now: Instant,
    steps: S,
)
    requires
        model_step_counts_nothing(steps),
        controller::total_size(packets) <= bytes_in_flight,
        r.bbr3_state.ecn_bytes_delivered + controller::total_size(packets) <= usize::MAX,
    ensures
        controller::acks_countable(r, bytes_in_flight, packets, now, steps),
{
    assert forall|n: int, before: Seq<Congestion>, models: Seq<Congestion>|
        0 < n <= packets.len() && #[trigger] controller::ack_run(
            steps,
            packets.take(n),
            bytes_in_flight,
            now,
            before,
            models,
        ) && before[0] == r.acks_begun(bytes_in_flight) implies {
        let counted = models[n - 1].bbr3_state;
        &&& counted.newly_acked_bytes + packets[n - 1].size <= usize::MAX
        &&& counted.ecn_bytes_delivered + packets[n - 1].size <= usize::MAX
    } by {
        let run = packets.take(n);
        controller::lemma_total_size_grows(packets, n - 1);
        lemma_ack_run_shortened(steps, run, bytes_in_flight, now, before, models);
        assert(run.drop_last() =~= packets.take(n - 1));
        lemma_run_counts_at_most(
            r,
            bytes_in_flight,
            run.drop_last(),
            now,
            steps,
            before.drop_last(),
            models.drop_last(),
        );
    }
}

/// Where the model step leaves the counts of acknowledged bytes alone, a run through an
/// ACK counts every byte of its packets once.
pub proof fn law_every_acked_byte_counts_once<S: ControllerSteps>(
    r: Congestion,
    bytes_in_flight: usize,
    packets: Seq<Acked>,
    now: Instant,
    steps: S,
    before: Seq<Congestion>,
    models: Seq<Congestion>,
)
    requires
        model_step_keeps_counts(steps),
        controller::ack_run(steps, packets, bytes_in_flight, now, before, models),
        before[0] == r.acks_begun(bytes_in_flight),
        controller::total_size(packets) <= bytes_in_flight,
        r.bbr3_state.ecn_bytes_delivered + controller::total_size(packets) <= usize::MAX,
    ensures
        before.last().bbr3_state.newly_acked_bytes == controller::total_size(packets),
        before.last().bbr3_state.ecn_bytes_delivered == r.bbr3_state.ecn_bytes_delivered
            + controller::total_size(packets),
    decreases packets.len(),
{
    if packets.len() > 0 {
        lemma_ack_run_shortened(steps, packets, bytes_in_flight, now, before, models);
        law_every_acked_byte_counts_once(
            r,
            bytes_in_flight,
            packets.drop_last(),
            now,
            steps,
            before.drop_last(),
            models.drop_last(),
        );
    }
}

/// Once an ACK is done with, no newly lost bytes remain.
pub proof fn law_acks_settle_newly_lost<S: ControllerSteps>(
    r: Congestion,
    bytes_in_flight: usize,
    packets: Seq<Acked>,
    now: Instant,
    ecn_counts: Option<EcnCounts>,
    steps: S,
    outcome: Congestion,
)
    requires
        controller::acks_outcome(r, bytes_in_flight, packets, now, ecn_counts, steps, outcome),
    ensures
        outcome.bbr3_state.newly_lost_bytes == 0,
{
}

/// An ACK of a packet sent after the episode began ends recovery, and an ACK of one
/// within it does not.
pub proof fn law_recovery_ends_with_later_packet(r: Congestion, packets: Seq<Acked>)
    requires
        packets.len() > 0,
    ensures
        !r.recovering(packets.last().time_sent) ==> {
            let after = r.recovery_checked(packets);
            &&& !after.bbr3_state.flags.in_recovery
            &&& after.congestion_recovery_start_time is None
            &&& after.congestion_window >= r.congestion_window
            &&& after.congestion_window >= r.bbr3_state.prior_cwnd
        },
        r.recovering(packets.last().time_sent) ==> r.recovery_checked(packets) == r,
{
}

}
