//! The hooks through which a connection drives its congestion controller.

use vstd::prelude::*;

use crate::congestion::{Acked, Congestion, EcnCounts, Sent};
use crate::float64::F64;
use crate::float64;
use crate::per_ack;
use crate::per_loss;
use crate::per_transmit;
use crate::state::{Flags, State};
use crate::state;
use crate::steps::ControllerSteps;
use crate::time::{Duration, Instant};
use crate::time;

verus! {

impl Congestion {
    /// The controller as it enters recovery with `in_flight` bytes left in flight: the
    /// window is saved and cut to what is in flight and one more flight of ACKs, and a
    /// round starts.
    pub open spec fn recovery_entered(self, in_flight: usize, now: Instant) -> Congestion {
        Congestion {
            bbr3_state: State {
                flags: Flags {
                    packet_conservation: true,
                    in_recovery: true,
                    ..self.bbr3_state.flags
                },
                prior_cwnd: self.window_to_save(),
                next_round_delivered: self.delivery_rate.delivered,
                ..self.bbr3_state
            },
            congestion_window: (in_flight + self.recovery_allowance()) as usize,
            congestion_recovery_start_time: Some(now),
            ..self
        }
    }

    /// What may be sent upon entering recovery: what was just acknowledged, and at least
    /// one packet.
    pub open spec fn recovery_allowance(self) -> nat {
        per_loss::larger(self.bbr3_state.newly_acked_bytes as nat, self.max_datagram_size as nat)
    }

    /// The controller as it leaves recovery: the saved window is back.
    pub open spec fn recovery_exited(self) -> Congestion {
        Congestion {
            congestion_recovery_start_time: None,
            ..self.with_state(
                State {
                    flags: Flags {
                        packet_conservation: false,
                        in_recovery: false,
                        ..self.bbr3_state.flags
                    },
                    ..self.bbr3_state
                },
            )
        }.with_window_restored()
    }

    /// The controller once it has noted how much was lost.
    pub open spec fn lost_bytes_noted(self, lost_bytes: usize) -> Congestion {
        self.with_state(State { newly_lost_bytes: lost_bytes, ..self.bbr3_state })
    }

    /// What a congestion event makes of the controller: a frozen window ignores it; any
    /// other handles the loss, and enters recovery where the lost packet is not of the
    /// current episode.
    pub open spec fn congestion_event_handled(
        self,
        bytes_in_flight: usize,
        lost_bytes: usize,
        packet: Sent,
        now: Instant,
    ) -> Congestion {
        let handled = self.lost_bytes_noted(lost_bytes).lost_packet_handled(
            packet,
            lost_bytes,
            now,
        );
        if self.cwnd_frozen {
            self
        } else if self.recovering(packet.time_sent) {
            handled
        } else {
            handled.recovery_entered((bytes_in_flight - lost_bytes) as usize, now)
        }
    }

    /// What `congestion_event_handled` computes on the way stays in range.
    pub open spec fn congestion_event_accepted(
        self,
        bytes_in_flight: usize,
        lost_bytes: usize,
        packet: Sent,
        now: Instant,
    ) -> bool {
        !self.cwnd_frozen ==> {
            &&& self.lost_bytes_noted(lost_bytes).lost_packet_accepted(packet, lost_bytes, now)
            &&& !self.recovering(packet.time_sent) ==> {
                &&& lost_bytes <= bytes_in_flight
                &&& bytes_in_flight - lost_bytes + self.recovery_allowance() <= usize::MAX
            }
        }
    }
}

/// When entering the recovery episode.
pub fn bbr3_enter_recovery(r: &mut Congestion, in_flight: usize, now: Instant)
    requires
        in_flight + old(r).recovery_allowance() <= usize::MAX,
    ensures
        *final(r) == old(r).recovery_entered(in_flight, now),
{
    let prior_cwnd: usize = per_ack::bbr3_save_cwnd(r);
    let allowance: usize = per_loss::larger_usize(
        r.bbr3_state.newly_acked_bytes,
        r.max_datagram_size,
    );
    r.bbr3_state.prior_cwnd = prior_cwnd;
    r.congestion_window = in_flight + allowance;
    r.congestion_recovery_start_time = Some(now);
    r.bbr3_state.flags.packet_conservation = true;
    r.bbr3_state.flags.in_recovery = true;
    // Start round now.
    r.bbr3_state.next_round_delivered = r.delivery_rate.delivered;
}

/// When exiting the recovery episode.
pub fn bbr3_exit_recovery(r: &mut Congestion)
    ensures
        *final(r) == old(r).recovery_exited(),
{
    r.congestion_recovery_start_time = None;
    r.bbr3_state.flags.packet_conservation = false;
    r.bbr3_state.flags.in_recovery = false;
    per_ack::bbr3_restore_cwnd(r);
}

/// Puts a new controller into Startup.
pub fn on_init<S: ControllerSteps>(r: &mut Congestion, steps: &S)
    ensures
        call_ensures(S::bbr3_init, (steps, *old(r)), *final(r)),
{
    *r = steps.bbr3_init(*r);
}

/// Tells the controller that a packet is about to be sent.
pub fn on_packet_sent<S: ControllerSteps>(
    r: &mut Congestion,
    _sent_bytes: usize,
    bytes_in_flight: usize,
    now: Instant,
    steps: &S,
)
    ensures
        per_transmit::restart_outcome(*old(r), bytes_in_flight, now, *steps, *final(r)),
{
    per_transmit::bbr3_on_transmit(r, bytes_in_flight, now, steps);
}

/// The bytes that packets hold together.
pub open spec fn total_size(packets: Seq<Acked>) -> nat
    decreases packets.len(),
{
    if packets.len() == 0 {
        0
    } else {
        total_size(packets.drop_last()) + packets.last().size as nat
    }
}

impl Congestion {
    /// The controller as it starts on the packets of an ACK.
    pub open spec fn acks_begun(self, bytes_in_flight: usize) -> Congestion {
        self.with_state(
            State {
                newly_acked_bytes: 0,
                prior_bytes_in_flight: bytes_in_flight,
                ..self.bbr3_state
            },
        )
    }

    /// The controller once an acknowledged packet of `size` bytes is accounted for, with
    /// `bytes_in_flight` bytes in flight before it.
    pub open spec fn packet_accounted(self, size: usize, bytes_in_flight: usize) -> Congestion {
        self.with_state(
            State {
                prior_bytes_in_flight: bytes_in_flight,
                newly_acked_bytes: (self.bbr3_state.newly_acked_bytes + size) as usize,
                ecn_bytes_delivered: (self.bbr3_state.ecn_bytes_delivered + size) as usize,
                ..self.bbr3_state
            },
        )
    }

    /// The controller once it has left recovery where the last acknowledged packet was
    /// sent after the episode began.
    pub open spec fn recovery_checked(self, packets: Seq<Acked>) -> Congestion {
        if packets.len() > 0 && !self.recovering(packets.last().time_sent) {
            self.recovery_exited()
        } else {
            self
        }
    }

    /// The controller once an ACK is done with: ECN counts are taken in, and no newly lost
    /// bytes remain.
    pub open spec fn acks_finished(self, ecn_counts: Option<EcnCounts>) -> Congestion {
        let updated = match ecn_counts {
            Some(ecn) => self.bbr3_state.ecn_updated(ecn),
            None => self.bbr3_state,
        };
        self.with_state(State { newly_lost_bytes: 0, ..updated })
    }
}

/// Whether `before` and `models` record a run through acknowledged packets: `before[i]`
/// is the controller before packet `i`, and `models[i]` what the model step made of it
/// with the bytes still in flight; the accounting of the packet leads to `before[i + 1]`.
pub open spec fn ack_run<S: ControllerSteps>(
    steps: S,
    packets: Seq<Acked>,
    bytes_in_flight: usize,
    now: Instant,
    before: Seq<Congestion>,
    models: Seq<Congestion>,
) -> bool {
    &&& before.len() == packets.len() + 1
    &&& models.len() == packets.len()
    &&& forall|i: int|
        0 <= i < packets.len() ==> {
            let left = (bytes_in_flight - total_size(packets.take(i))) as usize;
            &&& call_ensures(
                S::bbr3_update_model_and_state,
                (&steps, before[i], &packets[i], left, now),
                #[trigger] models[i],
            )
            &&& before[i + 1] == models[i].packet_accounted(packets[i].size, left)
        }
}

/// Whether the counts of acknowledged bytes have room for each packet, whatever the
/// model step makes of the controller before it.
pub open spec fn acks_countable<S: ControllerSteps>(
    r: Congestion,
    bytes_in_flight: usize,
    packets: Seq<Acked>,
    now: Instant,
    steps: S,
) -> bool {
    forall|n: int, before: Seq<Congestion>, models: Seq<Congestion>|
        0 < n <= packets.len() && #[trigger] ack_run(
            steps,
            packets.take(n),
            bytes_in_flight,
            now,
            before,
            models,
        ) && before[0] == r.acks_begun(bytes_in_flight) ==> {
            let counted = models[n - 1].bbr3_state;
            &&& counted.newly_acked_bytes + packets[n - 1].size <= usize::MAX
            &&& counted.ecn_bytes_delivered + packets[n - 1].size <= usize::MAX
        }
}

/// Whether `outcome` is what an ACK may make of the controller: a run through the
/// packets, the end of recovery, the control parameters for what is left in flight, and
/// the ECN counts.
pub open spec fn acks_outcome<S: ControllerSteps>(
    r: Congestion,
    bytes_in_flight: usize,
    packets: Seq<Acked>,
    now: Instant,
    ecn_counts: Option<EcnCounts>,
    steps: S,
    outcome: Congestion,
) -> bool {
    exists|before: Seq<Congestion>, models: Seq<Congestion>, tuned: Congestion|
        {
            &&& #[trigger] ack_run(steps, packets, bytes_in_flight, now, before, models)
            &&& before[0] == r.acks_begun(bytes_in_flight)
            &&& #[trigger] call_ensures(
                S::bbr3_update_control_parameters,
                (
                    &steps,
                    before.last().recovery_checked(packets),
                    (bytes_in_flight - total_size(packets)) as usize,
                    now,
                ),
                tuned,
            )
            &&& outcome == tuned.acks_finished(ecn_counts)
        }
}

/// A larger part of the packets holds at least as many bytes.
pub(crate) proof fn lemma_total_size_grows(packets: Seq<Acked>, i: int)
    requires
        0 <= i < packets.len(),
    ensures
        total_size(packets.take(i + 1)) == total_size(packets.take(i)) + packets[i].size,
        total_size(packets.take(i + 1)) <= total_size(packets),
    decreases packets.len() - i,
{
    assert(packets.take(i + 1).drop_last() =~= packets.take(i));
    if i + 1 < packets.len() {
        lemma_total_size_grows(packets, i + 1);
    } else {
        assert(packets.take(i + 1) =~= packets);
    }
}

/// A run goes on with one more packet.
proof fn lemma_ack_run_extended<S: ControllerSteps>(
    steps: S,
    packets: Seq<Acked>,
    bytes_in_flight: usize,
    now: Instant,
    before: Seq<Congestion>,
    models: Seq<Congestion>,
    packet: Acked,
    left: usize,
    model: Congestion,
)
    requires
        ack_run(steps, packets, bytes_in_flight, now, before, models),
        left == bytes_in_flight - total_size(packets),
        call_ensures(
            S::bbr3_update_model_and_state,
            (&steps, before.last(), &packet, left, now),
            model,
        ),
    ensures
        ack_run(
            steps,
            packets.push(packet),
            bytes_in_flight,
            now,
            before.push(model.packet_accounted(packet.size, left)),
            models.push(model),
        ),
{
    let longer = packets.push(packet);
    let befores = before.push(model.packet_accounted(packet.size, left));
    let modelled = models.push(model);
    assert forall|i: int| 0 <= i < longer.len() implies {
        let left = (bytes_in_flight - total_size(longer.take(i))) as usize;
        &&& call_ensures(
            S::bbr3_update_model_and_state,
            (&steps, befores[i], &longer[i], left, now),
            #[trigger] modelled[i],
        )
        &&& befores[i + 1] == modelled[i].packet_accounted(longer[i].size, left)
    } by {
        assert(longer.take(i) =~= packets.take(i));
        if i < packets.len() {
            assert(modelled[i] == models[i]);
            assert(befores[i] == before[i]);
            assert(befores[i + 1] == before[i + 1]);
            assert(longer[i] == packets[i]);
        } else {
            assert(packets.take(i) =~= packets);
        }
    }
}

/// Accounts for an acknowledged packet.
fn account_packet(r: &mut Congestion, size: usize, bytes_in_flight: usize)
    requires
        old(r).bbr3_state.newly_acked_bytes + size <= usize::MAX,
        old(r).bbr3_state.ecn_bytes_delivered + size <= usize::MAX,
    ensures
        *final(r) == old(r).packet_accounted(size, bytes_in_flight),
{
    r.bbr3_state.prior_bytes_in_flight = bytes_in_flight;
    r.bbr3_state.newly_acked_bytes = r.bbr3_state.newly_acked_bytes + size;
    r.bbr3_state.ecn_bytes_delivered = r.bbr3_state.ecn_bytes_delivered + size;
}

/// Takes in the ECN counts of an ACK and is done with it.
fn finish_acks(r: &mut Congestion, ecn_counts: Option<EcnCounts>)
    ensures
        *final(r) == old(r).acks_finished(ecn_counts),
{
    if let Some(ecn) = ecn_counts {
        per_loss::bbr3_update_ecn(r, &ecn);
    }
    r.bbr3_state.newly_lost_bytes = 0;
}

/// Tells the controller of acknowledged packets, which it takes out of `packets`.
pub fn on_packets_acked<S: ControllerSteps>(
    r: &mut Congestion,
    bytes_in_flight: usize,
    packets: &mut Vec<Acked>,
    now: Instant,
    ecn_counts: Option<EcnCounts>,
    steps: &S,
)
    requires
        total_size(old(packets)@) <= bytes_in_flight,
        acks_countable(*old(r), bytes_in_flight, old(packets)@, now, *steps),
    ensures
        final(packets)@.len() == 0,
        acks_outcome(
            *old(r),
            bytes_in_flight,
            old(packets)@,
            now,
            ecn_counts,
            *steps,
            *final(r),
        ),
{
    let ghost all = packets@;
    r.bbr3_state.newly_acked_bytes = 0;
    r.bbr3_state.prior_bytes_in_flight = bytes_in_flight;
    let ghost mut before: Seq<Congestion> = seq![*r];
    let ghost mut models: Seq<Congestion> = seq![];
    let mut left: usize = bytes_in_flight;
    let mut i: usize = 0;
    while i < packets.len()
        invariant
            packets@ == all,
            i <= all.len(),
            total_size(all) <= bytes_in_flight,
            left == bytes_in_flight - total_size(all.take(i as int)),
            acks_countable(*old(r), bytes_in_flight, all, now, *steps),
            ack_run(*steps, all.take(i as int), bytes_in_flight, now, before, models),
            before[0] == old(r).acks_begun(bytes_in_flight),
            before.last() == *r,
        decreases all.len() - i,
    {
        let p: Acked = packets[i];
        proof {
            lemma_total_size_grows(all, i as int);
        }
        *r = steps.bbr3_update_model_and_state(*r, &p, left, now);
        proof {
            lemma_ack_run_extended(
                *steps,
                all.take(i as int),
                bytes_in_flight,
                now,
                before,
                models,
                p,
                left,
                *r,
            );
            before = before.push(r.packet_accounted(p.size, left));
            models = models.push(*r);
            assert(all.take(i as int).push(p) =~= all.take(i + 1));
        }
        account_packet(r, p.size, left);
        left = left - p.size;
        i = i + 1;
    }
    assert(all.take(i as int) =~= all);
    if packets.len() > 0 {
        let sent: Instant = packets[packets.len() - 1].time_sent;
        if !r.in_congestion_recovery(sent) {
            // Upon exiting loss recovery.
            bbr3_exit_recovery(r);
        }
    }
    packets.clear();
    assert(*r == before.last().recovery_checked(all));
    *r = steps.bbr3_update_control_parameters(*r, left, now);
    assert(call_ensures(
        S::bbr3_update_control_parameters,
        (
            steps,
            before.last().recovery_checked(all),
            (bytes_in_flight - total_size(all)) as usize,
            now,
        ),
        *r,
    ));
    finish_acks(r, ecn_counts);
}

/// Whether `congestion_event` accepts the loss of packets, the largest of which is
/// `largest_lost_pkt`.
pub fn is_congestion_event_accepted(
    r: &Congestion,
    bytes_in_flight: usize,
    lost_bytes: usize,
    largest_lost_pkt: &Sent,
    now: Instant,
) -> (b: bool)
    ensures
        b == r.congestion_event_accepted(bytes_in_flight, lost_bytes, *largest_lost_pkt, now),
{
    if r.cwnd_frozen {
        return true;
    }
    let mut noted: Congestion = *r;
    noted.bbr3_state.newly_lost_bytes = lost_bytes;
    if !per_loss::is_lost_packet_accepted(&noted, largest_lost_pkt, lost_bytes, now) {
        return false;
    }
    if r.in_congestion_recovery(largest_lost_pkt.time_sent) {
        return true;
    }
    let allowance: usize = per_loss::larger_usize(
        r.bbr3_state.newly_acked_bytes,
        r.max_datagram_size,
    );
    lost_bytes <= bytes_in_flight && bytes_in_flight - lost_bytes <= usize::MAX - allowance
}

/// Tells the controller of lost packets, the largest of which is `largest_lost_pkt`.
#[verifier::rlimit(30)]
pub fn congestion_event(
    r: &mut Congestion,
    bytes_in_flight: usize,
    lost_bytes: usize,
    largest_lost_pkt: &Sent,
    now: Instant,
)
    requires
        old(r).congestion_event_accepted(bytes_in_flight, lost_bytes, *largest_lost_pkt, now),
    ensures
        *final(r) == old(r).congestion_event_handled(
            bytes_in_flight,
            lost_bytes,
            *largest_lost_pkt,
            now,
        ),
{
    if r.cwnd_frozen {
        return;
    }
    r.bbr3_state.newly_lost_bytes = lost_bytes;
    per_loss::bbr3_update_on_loss(r, largest_lost_pkt, lost_bytes, now);
    if !r.in_congestion_recovery(largest_lost_pkt.time_sent) {
        // Upon entering Fast Recovery.
        bbr3_enter_recovery(r, bytes_in_flight - lost_bytes, now);
    }
}

/// Keeps no state to come back to.
pub fn checkpoint(r: &mut Congestion)
    ensures
        *final(r) == *old(r),
{
}

/// Has no state to come back to.
pub fn rollback(r: &mut Congestion) -> (done: bool)
    ensures
        !done,
        *final(r) == *old(r),
{
    false
}

/// Whether the controller paces on its own: always.
pub fn has_custom_pacing() -> (b: bool)
    ensures
        b,
{
    true
}

/// The Hybla-inspired factor by which a path is longer than the reference:
/// `max(min_rtt / 25ms, 1.0)`.
pub open spec fn rho(min_rtt: Duration) -> F64 {
    let ratio = F64::of_nat(min_rtt.nanos as nat).quotient(
        F64::of_nat(state::REFERENCE_RTT as nat),
    );
    if ratio.exceeds(F64 { bits: float64::ONE }) {
        ratio
    } else {
        F64 { bits: float64::ONE }
    }
}

/// Computes the Hybla-inspired factor from the minimum round trip.
pub fn satellite_rho(min_rtt: Duration) -> (f: F64)
    requires
        min_rtt.nanos <= time::DURATION_MAX,
    ensures
        f == rho(min_rtt),
{
    let one: F64 = F64 { bits: float64::ONE };
    let ratio: F64 = F64::from_u128(min_rtt.nanos).over(F64::from_u64(state::REFERENCE_RTT));
    if ratio.is_above(one) {
        ratio
    } else {
        one
    }
}

/// A rate in kbit/sec, or -1 where it is not limited.
pub open spec fn kbps_of(rate: u64) -> int {
    if rate == u64::MAX {
        -1
    } else {
        ((rate * 8 / 1000) as isize) as int
    }
}

/// A rate in kbit/sec, or -1 where it is not limited.
pub fn rate_kbps(rate: u64) -> (kbps: isize)
    ensures
        kbps == kbps_of(rate),
{
    if rate == u64::MAX {
        -1
    } else {
        (rate as u128 * 8 / 1000) as isize
    }
}

}