use bbr3::congestion::{Acked, Congestion, EcnCounts, RecoveryConfig, Sent};
use bbr3::controller;
use bbr3::debug;
use bbr3::float64::F64;
use bbr3::per_ack;
use bbr3::per_loss;
use bbr3::per_transmit;
use bbr3::state::{BBR3AckPhase, BBR3StateMachine, State};
use bbr3::steps::ControllerSteps;
use bbr3::time::{Duration, Instant};

/// Steps that leave a trace of what they were called with.
struct Tracing;

impl ControllerSteps for Tracing {
    fn bbr3_init(&self, mut r: Congestion) -> Congestion {
        r.bbr3_state.init_pacing_rate = 77;
        r
    }

    fn bbr3_update_max_bw(&self, mut r: Congestion, packet: &Acked) -> Congestion {
        r.bbr3_state.max_bw = packet.delivered as u64;
        r
    }

    fn bbr3_update_model_and_state(
        &self,
        mut r: Congestion,
        packet: &Acked,
        bytes_in_flight: usize,
        _now: Instant,
    ) -> Congestion {
        r.bbr3_state.round_count += packet.pkt_num;
        r.bbr3_state.full_bw_count = bytes_in_flight;
        r
    }

    fn bbr3_update_control_parameters(
        &self,
        mut r: Congestion,
        bytes_in_flight: usize,
        _now: Instant,
    ) -> Congestion {
        r.send_quantum = bytes_in_flight;
        r.bbr3_state.max_inflight = r.congestion_window;
        r
    }

    fn bbr3_set_pacing_rate_with_gain(&self, mut r: Congestion, pacing_gain: F64) -> Congestion {
        r.bbr3_state.pacing_rate = f64::from_bits(pacing_gain.bits) as u64 * 1000;
        r
    }

    fn bbr3_check_probe_rtt_done(&self, mut r: Congestion, now: Instant) -> Congestion {
        r.bbr3_state.probe_rtt_done_stamp = Some(now);
        r
    }
}

fn at(millis: u128) -> Instant {
    Instant { nanos: millis * 1_000_000 }
}

fn controller_at(now: Instant) -> Congestion {
    Congestion::from_config(
        &RecoveryConfig {
            max_datagram_size: 1200,
            initial_congestion_window_packets: 10,
            satellite_loss_threshold: None,
            satellite_loss_discrimination: false,
            probe_rtt_interval: None,
        },
        now,
    )
}

fn sent(time_sent: Instant, size: usize, tx_in_flight: usize) -> Sent {
    Sent {
        pkt_num: 1,
        time_sent,
        time_acked: None,
        time_lost: None,
        size,
        ack_eliciting: true,
        in_flight: true,
        delivered: 0,
        delivered_time: time_sent,
        first_sent_time: time_sent,
        is_app_limited: false,
        tx_in_flight,
        lost: 0,
        has_data: true,
        pmtud: false,
    }
}

fn acked(pkt_num: u64, time_sent: Instant, size: usize) -> Acked {
    Acked {
        pkt_num,
        time_sent,
        size,
        rtt: Duration::from_millis(50),
        delivered: 4_000,
        delivered_time: time_sent,
        first_sent_time: time_sent,
        is_app_limited: false,
    }
}

#[test]
fn init_runs_the_init_step() {
    let mut r = controller_at(at(0));
    controller::on_init(&mut r, &Tracing);
    assert_eq!(r.bbr3_state.init_pacing_rate, 77);
    assert_eq!(r.congestion_window, 12_000);
}

#[test]
fn new_state_has_no_bounds() {
    let s = State::new(at(5));
    assert_eq!(s.bw_hi, u64::MAX);
    assert_eq!(s.bw_lo, u64::MAX);
    assert_eq!(s.inflight_hi, usize::MAX);
    assert_eq!(s.inflight_lo, usize::MAX);
    assert_eq!(s.min_rtt, Duration::max());
    assert_eq!(s.probe_rtt_min_delay, Duration::max());
    assert_eq!(s.start_time, at(5));
    assert_eq!(s.min_rtt_stamp, at(5));
    assert_eq!(s.cycle_stamp, at(5));
    assert_eq!(s.extra_acked_interval_start, at(5));
    assert_eq!(s.probe_rtt_min_stamp, at(5));
    assert_eq!(s.ack_phase, BBR3AckPhase::Init);
    assert_eq!(s.bw_probe_wait.nanos, 0);
    assert_eq!(s.max_bw_filter.estimate, 0);
    assert!(s.probe_rtt_done_stamp.is_none());
    assert_eq!(s.probe_rtt_interval, Duration::from_secs(5));
}

#[test]
fn restart_from_idle_depends_on_the_state() {
    let now = at(40);
    let states = [
        BBR3StateMachine::ProbeBWDOWN,
        BBR3StateMachine::ProbeBWCRUISE,
        BBR3StateMachine::ProbeBWREFILL,
        BBR3StateMachine::ProbeBWUP,
    ];
    for state in states {
        let mut r = controller_at(at(0));
        r.delivery_rate.app_limited = true;
        r.bbr3_state.state = state;
        assert!(per_ack::bbr3_is_in_a_probe_bw_state(&r));
        controller::on_packet_sent(&mut r, 1200, 0, now, &Tracing);
        assert!(r.bbr3_state.flags.idle_restart);
        assert_eq!(r.bbr3_state.extra_acked_interval_start, now);
        assert_eq!(r.bbr3_state.pacing_rate, 1000);
        assert!(r.bbr3_state.probe_rtt_done_stamp.is_none());
    }

    let mut r = controller_at(at(0));
    r.delivery_rate.app_limited = true;
    r.bbr3_state.state = BBR3StateMachine::ProbeRTT;
    per_transmit::bbr3_on_transmit(&mut r, 0, now, &Tracing);
    assert_eq!(r.bbr3_state.probe_rtt_done_stamp, Some(now));
    assert_eq!(r.bbr3_state.pacing_rate, 0);

    let mut r = controller_at(at(0));
    r.delivery_rate.app_limited = true;
    r.bbr3_state.state = BBR3StateMachine::Drain;
    per_transmit::bbr3_on_transmit(&mut r, 0, now, &Tracing);
    assert!(r.bbr3_state.flags.idle_restart);
    assert_eq!(r.bbr3_state.pacing_rate, 0);
    assert!(r.bbr3_state.probe_rtt_done_stamp.is_none());
}

#[test]
fn busy_transmission_is_not_a_restart() {
    let mut r = controller_at(at(0));
    r.delivery_rate.app_limited = true;
    controller::on_packet_sent(&mut r, 1200, 1, at(1), &Tracing);
    assert!(!r.bbr3_state.flags.idle_restart);
    r.delivery_rate.app_limited = false;
    controller::on_packet_sent(&mut r, 1200, 0, at(1), &Tracing);
    assert!(!r.bbr3_state.flags.idle_restart);
    assert_eq!(r.bbr3_state.extra_acked_interval_start, at(0));
}

#[test]
fn acks_run_through_every_packet() {
    let mut r = controller_at(at(0));
    r.bbr3_state.ecn_bytes_delivered = 10;
    r.bbr3_state.newly_acked_bytes = 999;
    r.bbr3_state.newly_lost_bytes = 5;
    let mut packets = vec![acked(1, at(0), 100), acked(2, at(0), 200), acked(4, at(1), 300)];
    controller::on_packets_acked(&mut r, 1000, &mut packets, at(60), None, &Tracing);
    assert!(packets.is_empty());
    assert_eq!(r.bbr3_state.round_count, 7);
    // The model saw what was in flight before the last packet.
    assert_eq!(r.bbr3_state.full_bw_count, 700);
    assert_eq!(r.bbr3_state.prior_bytes_in_flight, 700);
    assert_eq!(r.bbr3_state.newly_acked_bytes, 600);
    assert_eq!(r.bbr3_state.ecn_bytes_delivered, 610);
    assert_eq!(r.bbr3_state.newly_lost_bytes, 0);
    assert_eq!(r.send_quantum, 400);
}

#[test]
fn acks_of_nothing_still_set_control_parameters() {
    let mut r = controller_at(at(0));
    r.congestion_recovery_start_time = Some(at(3));
    r.bbr3_state.flags.in_recovery = true;
    let mut packets: Vec<Acked> = Vec::new();
    controller::on_packets_acked(&mut r, 500, &mut packets, at(60), None, &Tracing);
    assert_eq!(r.bbr3_state.prior_bytes_in_flight, 500);
    assert_eq!(r.send_quantum, 500);
    assert!(r.bbr3_state.flags.in_recovery);
}

#[test]
fn acks_take_in_ecn_counts() {
    let mut r = controller_at(at(0));
    r.bbr3_state.min_rtt = Duration::from_millis(2);
    let mut packets = vec![acked(1, at(0), 100)];
    let ecn = EcnCounts { ect0_count: 1, ect1_count: 0, ecn_ce_count: 3 };
    controller::on_packets_acked(&mut r, 100, &mut packets, at(60), Some(ecn), &Tracing);
    assert!(r.bbr3_state.flags.ecn_eligible);
    assert_eq!(r.bbr3_state.prior_ecn_ce_count, 3);
    assert_eq!(r.bbr3_state.ecn_ce_bytes_delivered, 3);
    assert_eq!(r.bbr3_state.ecn_bytes_delivered, 100);
}

#[test]
fn recovery_ends_with_a_packet_sent_after_it_began() {
    let mut r = controller_at(at(0));
    controller::bbr3_enter_recovery(&mut r, 2400, at(10));
    assert_eq!(r.congestion_window, 3600);
    assert_eq!(r.bbr3_state.prior_cwnd, 12_000);
    assert!(r.in_congestion_recovery(at(10)));
    assert!(!r.in_congestion_recovery(at(11)));

    // A packet of the episode does not end it.
    let mut packets = vec![acked(1, at(10), 1200)];
    controller::on_packets_acked(&mut r, 2400, &mut packets, at(60), None, &Tracing);
    assert!(r.bbr3_state.flags.in_recovery);
    assert_eq!(r.congestion_window, 3600);

    // A later one does, and the window is back before the control parameters are set.
    let mut packets = vec![acked(1, at(11), 1200)];
    controller::on_packets_acked(&mut r, 1200, &mut packets, at(61), None, &Tracing);
    assert!(!r.bbr3_state.flags.in_recovery);
    assert!(!r.bbr3_state.flags.packet_conservation);
    assert!(r.congestion_recovery_start_time.is_none());
    assert_eq!(r.congestion_window, 12_000);
    assert_eq!(r.bbr3_state.max_inflight, 12_000);
}

#[test]
fn entering_recovery_allows_what_was_just_acknowledged() {
    let mut r = controller_at(at(0));
    r.bbr3_state.newly_acked_bytes = 5000;
    r.delivery_rate.delivered = 42;
    controller::bbr3_enter_recovery(&mut r, 100, at(1));
    assert_eq!(r.congestion_window, 5100);
    assert_eq!(r.bbr3_state.next_round_delivered, 42);
    assert!(r.bbr3_state.flags.packet_conservation);

    // A window that is already cut does not replace the saved one.
    controller::bbr3_enter_recovery(&mut r, 200, at(2));
    assert_eq!(r.bbr3_state.prior_cwnd, 12_000);
    controller::bbr3_exit_recovery(&mut r);
    assert_eq!(r.congestion_window, 12_000);
}

#[test]
fn one_episode_cuts_the_window_once() {
    let mut r = controller_at(at(0));
    let first = sent(at(1), 1200, 0);
    controller::congestion_event(&mut r, 4800, 1200, &first, at(50));
    assert_eq!(r.congestion_window, 4800);
    assert_eq!(r.bbr3_state.newly_lost_bytes, 1200);
    let second = sent(at(2), 1200, 0);
    controller::congestion_event(&mut r, 3600, 2400, &second, at(51));
    assert_eq!(r.congestion_window, 4800);
    assert_eq!(r.bbr3_state.newly_lost_bytes, 2400);
    assert_eq!(r.congestion_recovery_start_time, Some(at(50)));
    // A packet sent after the episode began starts another.
    let third = sent(at(52), 1200, 0);
    controller::congestion_event(&mut r, 2400, 1200, &third, at(90));
    assert_eq!(r.congestion_window, 2400);
    assert_eq!(r.bbr3_state.prior_cwnd, 12_000);
}

#[test]
fn frozen_window_ignores_losses() {
    let mut r = controller_at(at(0));
    r.cwnd_frozen = true;
    r.bbr3_state.flags.bw_probe_samples = true;
    r.bbr3_state.lost = 500;
    r.bbr3_state.tx_in_flight = 1000;
    let lost = sent(at(1), 1200, 2400);
    // Even one that no other window accepts.
    assert!(controller::is_congestion_event_accepted(&r, 0, 1200, &lost, at(2)));
    controller::congestion_event(&mut r, 0, 1200, &lost, at(2));
    assert_eq!(r.congestion_window, 12_000);
    assert_eq!(r.bbr3_state.newly_lost_bytes, 0);
    assert_eq!(r.bbr3_state.lost, 500);
    assert!(per_loss::bbr3_check_inflight_too_high(&mut r, at(3)));
    assert!(r.bbr3_state.flags.bw_probe_samples);
    assert_eq!(r.bbr3_state.inflight_hi, usize::MAX);
}

#[test]
fn unacceptable_events_are_told_apart() {
    let mut r = controller_at(at(0));
    let lost = sent(at(1), 1200, 2400);
    assert!(controller::is_congestion_event_accepted(&r, 4800, 1200, &lost, at(2)));
    // More lost than was in flight.
    assert!(!controller::is_congestion_event_accepted(&r, 1000, 1200, &lost, at(2)));
    // No room for the new window.
    assert!(!controller::is_congestion_event_accepted(&r, usize::MAX, 1, &lost, at(2)));
    // A packet that is larger than what was in flight when it was sent.
    r.bbr3_state.flags.bw_probe_samples = true;
    assert!(controller::is_congestion_event_accepted(&r, 4800, 1200, &lost, at(2)));
    let odd = sent(at(1), 1200, 600);
    assert!(!controller::is_congestion_event_accepted(&r, 4800, 1200, &odd, at(2)));
    assert!(!per_loss::is_lost_packet_accepted(&r, &odd, 1200, at(2)));
    // A counter that is full.
    r.bbr3_state.congestion_losses_in_round = usize::MAX;
    assert!(!per_loss::is_lost_packet_accepted(&r, &lost, 1200, at(2)));
    r.satellite_loss_discrimination = true;
    assert!(per_loss::is_lost_packet_accepted(&r, &lost, 1200, at(2)));
    r.bbr3_state.consecutive_isolated_losses = u32::MAX;
    assert!(!per_loss::is_lost_packet_accepted(&r, &lost, 1200, at(2)));
}

#[test]
fn round_trips_too_long_to_scale_are_told_apart() {
    let longest = Duration { nanos: Duration::max().nanos - 1 };
    let two = F64 { bits: 2.0f64.to_bits() };
    let half = F64 { bits: 0.5f64.to_bits() };
    let minus = F64 { bits: (-1.0f64).to_bits() };
    let minus_zero = F64 { bits: (-0.0f64).to_bits() };
    let nan = F64 { bits: f64::NAN.to_bits() };
    let inf = F64 { bits: f64::INFINITY.to_bits() };
    assert!(!longest.can_scale_by(two));
    assert!(longest.can_scale_by(half));
    let second = Duration::from_secs(1);
    assert!(second.can_scale_by(two));
    assert!(!second.can_scale_by(minus));
    assert!(second.can_scale_by(minus_zero));
    assert_eq!(second.mul_f64(minus_zero).nanos, 0);
    assert!(!second.can_scale_by(nan));
    assert!(!second.can_scale_by(inf));
    // 2^63 seconds double to 2^64, which is one too many.
    assert!(!Duration::from_secs(1 << 63).can_scale_by(two));
    assert!(Duration::from_secs((1 << 63) - 1024).can_scale_by(two));

    let mut r = controller_at(at(0));
    r.satellite_loss_threshold = Some(F64 { bits: 0.05f64.to_bits() });
    r.bbr3_state.min_rtt = longest;
    assert!(per_loss::is_loss_threshold_defined(&r));
    r.delivery_rate.sample.rtt = Duration::from_millis(1);
    assert!(!per_loss::is_loss_threshold_defined(&r));
    r.bbr3_state.min_rtt = Duration::max();
    assert!(per_loss::is_loss_threshold_defined(&r));
}

#[test]
fn checkpoint_and_rollback_do_nothing() {
    let mut r = controller_at(at(0));
    controller::checkpoint(&mut r);
    assert!(!controller::rollback(&mut r));
    assert_eq!(r.congestion_window, 12_000);
    assert!(controller::has_custom_pacing());
}

#[test]
fn rates_in_kbit_per_second() {
    assert_eq!(controller::rate_kbps(u64::MAX), -1);
    assert_eq!(controller::rate_kbps(0), 0);
    assert_eq!(controller::rate_kbps(124), 0);
    assert_eq!(controller::rate_kbps(125), 1);
    assert_eq!(controller::rate_kbps(1_250_000), 10_000);
    // Eight times the rate need not fit.
    assert_eq!(controller::rate_kbps(u64::MAX / 8 + 1) as i128, 18_446_744_073_709_551);
    assert_eq!(controller::rate_kbps(u64::MAX - 1) as i128, 147_573_952_589_676_412);
}

#[test]
fn congestion_signals_take_the_new_maximum_first() {
    let mut r = controller_at(at(0));
    r.bbr3_state.state = BBR3StateMachine::ProbeBWDOWN;
    r.bbr3_state.flags.loss_round_start = true;
    r.bbr3_state.lost = 1;
    per_loss::bbr3_update_congestion_signals(&mut r, &acked(1, at(0), 1200), &Tracing);
    // The bounds start from the maximum that the step set, and from the window.
    assert_eq!(r.bbr3_state.max_bw, 4_000);
    assert_eq!(r.bbr3_state.bw_lo, 2_800);
    assert_eq!(r.bbr3_state.inflight_lo, 8_400);
    assert!(!r.bbr3_state.flags.loss_in_round);
    assert_eq!(r.bbr3_state.loss_events_in_round, 0);
}

#[test]
fn debug_line() {
    let mut r = controller_at(at(0));
    assert_eq!(
        debug::debug_fmt(&r),
        format!(
            "bbr3={{ state=Startup in_recovery=false ack_phase=Init filled_pipe=false \
             full_bw_count=0 loss_events_in_round=0 send_quantum=12000 extra_acked=0 \
             min_rtt={:?} round_start=false max_bw=0kbps bw_lo=-1kbps bw=0kbps bw_hi=-1kbps \
             full_bw=0kbps inflight_lo={} inflight_hi={} max_inflight=0 probe_up_cnt=0 \
             bw_probe_samples=false }}",
            std::time::Duration::MAX,
            usize::MAX,
            usize::MAX
        )
    );
    r.bbr3_state.state = BBR3StateMachine::ProbeBWCRUISE;
    r.bbr3_state.ack_phase = BBR3AckPhase::ProbeStopping;
    r.bbr3_state.flags.in_recovery = true;
    r.bbr3_state.min_rtt = Duration { nanos: 25_300_000 };
    r.bbr3_state.max_bw = 1_250_000;
    r.bbr3_state.inflight_lo = 7;
    r.bbr3_state.inflight_hi = 8;
    let line = debug::debug_fmt(&r);
    assert!(line.starts_with("bbr3={ state=ProbeBWCRUISE in_recovery=true ack_phase=Probe"));
    assert!(line.contains(" min_rtt=25.3ms round_start=false max_bw=10000kbps bw_lo=-1kbps "));
    assert!(line.ends_with(
        "inflight_lo=7 inflight_hi=8 max_inflight=0 probe_up_cnt=0 bw_probe_samples=false }"
    ));
    r.bbr3_state.bw = u64::MAX / 8 + 1;
    assert!(debug::debug_fmt(&r).contains(" bw=18446744073709551kbps "));
}
