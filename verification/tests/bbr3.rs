use bbr3::congestion::{Acked, Congestion, EcnCounts, RecoveryConfig, Sent};
use bbr3::controller;
use bbr3::float64::F64;
use bbr3::per_loss;
use bbr3::state;
use bbr3::state::BBR3StateMachine;
use bbr3::steps::ControllerSteps;
use bbr3::time::{Duration, Instant};

/// Steps that leave the controller as it is.
struct Still;

impl ControllerSteps for Still {
    fn bbr3_init(&self, r: Congestion) -> Congestion {
        r
    }

    fn bbr3_update_max_bw(&self, r: Congestion, _packet: &Acked) -> Congestion {
        r
    }

    fn bbr3_update_model_and_state(
        &self,
        r: Congestion,
        _packet: &Acked,
        _bytes_in_flight: usize,
        _now: Instant,
    ) -> Congestion {
        r
    }

    fn bbr3_update_control_parameters(
        &self,
        r: Congestion,
        _bytes_in_flight: usize,
        _now: Instant,
    ) -> Congestion {
        r
    }

    fn bbr3_set_pacing_rate_with_gain(&self, r: Congestion, _pacing_gain: F64) -> Congestion {
        r
    }

    fn bbr3_check_probe_rtt_done(&self, r: Congestion, _now: Instant) -> Congestion {
        r
    }
}

fn config() -> RecoveryConfig {
    RecoveryConfig {
        max_datagram_size: 1200,
        initial_congestion_window_packets: 10,
        satellite_loss_threshold: None,
        satellite_loss_discrimination: false,
        probe_rtt_interval: None,
    }
}

fn start() -> Instant {
    Instant { nanos: 1_000_000_000_000 }
}

fn after(t: Instant, millis: u128) -> Instant {
    Instant { nanos: t.nanos + millis * 1_000_000 }
}

fn before(t: Instant, millis: u128) -> Instant {
    Instant { nanos: t.nanos - millis * 1_000_000 }
}

fn controller_with(cfg: RecoveryConfig) -> Congestion {
    Congestion::from_config(&cfg, start())
}

fn f(x: F64) -> f64 {
    f64::from_bits(x.bits)
}

fn lost_packet(now: Instant, mss: usize, tx_in_flight: usize) -> Sent {
    Sent {
        pkt_num: 0,
        time_sent: now,
        time_acked: None,
        time_lost: None,
        size: mss,
        ack_eliciting: true,
        in_flight: true,
        delivered: 0,
        delivered_time: now,
        first_sent_time: now,
        is_app_limited: false,
        tx_in_flight,
        lost: 0,
        has_data: true,
        pmtud: false,
    }
}

fn acked_packet(now: Instant) -> Acked {
    Acked {
        pkt_num: 100,
        time_sent: before(now, 50),
        size: 1200,
        rtt: Duration::from_millis(50),
        delivered: 10000,
        delivered_time: before(now, 100),
        first_sent_time: before(now, 150),
        is_app_limited: false,
    }
}

#[test]
fn bbr_init() {
    let mut r = controller_with(config());
    controller::on_init(&mut r, &Still);
    assert_eq!(
        r.congestion_window,
        r.max_datagram_size * r.initial_congestion_window_packets
    );
    assert_eq!(r.bbr3_state.prior_bytes_in_flight, 0);
    assert_eq!(r.bbr3_state.state, BBR3StateMachine::Startup);
}

#[test]
fn bbr3_congestion_event() {
    let mut r = controller_with(config());
    let sent = start();
    let mss = r.max_datagram_size;

    // Five packets were sent. The last one is acknowledged, and the first two are lost.
    let now = after(sent, 50);
    let lost = lost_packet(sent, mss, 0);
    controller::congestion_event(&mut r, mss * 4, mss * 2, &lost, now);
    let mut acked = vec![Acked { time_sent: sent, size: mss, ..acked_packet(now) }];
    controller::on_packets_acked(&mut r, mss * 3, &mut acked, now, None, &Still);

    assert!(r.bbr3_state.flags.in_recovery);
    // Still in flight once the acknowledged packet is gone: 2, 3.
    assert_eq!(r.bbr3_state.prior_bytes_in_flight - mss, mss * 2);
    assert_eq!(r.bbr3_state.newly_acked_bytes, mss);
    assert_eq!(r.congestion_window, mss * 3);
    assert!(acked.is_empty());
}

#[test]
fn bbr3_loss_thresh_default() {
    let mut cc = controller_with(config());
    assert!(cc.satellite_loss_threshold.is_none());

    // With the default threshold of 2%, 21 > 20 => inflight too high.
    cc.bbr3_state.tx_in_flight = 1000;
    cc.bbr3_state.lost = 21;
    assert!(per_loss::bbr3_is_inflight_too_high(&mut cc));

    // 19 < 20 => not too high.
    cc.bbr3_state.lost = 19;
    assert!(!per_loss::bbr3_is_inflight_too_high(&mut cc));
}

#[test]
fn bbr3_loss_thresh_satellite_raised() {
    let mut cfg = config();
    cfg.satellite_loss_threshold = Some(F64 { bits: 0.05f64.to_bits() });
    let mut cc = controller_with(cfg);
    assert_eq!(f(cc.satellite_loss_threshold.unwrap()), 0.05);

    // With the raised threshold, 40 < 50 => not too high.
    cc.bbr3_state.tx_in_flight = 1000;
    cc.bbr3_state.lost = 40;
    assert!(!per_loss::bbr3_is_inflight_too_high(&mut cc));

    // 51 > 50 => inflight too high even with the raised threshold.
    cc.bbr3_state.lost = 51;
    assert!(per_loss::bbr3_is_inflight_too_high(&mut cc));
}

#[test]
fn bbr3_loss_discrimination_default_disabled() {
    let r = controller_with(config());
    assert!(!r.satellite_loss_discrimination);
    assert_eq!(r.bbr3_state.last_loss_time, None);
    assert_eq!(r.bbr3_state.consecutive_isolated_losses, 0);
}

/// A controller that probes, with discrimination as given and a minimum RTT of 100 ms.
fn probing(discrimination: bool) -> Congestion {
    let mut cfg = config();
    cfg.satellite_loss_discrimination = discrimination;
    let mut cc = controller_with(cfg);
    cc.bbr3_state.flags.bw_probe_samples = true;
    cc.bbr3_state.min_rtt = Duration::from_millis(100);
    cc
}

#[test]
fn bbr3_loss_discrimination_isolated_skips_response() {
    let mut cc = probing(true);
    let now = start();
    let mss = 1200;

    // First loss: always classified as isolated (no prior loss time).
    let pkt1 = lost_packet(now, mss, 10000);
    per_loss::bbr3_update_on_loss(&mut cc, &pkt1, mss, now);
    assert_eq!(cc.bbr3_state.consecutive_isolated_losses, 1);
    assert_eq!(cc.bbr3_state.last_loss_time, Some(now));

    // Second loss after large gap (>2*min_rtt=200ms): isolated.
    let later = after(now, 300);
    let pkt2 = Sent { pkt_num: 1, ..pkt1 };
    per_loss::bbr3_update_on_loss(&mut cc, &pkt2, mss, later);
    assert_eq!(cc.bbr3_state.consecutive_isolated_losses, 2);
}

#[test]
fn bbr3_loss_discrimination_burst_triggers_response() {
    let mut cc = probing(true);
    let now = start();
    let mss = 1200;
    let pkt = lost_packet(now, mss, 10000);

    // First loss: isolated.
    per_loss::bbr3_update_on_loss(&mut cc, &pkt, mss, now);
    assert_eq!(cc.bbr3_state.consecutive_isolated_losses, 1);

    // Second loss within 2*min_rtt (50ms < 200ms): burst => not isolated.
    let soon = after(now, 50);
    per_loss::bbr3_update_on_loss(&mut cc, &pkt, mss, soon);
    assert_eq!(cc.bbr3_state.consecutive_isolated_losses, 0);
}

#[test]
fn bbr3_loss_discrimination_disabled_normal_path() {
    let mut cc = probing(false);
    let now = start();
    let mss = 1200;
    let pkt = lost_packet(now, mss, 10000);

    per_loss::bbr3_update_on_loss(&mut cc, &pkt, mss, now);
    assert_eq!(cc.bbr3_state.last_loss_time, None);
    assert_eq!(cc.bbr3_state.consecutive_isolated_losses, 0);
}

#[test]
fn satellite_rho_computation() {
    assert_eq!(f(controller::satellite_rho(Duration::from_millis(25))), 1.0);
    assert_eq!(f(controller::satellite_rho(Duration::from_millis(50))), 2.0);
    assert_eq!(f(controller::satellite_rho(Duration::from_millis(600))), 24.0);
    assert_eq!(f(controller::satellite_rho(Duration::from_millis(10))), 1.0);
}

fn scaled_loss_count(rho: F64) -> usize {
    F64::from_u64(state::FULL_LOSS_COUNT as u64).times(rho).to_usize().min(256)
}

#[test]
fn satellite_rho_startup_loss_tolerance() {
    // At GEO (600ms), rho=24, full_loss_count = 6*24 = 144
    let rho = controller::satellite_rho(Duration::from_millis(600));
    assert_eq!(scaled_loss_count(rho), 144);
}

#[test]
fn bbr3_congestion_losses_in_round_zero_for_isolated() {
    let mut cc = probing(true);
    let now = start();
    let mss = 1200;
    let pkt = lost_packet(now, mss, 10000);

    // First loss: isolated (no prior). congestion_losses_in_round stays 0.
    per_loss::bbr3_update_on_loss(&mut cc, &pkt, mss, now);
    assert_eq!(cc.bbr3_state.congestion_losses_in_round, 0);
    assert_eq!(cc.bbr3_state.consecutive_isolated_losses, 1);

    // Second loss after large gap (>2*min_rtt=200ms): also isolated.
    let later = after(now, 300);
    per_loss::bbr3_update_on_loss(&mut cc, &pkt, mss, later);
    assert_eq!(cc.bbr3_state.congestion_losses_in_round, 0);
    assert_eq!(cc.bbr3_state.consecutive_isolated_losses, 2);
}

#[test]
fn bbr3_congestion_losses_in_round_incremented_for_burst() {
    let mut cc = probing(true);
    let now = start();
    let mss = 1200;
    let pkt = lost_packet(now, mss, 10000);

    // First loss: isolated.
    per_loss::bbr3_update_on_loss(&mut cc, &pkt, mss, now);
    assert_eq!(cc.bbr3_state.congestion_losses_in_round, 0);

    // Second loss within 2*min_rtt: burst => congestion.
    let soon = after(now, 50);
    per_loss::bbr3_update_on_loss(&mut cc, &pkt, mss, soon);
    assert_eq!(cc.bbr3_state.congestion_losses_in_round, 1);
}

#[test]
fn bbr3_loss_in_round_gated_by_discrimination() {
    let mut cfg = config();
    cfg.satellite_loss_discrimination = true;
    let mut cc = controller_with(cfg);

    // Losses, but none that counts as congestion.
    cc.bbr3_state.lost = 5;
    cc.bbr3_state.congestion_losses_in_round = 0;
    cc.bbr3_state.flags.loss_in_round = false;
    per_loss::bbr3_apply_congestion_signals(&mut cc);
    assert!(
        !cc.bbr3_state.flags.loss_in_round,
        "loss_in_round must stay false when only isolated losses in round"
    );

    // Now with congestion_losses_in_round > 0, it should set loss_in_round.
    cc.bbr3_state.congestion_losses_in_round = 1;
    cc.bbr3_state.flags.loss_in_round = false;
    per_loss::bbr3_apply_congestion_signals(&mut cc);
    assert!(
        cc.bbr3_state.flags.loss_in_round,
        "loss_in_round must be true when congestion losses exist"
    );
}

#[test]
fn test_bbr3_constants() {
    assert_eq!(f64::from_bits(state::STARTUP_CWND_GAIN), 2.0);
    assert!(
        (f64::from_bits(state::PROBE_DOWN_PACING_GAIN) - 0.90).abs() < f64::EPSILON,
        "PROBE_DOWN_PACING_GAIN should be 0.90, got {}",
        f64::from_bits(state::PROBE_DOWN_PACING_GAIN)
    );
    assert_eq!(state::FULL_LOSS_COUNT, 6);
    assert_eq!(Duration { nanos: state::PROBE_RTT_INTERVAL }, Duration::from_secs(5));
    assert!(
        (f64::from_bits(state::STARTUP_PACING_GAIN) - 2.77).abs() < f64::EPSILON,
        "STARTUP_PACING_GAIN should remain 2.77, got {}",
        f64::from_bits(state::STARTUP_PACING_GAIN)
    );
    assert!(
        (f64::from_bits(state::LOSS_THRESH) - 0.02).abs() < f64::EPSILON,
        "LOSS_THRESH should remain 0.02, got {}",
        f64::from_bits(state::LOSS_THRESH)
    );
    assert!(
        (f64::from_bits(state::BETA) - 0.7).abs() < f64::EPSILON,
        "BETA should remain 0.7, got {}",
        f64::from_bits(state::BETA)
    );
    assert!(
        (f64::from_bits(state::HEADROOM) - 0.85).abs() < f64::EPSILON,
        "HEADROOM should remain 0.85, got {}",
        f64::from_bits(state::HEADROOM)
    );
}

#[test]
fn real_constants_have_the_encoding_of_their_value() {
    assert_eq!(state::PACING_MARGIN_PERCENT, 0.01f64.to_bits());
    assert_eq!(state::STARTUP_PACING_GAIN, 2.77f64.to_bits());
    assert_eq!(state::PROBE_DOWN_PACING_GAIN, 0.90f64.to_bits());
    assert_eq!(state::PROBE_UP_PACING_GAIN, (5.0f64 / 4.0).to_bits());
    assert_eq!(state::PACING_GAIN, 1.0f64.to_bits());
    assert_eq!(state::STARTUP_CWND_GAIN, 2.0f64.to_bits());
    assert_eq!(state::CWND_GAIN, 2.0f64.to_bits());
    assert_eq!(state::LOSS_THRESH, 0.02f64.to_bits());
    assert_eq!(state::BETA, 0.7f64.to_bits());
    assert_eq!(state::HEADROOM, 0.85f64.to_bits());
    assert_eq!(state::PROBE_RTT_CWND_GAIN, 0.5f64.to_bits());
    assert_eq!(state::MAX_BW_GROWTH_THRESHOLD, 1.25f64.to_bits());
    assert_eq!(state::ECN_ALPHA_GAIN, (1.0f64 / 16.0).to_bits());
    assert_eq!(state::ECN_ALPHA_INIT, 1.0f64.to_bits());
    assert_eq!(state::ECN_FACTOR, (1.0f64 / 3.0).to_bits());
    assert_eq!(state::ECN_THRESH, 0.5f64.to_bits());
    assert_eq!(state::RTT_INFLATION_LIMIT, 1.3f64.to_bits());
    assert_eq!(state::ISOLATED_LOSS_GAP, 2.0f64.to_bits());
    assert_eq!(Duration { nanos: state::REFERENCE_RTT as u128 }, Duration::from_millis(25));
    assert_eq!(state::MIN_PIPE_CWND_PKTS, 4);
    assert_eq!(state::MAX_BW_COUNT, 3);
    assert_eq!(state::MIN_RTT_FILTER_LEN, 10);
    assert_eq!(Duration { nanos: state::PROBE_RTT_DURATION }, Duration::from_millis(200));
}

#[test]
fn test_bbr3_satellite_rho_scaling() {
    // GEO: rho = 600/25 = 24.0, scaled = FULL_LOSS_COUNT * rho = 6*24 = 144
    let rho_geo = controller::satellite_rho(Duration::from_millis(600));
    assert_eq!(f(rho_geo), 24.0);
    assert_eq!(scaled_loss_count(rho_geo), 144);

    // LEO: rho = 40/25 = 1.6, scaled = 6*1.6 = 9.6 -> truncates to 9
    let rho_leo = controller::satellite_rho(Duration::from_millis(40));
    assert_eq!(f(rho_leo), 1.6);
    assert_eq!(scaled_loss_count(rho_leo), 9);

    // MEO: rho = 120/25 = 4.8, scaled = 6*4.8 = 28.8 -> truncates to 28
    let rho_meo = controller::satellite_rho(Duration::from_millis(120));
    assert_eq!(f(rho_meo), 4.8);
    assert_eq!(scaled_loss_count(rho_meo), 28);

    // Terrestrial: rho = 25/25 = 1.0, scaled = 6*1 = 6 (no scaling)
    let rho_terr = controller::satellite_rho(Duration::from_millis(25));
    assert_eq!(f(rho_terr), 1.0);
    assert_eq!(scaled_loss_count(rho_terr), 6);
}

#[test]
fn test_bbr3_ecn_disabled_for_satellite() {
    // Terrestrial (5ms): ECN enabled (5000 < 100000).
    assert!(Duration::from_millis(5).as_micros() as u64 <= state::ECN_MAX_RTT_US);
    // LEO (40ms): ECN enabled (40000 < 100000).
    assert!(Duration::from_millis(40).as_micros() as u64 <= state::ECN_MAX_RTT_US);
    // MEO (180ms): ECN disabled (180000 > 100000).
    assert!(Duration::from_millis(180).as_micros() as u64 > state::ECN_MAX_RTT_US);
    // GEO (600ms): ECN disabled (600000 > 100000).
    assert!(Duration::from_millis(600).as_micros() as u64 > state::ECN_MAX_RTT_US);
}

#[test]
fn test_bbr3_ecn_constants() {
    assert_eq!(state::ECN_MAX_RTT_US, 100_000);
    assert!((f64::from_bits(state::ECN_ALPHA_GAIN) - 1.0 / 16.0).abs() < 0.001);
    assert!((f64::from_bits(state::ECN_ALPHA_INIT) - 1.0).abs() < f64::EPSILON);
    assert!((f64::from_bits(state::ECN_FACTOR) - 1.0 / 3.0).abs() < 0.001);
    assert!((f64::from_bits(state::ECN_THRESH) - 0.5).abs() < f64::EPSILON);
}

#[test]
fn test_bbr3_ecn_state_init() {
    let r = controller_with(config());
    let bbr = &r.bbr3_state;

    assert!(!bbr.flags.ecn_eligible);
    assert!(!bbr.flags.ecn_in_round);
    assert!((f(bbr.ecn_alpha) - f64::from_bits(state::ECN_ALPHA_INIT)).abs() < f64::EPSILON);
    assert_eq!(bbr.ecn_bytes_delivered, 0);
    assert_eq!(bbr.ecn_ce_bytes_delivered, 0);
    assert_eq!(bbr.prior_ecn_ce_count, 0);
}

fn ce(count: u64) -> EcnCounts {
    EcnCounts { ect0_count: 0, ect1_count: 0, ecn_ce_count: count }
}

#[test]
fn test_bbr3_ecn_skipped_for_satellite_rtt() {
    let mut cc = controller_with(config());

    // Set min_rtt to 180ms (MEO satellite): ECN should be disabled.
    cc.bbr3_state.min_rtt = Duration::from_millis(180);
    per_loss::bbr3_update_ecn(&mut cc, &ce(10));

    assert!(!cc.bbr3_state.flags.ecn_eligible);
    assert_eq!(cc.bbr3_state.prior_ecn_ce_count, 0);
}

#[test]
fn test_bbr3_ecn_processes_ce_for_terrestrial() {
    let mut cc = controller_with(config());

    // Set min_rtt to 2ms (terrestrial): ECN should be active.
    cc.bbr3_state.min_rtt = Duration::from_millis(2);
    cc.bbr3_state.flags.round_start = false;
    per_loss::bbr3_update_ecn(&mut cc, &ce(5));

    assert!(cc.bbr3_state.flags.ecn_eligible);
    assert!(cc.bbr3_state.flags.ecn_in_round);
    assert_eq!(cc.bbr3_state.ecn_ce_bytes_delivered, 5);
    assert_eq!(cc.bbr3_state.prior_ecn_ce_count, 5);
}

/// A controller at the end of an ECN round with 100 bytes delivered.
fn ecn_round() -> Congestion {
    let mut cc = controller_with(config());
    cc.bbr3_state.min_rtt = Duration::from_millis(2);
    cc.bbr3_state.flags.round_start = true;
    cc.bbr3_state.ecn_bytes_delivered = 100;
    cc.bbr3_state.ecn_ce_bytes_delivered = 0;
    cc.bbr3_state.inflight_hi = 10000;
    cc.bbr3_state.bw_hi = 1_000_000;
    cc
}

#[test]
fn test_bbr3_ecn_round_start_reduces_inflight() {
    let mut cc = ecn_round();

    // CE ratio will be (0 + 60) / 100 = 60% > ECN_THRESH (50%).
    per_loss::bbr3_update_ecn(&mut cc, &ce(60));

    assert!(cc.bbr3_state.inflight_hi < 10000);
    assert!(cc.bbr3_state.bw_hi < 1_000_000);
    assert_eq!(cc.bbr3_state.ecn_bytes_delivered, 0);
    assert_eq!(cc.bbr3_state.ecn_ce_bytes_delivered, 0);
    assert!(!cc.bbr3_state.flags.ecn_in_round);
}

#[test]
fn test_bbr3_ecn_no_reduction_below_thresh() {
    let mut cc = ecn_round();

    // CE ratio will be (0 + 10) / 100 = 10% < ECN_THRESH (50%).
    per_loss::bbr3_update_ecn(&mut cc, &ce(10));

    assert_eq!(cc.bbr3_state.inflight_hi, 10000);
    assert_eq!(cc.bbr3_state.bw_hi, 1_000_000);
}

#[test]
fn test_bbr3_ecn_zero_delta_noop() {
    let mut cc = controller_with(config());
    cc.bbr3_state.min_rtt = Duration::from_millis(2);
    cc.bbr3_state.prior_ecn_ce_count = 5;

    // Same CE count as prior: delta = 0, should be a no-op.
    per_loss::bbr3_update_ecn(&mut cc, &ce(5));

    assert!(!cc.bbr3_state.flags.ecn_eligible);
    assert!(!cc.bbr3_state.flags.ecn_in_round);
}

/// A controller in `state` with more lost than is tolerated.
fn too_high_in(state: BBR3StateMachine) -> Congestion {
    let mut cc = controller_with(config());
    cc.bbr3_state.state = state;
    cc.bbr3_state.flags.bw_probe_samples = true;
    cc.bbr3_state.min_rtt = Duration::from_millis(50);
    cc.bbr3_state.max_bw = 1_000_000;
    cc.bbr3_state.bw = 1_000_000;
    cc.congestion_window = 100_000;
    cc.bbr3_state.tx_in_flight = 50_000;
    cc.bbr3_state.lost = 2_000; // 4% > 2%
    cc
}

#[test]
fn test_bbr3_probe_bw_up_no_premature_down() {
    let mut cc = too_high_in(BBR3StateMachine::ProbeBWUP);
    cc.bbr3_state.inflight_hi = usize::MAX;
    assert!(per_loss::bbr3_is_inflight_too_high(&mut cc));

    let old_inflight_hi = cc.bbr3_state.inflight_hi;
    let result = per_loss::bbr3_check_inflight_too_high(&mut cc, start());
    assert!(result, "inflight should be detected as too high");
    assert_eq!(
        cc.bbr3_state.state,
        BBR3StateMachine::ProbeBWUP,
        "State must remain ProbeBWUP, not transition to DOWN"
    );
    assert!(
        cc.bbr3_state.flags.bw_probe_samples,
        "bw_probe_samples must remain true in ProbeBW_UP"
    );
    assert!(
        cc.bbr3_state.inflight_hi < old_inflight_hi,
        "inflight_hi should be capped, was {} now {}",
        old_inflight_hi,
        cc.bbr3_state.inflight_hi
    );
}

#[test]
fn test_bbr3_probe_bw_up_vs_non_up_behavior() {
    let mut cc = too_high_in(BBR3StateMachine::ProbeBWDOWN);
    per_loss::bbr3_check_inflight_too_high(&mut cc, start());
    assert!(
        !cc.bbr3_state.flags.bw_probe_samples,
        "bw_probe_samples must be false in non-UP states"
    );
}

/// A controller in ProbeBW_CRUISE, within a loss round.
fn cruising() -> Congestion {
    let mut cc = controller_with(config());
    cc.bbr3_state.state = BBR3StateMachine::ProbeBWCRUISE;
    cc.bbr3_state.min_rtt = Duration::from_millis(50);
    cc.bbr3_state.max_bw = 1_000_000;
    cc.bbr3_state.bw = 1_000_000;
    cc.congestion_window = 100_000;
    cc.bbr3_state.flags.loss_round_start = false;
    cc.bbr3_state.inflight_lo = 80_000;
    cc.bbr3_state.bw_lo = 800_000;
    cc
}

#[test]
fn test_bbr3_cruise_responsive_adaptation() {
    let mut cc = cruising();
    // loss_in_round comes from a previous ACK this round.
    cc.bbr3_state.flags.loss_in_round = true;
    cc.bbr3_state.inflight_latest = 50_000;
    cc.bbr3_state.bw_latest = 600_000;
    cc.bbr3_state.lost = 500;

    let inflight_lo_before = cc.bbr3_state.inflight_lo;
    let bw_lo_before = cc.bbr3_state.bw_lo;
    per_loss::bbr3_update_congestion_signals(&mut cc, &acked_packet(start()), &Still);

    assert!(
        cc.bbr3_state.inflight_lo < inflight_lo_before,
        "inflight_lo should be reduced mid-round in CRUISE: was {} now {}",
        inflight_lo_before,
        cc.bbr3_state.inflight_lo
    );
    assert!(
        cc.bbr3_state.bw_lo < bw_lo_before,
        "bw_lo should be reduced mid-round in CRUISE: was {} now {}",
        bw_lo_before,
        cc.bbr3_state.bw_lo
    );
    assert_eq!(
        cc.bbr3_state.bw_lo, 600_000,
        "bw_lo should be max(bw_latest=600000, bw_lo*0.7=560000)"
    );
    assert_eq!(
        cc.bbr3_state.inflight_lo, 56_000,
        "inflight_lo should be max(inflight_latest=50000, inflight_lo*0.7=56000)"
    );
}

#[test]
fn test_bbr3_cruise_no_adaptation_without_loss() {
    let mut cc = cruising();
    cc.bbr3_state.flags.loss_in_round = false;
    cc.bbr3_state.lost = 0;
    per_loss::bbr3_update_congestion_signals(&mut cc, &acked_packet(start()), &Still);

    assert_eq!(cc.bbr3_state.inflight_lo, 80_000);
    assert_eq!(cc.bbr3_state.bw_lo, 800_000);
}

#[test]
fn test_bbr3_probe_rtt_interval_from_config() {
    let mut cfg = config();
    cfg.probe_rtt_interval = Some(Duration::from_secs(15));
    let r = controller_with(cfg);
    assert_eq!(
        r.bbr3_state.probe_rtt_interval,
        Duration::from_secs(15),
        "probe_rtt_interval should be plumbed from Config to BBR3 state"
    );
}

#[test]
fn test_bbr3_probe_rtt_interval_default_when_not_set() {
    let r = controller_with(config());
    assert_eq!(
        r.bbr3_state.probe_rtt_interval,
        Duration::from_secs(5),
        "Default probe_rtt_interval should be 5s (PROBE_RTT_INTERVAL)"
    );
}
