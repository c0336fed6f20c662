use bbr3::congestion::{Congestion, EcnCounts, RecoveryConfig, Sent};
use bbr3::controller;
use bbr3::float64::F64;
use bbr3::per_loss;
use bbr3::state;
use bbr3::state::BBR3StateMachine;
use bbr3::time::{Duration, Instant};

fn at(millis: u128) -> Instant {
    Instant { nanos: millis * 1_000_000 }
}

fn controller_with(threshold: Option<f64>, discrimination: bool) -> Congestion {
    Congestion::from_config(
        &RecoveryConfig {
            max_datagram_size: 1200,
            initial_congestion_window_packets: 100,
            satellite_loss_threshold: match threshold {
                Some(t) => Some(F64 { bits: t.to_bits() }),
                None => None,
            },
            satellite_loss_discrimination: discrimination,
            probe_rtt_interval: None,
        },
        at(0),
    )
}

fn sent(size: usize, tx_in_flight: usize) -> Sent {
    Sent {
        pkt_num: 1,
        time_sent: at(0),
        time_acked: None,
        time_lost: None,
        size,
        ack_eliciting: true,
        in_flight: true,
        delivered: 0,
        delivered_time: at(0),
        first_sent_time: at(0),
        is_app_limited: true,
        tx_in_flight,
        lost: 0,
        has_data: true,
        pmtud: false,
    }
}

fn too_high(r: &Congestion, tx_in_flight: usize, lost: usize) -> bool {
    let mut copy = *r;
    copy.bbr3_state.tx_in_flight = tx_in_flight;
    copy.bbr3_state.lost = lost;
    per_loss::bbr3_is_inflight_too_high(&mut copy)
}

#[test]
fn default_threshold_is_one_fiftieth() {
    let r = controller_with(None, false);
    for tx in [0usize, 1, 49, 50, 51, 99, 100, 1000, 123_456_789, 1 << 45] {
        assert!(!too_high(&r, tx, tx / 50));
        assert!(too_high(&r, tx, tx / 50 + 1));
    }
}

#[test]
fn higher_threshold_tolerates_more() {
    let low = controller_with(Some(0.03), false);
    let high = controller_with(Some(0.1), false);
    assert!(too_high(&low, 10_000, 500));
    assert!(!too_high(&high, 10_000, 500));
    assert!(too_high(&high, 10_000, 1_001));
    // A threshold below the default one is kept as well.
    let strict = controller_with(Some(0.001), false);
    assert!(too_high(&strict, 10_000, 11));
    assert!(!too_high(&strict, 10_000, 10));
}

#[test]
fn less_in_flight_stays_too_high() {
    for threshold in [-1.0, 0.0, 0.02, 0.3, f64::NAN, f64::INFINITY] {
        let r = controller_with(Some(threshold), false);
        for lost in [0usize, 1, 7, 300] {
            let mut verdict = false;
            // Once too high on the way down, always so.
            for tx in (0..2_000usize).rev() {
                let now_too_high = too_high(&r, tx, lost);
                assert!(now_too_high || !verdict);
                verdict = now_too_high;
            }
        }
    }
}

#[test]
fn thresholds_out_of_the_ordinary() {
    // Nothing is tolerated below zero, and everything without limit.
    assert!(too_high(&controller_with(Some(-1.0), false), 10_000, 1));
    assert!(!too_high(&controller_with(Some(f64::INFINITY), false), 10_000, usize::MAX));
    // What is no number tolerates nothing.
    assert!(too_high(&controller_with(Some(f64::NAN), false), 10_000, 1));
    assert!(!too_high(&controller_with(Some(f64::NAN), false), 10_000, 0));
}

#[test]
fn inflated_round_trip_brings_back_the_default_threshold() {
    let mut r = controller_with(Some(0.05), false);
    r.bbr3_state.min_rtt = Duration::from_millis(100);
    let limit = Duration::from_millis(130);
    let cases = [
        (Duration { nanos: 0 }, 0.05),
        (Duration::from_millis(100), 0.05),
        (limit, 0.05),
        (Duration { nanos: limit.nanos + 1 }, 0.02),
        (Duration::from_millis(500), 0.02),
    ];
    for (rtt, expected) in cases {
        r.delivery_rate.sample.rtt = rtt;
        assert_eq!(f64::from_bits(per_loss::effective_loss_threshold(&r).bits), expected);
    }
    // An unknown minimum guards nothing.
    r.bbr3_state.min_rtt = Duration::max();
    assert_eq!(f64::from_bits(per_loss::effective_loss_threshold(&r).bits), 0.05);
}

#[test]
fn bit_errors_are_two_round_trips_apart() {
    for (gap, isolated) in [(200_000_000, false), (200_000_001, true), (0, false)] {
        let mut r = controller_with(None, true);
        r.bbr3_state.flags.bw_probe_samples = true;
        r.bbr3_state.min_rtt = Duration::from_millis(100);
        r.bbr3_state.last_loss_time = Some(at(1000));
        r.bbr3_state.consecutive_isolated_losses = 4;
        let now = Instant { nanos: at(1000).nanos + gap };
        per_loss::bbr3_update_on_loss(&mut r, &sent(1200, 10_000), 1200, now);
        assert_eq!(r.bbr3_state.last_loss_time, Some(now));
        if isolated {
            assert_eq!(r.bbr3_state.consecutive_isolated_losses, 5);
            assert_eq!(r.bbr3_state.congestion_losses_in_round, 0);
        } else {
            assert_eq!(r.bbr3_state.consecutive_isolated_losses, 0);
            assert_eq!(r.bbr3_state.congestion_losses_in_round, 1);
        }
    }
    // On an unknown path only the first loss stands alone.
    let mut r = controller_with(None, true);
    r.bbr3_state.flags.bw_probe_samples = true;
    per_loss::bbr3_update_on_loss(&mut r, &sent(1200, 10_000), 1200, at(0));
    assert_eq!(r.bbr3_state.consecutive_isolated_losses, 1);
    per_loss::bbr3_update_on_loss(&mut r, &sent(1200, 10_000), 1200, at(1_000_000));
    assert_eq!(r.bbr3_state.consecutive_isolated_losses, 0);
}

#[test]
fn bit_error_keeps_probe_and_cap() {
    let mut r = controller_with(None, true);
    r.bbr3_state.flags.bw_probe_samples = true;
    r.bbr3_state.state = BBR3StateMachine::ProbeBWDOWN;
    r.bbr3_state.inflight_hi = 90_000;
    r.bbr3_state.bw_lo = 5_000;
    r.bbr3_state.inflight_lo = 6_000;
    r.bbr3_state.flags.loss_round_start = true;
    per_loss::bbr3_update_on_loss(&mut r, &sent(1200, 10_000), 5_000, at(1));
    assert!(r.bbr3_state.flags.bw_probe_samples);
    assert_eq!(r.bbr3_state.inflight_hi, 90_000);
    assert_eq!(r.bbr3_state.tx_in_flight, 10_000);
    assert_eq!(r.bbr3_state.lost, 5_000);
    assert!(r.delivery_rate.app_limited);
    // The ACK that reports it lowers no bound.
    per_loss::bbr3_apply_congestion_signals(&mut r);
    assert_eq!(r.bbr3_state.bw_lo, 5_000);
    assert_eq!(r.bbr3_state.inflight_lo, 6_000);
}

#[test]
fn loss_without_probe_samples_is_ignored() {
    let mut r = controller_with(None, true);
    per_loss::bbr3_update_on_loss(&mut r, &sent(1200, 10_000), 5_000, at(1));
    assert_eq!(r.bbr3_state.lost, 0);
    assert_eq!(r.bbr3_state.tx_in_flight, 0);
    assert!(r.bbr3_state.last_loss_time.is_none());
    assert!(!r.delivery_rate.app_limited);
}

#[test]
fn congestion_loss_caps_inflight_at_the_threshold() {
    let mut r = controller_with(None, false);
    r.bbr3_state.flags.bw_probe_samples = true;
    r.bbr3_state.state = BBR3StateMachine::ProbeBWDOWN;
    // 8800 bytes were in flight before the packet, and none was lost:
    // (0.02 * 8800 - 0) / 0.98 = 179.59 more could follow.
    per_loss::bbr3_update_on_loss(&mut r, &sent(1200, 10_000), 1200, at(1));
    assert_eq!(r.bbr3_state.tx_in_flight, 8_979);
    assert_eq!(r.bbr3_state.inflight_hi, 8_979);
    assert!(!r.bbr3_state.flags.bw_probe_samples);
    assert_eq!(r.bbr3_state.state, BBR3StateMachine::ProbeBWDOWN);

    // With more lost before the packet than the threshold allows, the prefix is empty.
    let mut r = controller_with(None, false);
    r.bbr3_state.tx_in_flight = 10_000;
    r.bbr3_state.lost = 3_000;
    assert_eq!(per_loss::bbr3_inflight_hi_from_lost_packet(&r, &sent(1200, 10_000)), 8_800);
}

#[test]
fn volume_at_the_threshold_stays_within_inflight() {
    let thresholds =
        [0.0, 0.001, 0.02, 0.05, 0.5, 0.7, 0.9, 0.984375, 0.9999, -1.0, f64::NAN];
    for threshold in thresholds {
        let mut r = controller_with(Some(threshold), false);
        for tx in [1200usize, 5_000, 60_001, 1_000_000, 123_456_789_012] {
            for lost in [1200usize, 1300, 2400, 50_000, 700_000, tx, tx - tx / 100] {
                if lost < 1200 {
                    continue;
                }
                r.bbr3_state.tx_in_flight = tx;
                r.bbr3_state.lost = lost;
                let packet = sent(1200, tx);
                if per_loss::bbr3_is_inflight_too_high(&mut r) {
                    let volume = per_loss::bbr3_inflight_hi_from_lost_packet(&r, &packet);
                    assert!(tx - 1200 <= volume && volume <= tx);
                    r.bbr3_state.flags.bw_probe_samples = true;
                    assert!(per_loss::is_lost_packet_accepted(&r, &packet, lost, at(1)));
                }
            }
        }
    }
}

#[test]
fn target_raises_the_cap() {
    let mut r = controller_with(None, false);
    r.bbr3_state.bdp = 50_000;
    r.congestion_window = 40_000;
    r.bbr3_state.tx_in_flight = 10_000;
    per_loss::bbr3_handle_inflight_too_high(&mut r, at(0));
    assert_eq!(r.bbr3_state.inflight_hi, 28_000);
    r.bbr3_state.tx_in_flight = 30_000;
    per_loss::bbr3_handle_inflight_too_high(&mut r, at(0));
    assert_eq!(r.bbr3_state.inflight_hi, 30_000);
    // A sample that the application limited moves no cap.
    r.delivery_rate.sample.is_app_limited = true;
    r.bbr3_state.tx_in_flight = 35_000;
    per_loss::bbr3_handle_inflight_too_high(&mut r, at(0));
    assert_eq!(r.bbr3_state.inflight_hi, 30_000);
}

#[test]
fn tolerable_inflight_is_left_alone() {
    let mut r = controller_with(None, false);
    r.bbr3_state.flags.bw_probe_samples = true;
    r.bbr3_state.tx_in_flight = 1000;
    r.bbr3_state.lost = 20;
    assert!(!per_loss::bbr3_check_inflight_too_high(&mut r, at(0)));
    assert!(r.bbr3_state.flags.bw_probe_samples);
    assert_eq!(r.bbr3_state.inflight_hi, usize::MAX);
    // Without samples there is a verdict but no reaction.
    r.bbr3_state.lost = 21;
    r.bbr3_state.flags.bw_probe_samples = false;
    assert!(per_loss::bbr3_check_inflight_too_high(&mut r, at(0)));
    assert_eq!(r.bbr3_state.inflight_hi, usize::MAX);
}

#[test]
fn probing_states_keep_their_lower_bounds() {
    let states = [
        (BBR3StateMachine::Startup, true),
        (BBR3StateMachine::Drain, false),
        (BBR3StateMachine::ProbeBWDOWN, false),
        (BBR3StateMachine::ProbeBWCRUISE, false),
        (BBR3StateMachine::ProbeBWREFILL, true),
        (BBR3StateMachine::ProbeBWUP, true),
        (BBR3StateMachine::ProbeRTT, false),
    ];
    for (state, probing) in states {
        let mut r = controller_with(None, false);
        r.bbr3_state.state = state;
        r.bbr3_state.lost = 1;
        r.bbr3_state.bw_lo = 1000;
        r.bbr3_state.inflight_lo = 90;
        r.bbr3_state.flags.loss_round_start = true;
        assert_eq!(per_loss::bbr3_is_probing_bw(&r), probing);
        per_loss::bbr3_apply_congestion_signals(&mut r);
        assert_eq!(r.bbr3_state.bw_lo, if probing { 1000 } else { 700 });
        // 90 * 0.7 lies below 63.
        assert_eq!(r.bbr3_state.inflight_lo, if probing { 90 } else { 62 });
        assert!(!r.bbr3_state.flags.loss_in_round);
    }
}

#[test]
fn lower_bounds_wait_for_the_end_of_the_round() {
    let mut r = controller_with(None, false);
    r.bbr3_state.state = BBR3StateMachine::ProbeBWDOWN;
    r.bbr3_state.lost = 1;
    r.bbr3_state.bw_lo = 1000;
    per_loss::bbr3_apply_congestion_signals(&mut r);
    assert!(r.bbr3_state.flags.loss_in_round);
    assert_eq!(r.bbr3_state.loss_events_in_round, 1);
    assert_eq!(r.bbr3_state.bw_lo, 1000);
    // Not below what was delivered.
    r.bbr3_state.lost = 0;
    r.bbr3_state.bw_latest = 950;
    r.bbr3_state.flags.loss_round_start = true;
    per_loss::bbr3_apply_congestion_signals(&mut r);
    assert_eq!(r.bbr3_state.bw_lo, 950);
    assert_eq!(r.bbr3_state.inflight_lo, 84_000);
    assert_eq!(r.bbr3_state.loss_events_in_round, 0);
    per_loss::bbr3_reset_lower_bounds(&mut r);
    assert_eq!(r.bbr3_state.bw_lo, u64::MAX);
    assert_eq!(r.bbr3_state.inflight_lo, usize::MAX);
    r.bbr3_state.max_bw = 4321;
    per_loss::bbr3_init_lower_bounds(&mut r);
    assert_eq!(r.bbr3_state.bw_lo, 4321);
    assert_eq!(r.bbr3_state.inflight_lo, 120_000);
}

#[test]
fn delivery_signals_follow_the_round() {
    let mut r = controller_with(None, false);
    r.bbr3_state.bw_latest = 100;
    r.bbr3_state.inflight_latest = 2000;
    r.bbr3_state.loss_round_delivered = 50;
    r.delivery_rate.delivered = 700;
    r.delivery_rate.sample.delivery_rate = 300;
    r.delivery_rate.sample.delivered = 1000;
    r.delivery_rate.sample.prior_delivered = 49;
    per_loss::bbr3_update_latest_delivery_signals(&mut r);
    assert_eq!(r.bbr3_state.bw_latest, 300);
    assert_eq!(r.bbr3_state.inflight_latest, 2000);
    assert!(!r.bbr3_state.flags.loss_round_start);
    assert_eq!(r.bbr3_state.loss_round_delivered, 50);
    per_loss::bbr3_advance_latest_delivery_signals(&mut r);
    assert_eq!(r.bbr3_state.inflight_latest, 2000);

    r.delivery_rate.sample.prior_delivered = 50;
    per_loss::bbr3_update_latest_delivery_signals(&mut r);
    assert!(r.bbr3_state.flags.loss_round_start);
    assert_eq!(r.bbr3_state.loss_round_delivered, 700);
    per_loss::bbr3_advance_latest_delivery_signals(&mut r);
    assert_eq!(r.bbr3_state.bw_latest, 300);
    assert_eq!(r.bbr3_state.inflight_latest, 1000);

    r.bbr3_state.flags.loss_in_round = true;
    r.bbr3_state.loss_events_in_round = 3;
    r.bbr3_state.congestion_losses_in_round = 2;
    per_loss::bbr3_reset_congestion_signals(&mut r);
    assert!(!r.bbr3_state.flags.loss_in_round);
    assert_eq!(r.bbr3_state.loss_events_in_round, 0);
    assert_eq!(r.bbr3_state.congestion_losses_in_round, 0);
    assert_eq!(r.bbr3_state.bw_latest, 0);
    assert_eq!(r.bbr3_state.inflight_latest, 0);
}

#[test]
fn bandwidth_is_the_smallest_bound() {
    for (max_bw, bw_lo, bw_hi) in [(1, 2, 3), (2, 1, 3), (3, 2, 1), (5, 5, 5)] {
        let mut r = controller_with(None, false);
        r.bbr3_state.max_bw = max_bw;
        r.bbr3_state.bw_lo = bw_lo;
        r.bbr3_state.bw_hi = bw_hi;
        per_loss::bbr3_bound_bw_for_model(&mut r);
        assert_eq!(r.bbr3_state.bw, max_bw.min(bw_lo).min(bw_hi));
    }
}

fn ce(count: u64) -> EcnCounts {
    EcnCounts { ect0_count: 0, ect1_count: 0, ecn_ce_count: count }
}

#[test]
fn ecn_round_moves_the_average() {
    let mut r = controller_with(None, false);
    r.bbr3_state.min_rtt = Duration::from_millis(20);
    r.bbr3_state.flags.round_start = true;
    r.bbr3_state.ecn_alpha = F64 { bits: 0.5f64.to_bits() };
    r.bbr3_state.ecn_bytes_delivered = 100;
    r.bbr3_state.inflight_hi = 9_600;
    r.bbr3_state.bw_hi = 96_000;
    per_loss::bbr3_update_ecn(&mut r, &ce(75));
    let alpha = (1.0 - 1.0 / 16.0) * 0.5 + 1.0 / 16.0 * 0.75;
    assert_eq!(f64::from_bits(r.bbr3_state.ecn_alpha.bits), alpha);
    let kept = 1.0 - alpha * (1.0 / 3.0);
    assert_eq!(r.bbr3_state.inflight_hi, (9_600.0 * kept) as usize);
    assert_eq!(r.bbr3_state.bw_hi, (96_000.0 * kept) as u64);
}

#[test]
fn ecn_cut_is_at_most_a_third() {
    let mut r = controller_with(None, false);
    r.bbr3_state.min_rtt = Duration::from_millis(20);
    r.bbr3_state.inflight_hi = 30_000;
    r.bbr3_state.bw_hi = u64::MAX;
    for round in 1..20u64 {
        let before = r.bbr3_state;
        r.bbr3_state.flags.round_start = true;
        r.bbr3_state.ecn_bytes_delivered = 10;
        // More marks than bytes count as all of them.
        per_loss::bbr3_update_ecn(&mut r, &ce(round * 1000));
        let alpha = f64::from_bits(r.bbr3_state.ecn_alpha.bits);
        assert!((0.0..=1.0).contains(&alpha));
        assert!(r.bbr3_state.inflight_hi <= before.inflight_hi);
        assert!(r.bbr3_state.inflight_hi >= before.inflight_hi * 2 / 3);
        assert!(r.bbr3_state.bw_hi < before.bw_hi);
    }
}

#[test]
fn ecn_cut_reduces_even_small_bounds() {
    let mut r = controller_with(None, false);
    r.bbr3_state.min_rtt = Duration::from_millis(20);
    r.bbr3_state.flags.round_start = true;
    r.bbr3_state.ecn_alpha = F64 { bits: 0 };
    r.bbr3_state.ecn_bytes_delivered = 100;
    r.bbr3_state.inflight_hi = 1;
    r.bbr3_state.bw_hi = (1 << 53) + 1;
    per_loss::bbr3_update_ecn(&mut r, &ce(51));
    assert_eq!(r.bbr3_state.inflight_hi, 0);
    assert!(r.bbr3_state.bw_hi < (1 << 53) + 1);
}

#[test]
fn ecn_counts_run_on_past_a_round_without_marks() {
    let mut r = controller_with(None, false);
    r.bbr3_state.min_rtt = Duration::from_millis(20);
    r.bbr3_state.flags.round_start = true;
    r.bbr3_state.ecn_bytes_delivered = 100;
    per_loss::bbr3_update_ecn(&mut r, &ce(0));
    assert_eq!(r.bbr3_state.ecn_bytes_delivered, 100);
}

#[test]
fn ecn_threshold_itself_does_not_cut() {
    let mut r = controller_with(None, false);
    r.bbr3_state.min_rtt = Duration::from_millis(20);
    r.bbr3_state.flags.round_start = true;
    r.bbr3_state.ecn_bytes_delivered = 100;
    r.bbr3_state.inflight_hi = 1000;
    per_loss::bbr3_update_ecn(&mut r, &ce(50));
    assert_eq!(r.bbr3_state.inflight_hi, 1000);
    assert_eq!(r.bbr3_state.ecn_bytes_delivered, 0);
    // A round in which nothing was delivered has no ratio.
    r.bbr3_state.flags.round_start = true;
    let alpha = r.bbr3_state.ecn_alpha;
    per_loss::bbr3_update_ecn(&mut r, &ce(60));
    assert_eq!(r.bbr3_state.inflight_hi, 1000);
    assert_eq!(r.bbr3_state.ecn_alpha, alpha);
    // Counts that fall back are taken for no new marks.
    let before = r.bbr3_state.prior_ecn_ce_count;
    per_loss::bbr3_update_ecn(&mut r, &ce(3));
    assert_eq!(r.bbr3_state.prior_ecn_ce_count, before);
}

#[test]
fn ecn_eligibility_ends_beyond_the_limit() {
    for (nanos, eligible) in [(100_000_000, true), (100_000_999, true), (100_001_000, false)] {
        let mut r = controller_with(None, false);
        r.bbr3_state.min_rtt = Duration { nanos };
        r.bbr3_state.flags.ecn_eligible = true;
        per_loss::bbr3_update_ecn(&mut r, &ce(1));
        assert_eq!(r.bbr3_state.flags.ecn_eligible, eligible);
        assert_eq!(r.bbr3_state.prior_ecn_ce_count, if eligible { 1 } else { 0 });
    }
}

#[test]
fn rho_is_one_up_to_the_reference() {
    for millis in [0u64, 1, 24, 25] {
        assert_eq!(
            f64::from_bits(controller::satellite_rho(Duration::from_millis(millis)).bits),
            1.0
        );
    }
    // Parts of a millisecond count.
    let just_above = Duration { nanos: 25_000_001 };
    assert_eq!(f64::from_bits(controller::satellite_rho(just_above).bits), 25_000_001.0 / 25e6);
    assert_eq!(f64::from_bits(controller::satellite_rho(Duration::from_millis(26)).bits), 1.04);
    let between = Duration { nanos: 62_500_000 };
    assert_eq!(f64::from_bits(controller::satellite_rho(between).bits), 2.5);
    let longest = std::time::Duration::MAX.as_nanos() as f64 / 25e6;
    assert_eq!(f64::from_bits(controller::satellite_rho(Duration::max()).bits), longest);
}

#[test]
fn beta_leaves_seven_tenths() {
    for x in [0u64, 1, 9, 10, 90, 1_000_003, 1 << 45] {
        let left = F64::from_u64(x).times(F64 { bits: state::BETA }).to_u64();
        assert_eq!(left, (x as f64 * 0.7) as u64);
        assert!(left <= 7 * x / 10 && left + 1 >= 7 * x / 10);
    }
}

#[test]
fn probe_rtt_interval_can_be_changed() {
    let mut r = controller_with(None, false);
    assert_eq!(r.bbr3_state.probe_rtt_interval.nanos, state::PROBE_RTT_INTERVAL);
    r.bbr3_state.probe_rtt_interval = Duration::from_secs(15);
    assert_eq!(r.bbr3_state.probe_rtt_interval, Duration::from_secs(15));
    r.bbr3_state.probe_rtt_interval = Duration::from_secs(10);
    assert_eq!(r.bbr3_state.probe_rtt_interval, Duration::from_secs(10));
}

#[test]
fn drain_gain_is_one_half() {
    let drain_gain =
        F64 { bits: state::PACING_GAIN }.over(F64 { bits: state::STARTUP_CWND_GAIN });
    assert_eq!(f64::from_bits(drain_gain.bits), 0.5);
}
