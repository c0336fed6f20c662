//! Constants, enumerations and state variables of BBR v3.
//!
//! Real-valued constants are given by their binary64 encodings.

use vstd::prelude::*;

use crate::float64::F64;
use crate::time::{Duration, Instant};
use crate::time;

verus! {

/// 0.01: the static discount factor of 1% used to scale BBR.bw to produce
/// BBR.pacing_rate.
pub const PACING_MARGIN_PERCENT: u64 = 0x3F84_7AE1_47AE_147B;

/// 2.77: the minimum gain value for calculating the pacing rate that will allow the
/// sending rate to double each round (4*ln(2)); used in Startup mode for
/// BBR.pacing_gain.
pub const STARTUP_PACING_GAIN: u64 = 0x4006_28F5_C28F_5C29;

/// 0.90: the pacing gain value for Probe Down mode.
pub const PROBE_DOWN_PACING_GAIN: u64 = 0x3FEC_CCCC_CCCC_CCCD;

/// 1.25: the pacing gain value for Probe Up mode.
pub const PROBE_UP_PACING_GAIN: u64 = 0x3FF4_0000_0000_0000;

/// 1.0: the pacing gain value for Probe Refill, Probe RTT, Cruise mode.
pub const PACING_GAIN: u64 = 0x3FF0_0000_0000_0000;

/// 2.0: the minimum gain value for the cwnd in the Startup phase.
pub const STARTUP_CWND_GAIN: u64 = 0x4000_0000_0000_0000;

/// 2.0: the minimum gain value for calculating the cwnd that will allow the sending rate
/// to double each round; used in Probe and Drain mode for BBR.cwnd_gain.
pub const CWND_GAIN: u64 = 0x4000_0000_0000_0000;

/// 0.02: the maximum tolerated per-round-trip packet loss rate when probing for
/// bandwidth.
pub const LOSS_THRESH: u64 = 0x3F94_7AE1_47AE_147B;

/// Exit startup if the number of loss marking events is at least this.
pub const FULL_LOSS_COUNT: u32 = 6;

/// 0.7: the multiplicative decrease to make upon each round trip during which the
/// connection detects packet loss.
pub const BETA: u64 = 0x3FE6_6666_6666_6666;

/// 0.85: the multiplicative factor to apply to BBR.inflight_hi when attempting to leave
/// free headroom in the path that can be used by cross traffic.
pub const HEADROOM: u64 = 0x3FEB_3333_3333_3333;

/// The minimal cwnd value BBR targets, in packets, to allow pipelining with endpoints
/// that follow an "ACK every other packet" delayed-ACK policy.
pub const MIN_PIPE_CWND_PKTS: usize = 4;

/// The length of the BBR.min_rtt min filter window, in seconds.
pub const MIN_RTT_FILTER_LEN: u32 = 10;

/// 0.5: the gain value for calculating the cwnd during ProbeRTT, which attempts to
/// reduce in-flight data to 50% of the estimated BDP.
pub const PROBE_RTT_CWND_GAIN: u64 = 0x3FE0_0000_0000_0000;

/// The minimum duration for which ProbeRTT state holds inflight to BBRMinPipeCwnd or
/// fewer packets: 200 ms, in nanoseconds.
pub const PROBE_RTT_DURATION: u128 = 200_000_000;

/// The default minimum time interval between ProbeRTT states: 5 s, in nanoseconds.
pub const PROBE_RTT_INTERVAL: u128 = 5_000_000_000;

/// 1.25: threshold for checking a full bandwidth growth during Startup.
pub const MAX_BW_GROWTH_THRESHOLD: u64 = 0x3FF4_0000_0000_0000;

/// Threshold for determining maximum bandwidth of network during Startup.
pub const MAX_BW_COUNT: usize = 3;

/// ECN: maximum min_rtt (in microseconds) for ECN eligibility. ECN is active for
/// terrestrial and LEO links and disabled for MEO and GEO, where feedback is stale.
pub const ECN_MAX_RTT_US: u64 = 100_000;

/// ECN: 1/16, the EWMA gain for updating ecn_alpha (6.25%).
pub const ECN_ALPHA_GAIN: u64 = 0x3FB0_0000_0000_0000;

/// ECN: 1.0, the initial value for ecn_alpha.
pub const ECN_ALPHA_INIT: u64 = 0x3FF0_0000_0000_0000;

/// ECN: 1/3, the maximum reduction factor per ECN signal (33%).
pub const ECN_FACTOR: u64 = 0x3FD5_5555_5555_5555;

/// ECN: 0.5, the CE ratio threshold above which inflight_hi and bw_hi are reduced.
pub const ECN_THRESH: u64 = 0x3FE0_0000_0000_0000;

/// 1.3: how far the latest round trip may rise above the minimum before losses count
/// as congestion again.
pub const RTT_INFLATION_LIMIT: u64 = 0x3FF4_CCCC_CCCC_CCCD;

/// 2.0: a loss is isolated when more than this many minimum round trips passed since
/// the one before.
pub const ISOLATED_LOSS_GAP: u64 = 0x4000_0000_0000_0000;

/// The round trip that a path is compared to for satellite scaling: 25 ms, in
/// nanoseconds.
pub const REFERENCE_RTT: u64 = 25_000_000;

/// BBR3 internal state machine.
#[derive(Clone, Copy, Debug, PartialEq, Eq, Structural)]
pub enum BBR3StateMachine {
    Startup,
    Drain,
    ProbeBWDOWN,
    ProbeBWCRUISE,
    ProbeBWREFILL,
    ProbeBWUP,
    ProbeRTT,
}

/// BBR3 ack phases.
#[derive(Clone, Copy, Debug, PartialEq, Eq, Structural)]
pub enum BBR3AckPhase {
    Init,
    ProbeFeedback,
    ProbeStarting,
    ProbeStopping,
    Refilling,
}

/// The estimate that a windowed maximum filter holds.
#[derive(Clone, Copy, Debug)]
pub struct Minmax<T> {
    pub estimate: T,
}

impl<T> Minmax<T> {
    /// A filter that has seen `value` alone.
    pub fn new(value: T) -> (m: Minmax<T>)
        ensures
            m.estimate == value,
    {
        Minmax { estimate: value }
    }
}

/// The conditions that a flow keeps track of.
#[derive(Clone, Copy, Debug)]
pub struct Flags {
    /// Whether BBR is currently using packet conservation dynamics to bound cwnd.
    pub packet_conservation: bool,
    /// Set once per packet-timed round trip, on ACKs that advance round_count.
    pub round_start: bool,
    /// True if and only if a connection is restarting after being idle.
    pub idle_restart: bool,
    /// Whether BBR estimates that it has ever fully utilized its available bandwidth.
    pub filled_pipe: bool,
    /// Whether probe_rtt_min_delay has expired and is due for a refresh.
    pub probe_rtt_expired: bool,
    /// Whether the flow is in loss recovery.
    pub in_recovery: bool,
    /// Whether there are bandwidth probe samples.
    pub bw_probe_samples: bool,
    /// Whether a round trip has passed in ProbeRTT.
    pub probe_rtt_round_done: bool,
    /// Whether the ACK being processed ends a round for loss accounting.
    pub loss_round_start: bool,
    /// Whether losses in the current round count as congestion.
    pub loss_in_round: bool,
    /// ECN: whether the connection is eligible for ECN processing.
    pub ecn_eligible: bool,
    /// ECN: whether any CE marks were observed since the last round that ended with new
    /// ones. A round that starts without any does not clear the flag.
    pub ecn_in_round: bool,
}

/// BBR3 specific state variables.
#[derive(Clone, Copy, Debug)]
pub struct State {
    /// The conditions that hold.
    pub flags: Flags,
    // Per-ACK Rate Sample State
    /// The volume of data that was estimated to be in flight at the time of the
    /// transmission of the packet that has just been ACKed.
    pub tx_in_flight: usize,
    /// The volume of data that was declared lost between the transmission and
    /// acknowledgement of the packet that has just been ACKed.
    pub lost: usize,
    /// The volume of data cumulatively or selectively acknowledged upon the ACK that
    /// was just received.
    pub newly_acked_bytes: usize,
    /// The volume of data newly marked lost upon the ACK that was just received.
    pub newly_lost_bytes: usize,
    // Output Control Parameters
    /// The current pacing rate, which controls inter-packet spacing.
    pub pacing_rate: u64,
    /// The initial pacing rate, kept until more reliable bytes delivered and RTT
    /// samples are available.
    pub init_pacing_rate: u64,
    // Pacing State and Parameters
    /// The dynamic gain factor used to scale BBR.bw to produce BBR.pacing_rate.
    pub pacing_gain: F64,
    // cwnd State and Parameters
    /// The dynamic gain factor used to scale the estimated BDP to produce a congestion
    /// window (cwnd).
    pub cwnd_gain: F64,
    // General Algorithm State
    /// The current state of a BBR3 flow in the BBR3 state machine.
    pub state: BBR3StateMachine,
    /// Count of packet-timed round trips elapsed so far.
    pub round_count: u64,
    /// packet.delivered value denoting the end of a packet-timed round trip.
    pub next_round_delivered: usize,
    // Data Rate Network Path Model Parameters
    /// The windowed maximum recent bandwidth sample.
    pub max_bw: u64,
    /// The long-term maximum sending bandwidth estimated to produce acceptable queue
    /// pressure.
    pub bw_hi: u64,
    /// The short-term maximum sending bandwidth estimated to be safe, based on loss
    /// signals in the current bandwidth probing cycle.
    pub bw_lo: u64,
    /// The maximum sending bandwidth given all available signals: the min() of max_bw,
    /// bw_hi, and bw_lo.
    pub bw: u64,
    // Data Volume Network Path Model Parameters
    /// The windowed minimum round-trip time sample.
    pub min_rtt: Duration,
    /// The estimate of the network path's BDP: BBR.bw * BBR.min_rtt.
    pub bdp: usize,
    /// The estimate of the recent degree of aggregation in the network path.
    pub extra_acked: usize,
    /// The estimate of the minimum volume of data necessary to achieve full throughput
    /// with sender and receiver offload mechanisms.
    pub offload_budget: usize,
    /// The estimate of the volume of in-flight data required to fully utilize the
    /// bottleneck bandwidth available to the flow.
    pub max_inflight: usize,
    /// The long-term maximum volume of in-flight data estimated to produce acceptable
    /// queue pressure.
    pub inflight_hi: usize,
    /// The short-term maximum volume of in-flight data estimated to be safe, based on
    /// loss signals in the current bandwidth probing cycle.
    pub inflight_lo: usize,
    // State for Responding to Congestion
    /// A 1-round-trip max of delivered bandwidth.
    pub bw_latest: u64,
    /// A 1-round-trip max of delivered volume of data.
    pub inflight_latest: usize,
    // Estimating BBR.max_bw
    /// The filter for tracking the maximum recent delivery rate sample.
    pub max_bw_filter: Minmax<u64>,
    /// The virtual time used by the BBR.max_bw filter window.
    pub cycle_count: u64,
    // Estimating BBR.extra_acked
    /// The start of the time interval for estimating the excess amount of data
    /// acknowledged due to aggregation effects.
    pub extra_acked_interval_start: Instant,
    /// The volume of data marked as delivered since extra_acked_interval_start.
    pub extra_acked_delivered: usize,
    /// The max filter tracking the recent maximum degree of aggregation in the path.
    pub extra_acked_filter: Minmax<usize>,
    // Startup Parameters and State
    /// A recent baseline BBR.max_bw to estimate if BBR has "filled the pipe".
    pub full_bw: u64,
    /// The number of non-app-limited round trips without large increases in full_bw.
    pub full_bw_count: usize,
    // Parameters for Estimating BBR.min_rtt
    /// When the current BBR.min_rtt sample was obtained.
    pub min_rtt_stamp: Instant,
    // Parameters for Scheduling ProbeRTT
    /// The minimum RTT sample recorded in the last ProbeRTT interval.
    pub probe_rtt_min_delay: Duration,
    /// When the current probe_rtt_min_delay sample was obtained.
    pub probe_rtt_min_stamp: Instant,
    /// Configurable ProbeRTT interval, e.g. 15s for GEO.
    pub probe_rtt_interval: Duration,
    // Others
    /// Start time of the connection.
    pub start_time: Instant,
    /// Saved cwnd before loss recovery.
    pub prior_cwnd: usize,
    pub probe_up_cnt: usize,
    pub prior_bytes_in_flight: usize,
    pub probe_rtt_done_stamp: Option<Instant>,
    pub bw_probe_wait: Duration,
    pub rounds_since_probe: usize,
    pub cycle_stamp: Instant,
    pub ack_phase: BBR3AckPhase,
    pub bw_probe_up_rounds: usize,
    pub bw_probe_up_acks: usize,
    pub loss_round_delivered: usize,
    pub loss_events_in_round: usize,
    /// Count of losses that passed discrimination (not classified as isolated bit
    /// errors).
    pub congestion_losses_in_round: usize,
    /// When the last packet loss was detected, for bit-error discrimination.
    pub last_loss_time: Option<Instant>,
    /// Count of consecutive isolated losses classified as bit errors.
    pub consecutive_isolated_losses: u32,
    /// ECN: EWMA of CE ratio, used to scale inflight_hi/bw_hi reductions.
    pub ecn_alpha: F64,
    /// ECN: bytes delivered since the last round that ended with new CE marks. A round
    /// that starts without any does not reset the count.
    pub ecn_bytes_delivered: usize,
    /// ECN: CE marks over the same time as ecn_bytes_delivered.
    pub ecn_ce_bytes_delivered: usize,
    /// ECN: cumulative CE count from the last ACK.
    pub prior_ecn_ce_count: u64,
}

impl State {
    /// The state of a flow that starts at `now`.
    pub open spec fn initial(now: Instant) -> State {
        State {
            flags: Flags {
                packet_conservation: false,
                round_start: false,
                idle_restart: false,
                filled_pipe: false,
                probe_rtt_expired: false,
                in_recovery: false,
                bw_probe_samples: false,
                probe_rtt_round_done: false,
                loss_round_start: false,
                loss_in_round: false,
                ecn_eligible: false,
                ecn_in_round: false,
            },
            tx_in_flight: 0,
            lost: 0,
            newly_acked_bytes: 0,
            newly_lost_bytes: 0,
            pacing_rate: 0,
            init_pacing_rate: 0,
            pacing_gain: F64 { bits: 0 },
            cwnd_gain: F64 { bits: 0 },
            state: BBR3StateMachine::Startup,
            round_count: 0,
            next_round_delivered: 0,
            max_bw: 0,
            bw_hi: u64::MAX,
            bw_lo: u64::MAX,
            bw: 0,
            min_rtt: Duration { nanos: time::DURATION_MAX },
            bdp: 0,
            extra_acked: 0,
            offload_budget: 0,
            max_inflight: 0,
            inflight_hi: usize::MAX,
            inflight_lo: usize::MAX,
            bw_latest: 0,
            inflight_latest: 0,
            max_bw_filter: Minmax { estimate: 0 },
            cycle_count: 0,
            extra_acked_interval_start: now,
            extra_acked_delivered: 0,
            extra_acked_filter: Minmax { estimate: 0 },
            full_bw: 0,
            full_bw_count: 0,
            min_rtt_stamp: now,
            probe_rtt_min_delay: Duration { nanos: time::DURATION_MAX },
            probe_rtt_min_stamp: now,
            probe_rtt_interval: Duration { nanos: PROBE_RTT_INTERVAL },
            start_time: now,
            prior_cwnd: 0,
            probe_up_cnt: 0,
            prior_bytes_in_flight: 0,
            probe_rtt_done_stamp: None,
            bw_probe_wait: Duration { nanos: 0 },
            rounds_since_probe: 0,
            cycle_stamp: now,
            ack_phase: BBR3AckPhase::Init,
            bw_probe_up_rounds: 0,
            bw_probe_up_acks: 0,
            loss_round_delivered: 0,
            loss_events_in_round: 0,
            congestion_losses_in_round: 0,
            last_loss_time: None,
            consecutive_isolated_losses: 0,
            ecn_alpha: F64 { bits: ECN_ALPHA_INIT },
            ecn_bytes_delivered: 0,
            ecn_ce_bytes_delivered: 0,
            prior_ecn_ce_count: 0,
        }
    }

    /// The state of a flow that starts at `now`.
    pub fn new(now: Instant) -> (s: State)
        ensures
            s == State::initial(now),
    {
        State {
            flags: Flags {
                packet_conservation: false,
                round_start: false,
                idle_restart: false,
                filled_pipe: false,
                probe_rtt_expired: false,
                in_recovery: false,
                bw_probe_samples: false,
                probe_rtt_round_done: false,
                loss_round_start: false,
                loss_in_round: false,
                ecn_eligible: false,
                ecn_in_round: false,
            },
            tx_in_flight: 0,
            lost: 0,
            newly_acked_bytes: 0,
            newly_lost_bytes: 0,
            pacing_rate: 0,
            init_pacing_rate: 0,
            pacing_gain: F64 { bits: 0 },
            cwnd_gain: F64 { bits: 0 },
            state: BBR3StateMachine::Startup,
            round_count: 0,
            next_round_delivered: 0,
            max_bw: 0,
            bw_hi: u64::MAX,
            bw_lo: u64::MAX,
            bw: 0,
            min_rtt: Duration::max(),
            bdp: 0,
            extra_acked: 0,
            offload_budget: 0,
            max_inflight: 0,
            inflight_hi: usize::MAX,
            inflight_lo: usize::MAX,
            bw_latest: 0,
            inflight_latest: 0,
            max_bw_filter: Minmax::new(0),
            cycle_count: 0,
            extra_acked_interval_start: now,
            extra_acked_delivered: 0,
            extra_acked_filter: Minmax::new(0),
            full_bw: 0,
            full_bw_count: 0,
            min_rtt_stamp: now,
            probe_rtt_min_delay: Duration::max(),
            probe_rtt_min_stamp: now,
            probe_rtt_interval: Duration { nanos: PROBE_RTT_INTERVAL },
            start_time: now,
            prior_cwnd: 0,
            probe_up_cnt: 0,
            prior_bytes_in_flight: 0,
            probe_rtt_done_stamp: None,
            bw_probe_wait: Duration { nanos: 0 },
            rounds_since_probe: 0,
            cycle_stamp: now,
            ack_phase: BBR3AckPhase::Init,
            bw_probe_up_rounds: 0,
            bw_probe_up_acks: 0,
            loss_round_delivered: 0,
            loss_events_in_round: 0,
            congestion_losses_in_round: 0,
            last_loss_time: None,
            consecutive_isolated_losses: 0,
            ecn_alpha: F64 { bits: ECN_ALPHA_INIT },
            ecn_bytes_delivered: 0,
            ecn_ce_bytes_delivered: 0,
            prior_ecn_ce_count: 0,
        }
    }
}

}
