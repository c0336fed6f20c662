//! The congestion controller's data: the window and its limits, the delivery rate
//! samples that it reads, and the packets that it is told of.

use vstd::prelude::*;

use crate::float64::F64;
use crate::state::State;
use crate::time::{Duration, Instant};

verus! {

/// A packet that was sent.
#[derive(Clone, Copy, Debug)]
pub struct Sent {
    pub pkt_num: u64,
    pub time_sent: Instant,
    pub time_acked: Option<Instant>,
    pub time_lost: Option<Instant>,
    pub size: usize,
    pub ack_eliciting: bool,
    pub in_flight: bool,
    pub delivered: usize,
    pub delivered_time: Instant,
    pub first_sent_time: Instant,
    pub is_app_limited: bool,
    pub tx_in_flight: usize,
    pub lost: u64,
    pub has_data: bool,
    pub pmtud: bool,
}

/// A packet that was acknowledged.
#[derive(Clone, Copy, Debug)]
pub struct Acked {
    pub pkt_num: u64,
    pub time_sent: Instant,
    pub size: usize,
    pub rtt: Duration,
    pub delivered: usize,
    pub delivered_time: Instant,
    pub first_sent_time: Instant,
    pub is_app_limited: bool,
}

/// The cumulative ECN counts that the peer reported.
#[derive(Clone, Copy, Debug)]
pub struct EcnCounts {
    pub ect0_count: u64,
    pub ect1_count: u64,
    pub ecn_ce_count: u64,
}

/// The latest delivery rate sample.
#[derive(Clone, Copy, Debug)]
pub struct RateSample {
    pub delivery_rate: u64,
    pub is_app_limited: bool,
    pub delivered: usize,
    pub prior_delivered: usize,
    pub rtt: Duration,
}

/// The delivery rate estimator, as far as the controller reads it.
#[derive(Clone, Copy, Debug)]
pub struct DeliveryRate {
    pub delivered: usize,
    pub app_limited: bool,
    pub sample: RateSample,
}

impl DeliveryRate {
    /// An estimator that has seen no packet.
    pub open spec fn empty() -> DeliveryRate {
        DeliveryRate {
            delivered: 0,
            app_limited: false,
            sample: RateSample {
                delivery_rate: 0,
                is_app_limited: false,
                delivered: 0,
                prior_delivered: 0,
                rtt: Duration { nanos: 0 },
            },
        }
    }

    /// An estimator that has seen no packet.
    pub fn new() -> (d: DeliveryRate)
        ensures
            d == DeliveryRate::empty(),
    {
        DeliveryRate {
            delivered: 0,
            app_limited: false,
            sample: RateSample {
                delivery_rate: 0,
                is_app_limited: false,
                delivered: 0,
                prior_delivered: 0,
                rtt: Duration { nanos: 0 },
            },
        }
    }

    /// Marks the flow as limited by the application, or no longer so.
    pub fn update_app_limited(&mut self, v: bool)
        ensures
            *final(self) == (DeliveryRate { app_limited: v, ..*old(self) }),
    {
        self.app_limited = v;
    }
}

/// What a connection's configuration says about its congestion controller.
#[derive(Clone, Copy, Debug)]
pub struct RecoveryConfig {
    pub max_datagram_size: usize,
    pub initial_congestion_window_packets: usize,
    /// A loss rate tolerated in place of the default one.
    pub satellite_loss_threshold: Option<F64>,
    /// Whether isolated losses are taken for bit errors.
    pub satellite_loss_discrimination: bool,
    /// An interval between ProbeRTT states in place of the default one.
    pub probe_rtt_interval: Option<Duration>,
}

/// The congestion controller.
#[derive(Clone, Copy, Debug)]
pub struct Congestion {
    pub bbr3_state: State,
    pub congestion_window: usize,
    pub max_datagram_size: usize,
    pub initial_congestion_window_packets: usize,
    pub send_quantum: usize,
    pub congestion_recovery_start_time: Option<Instant>,
    pub delivery_rate: DeliveryRate,
    pub satellite_loss_threshold: Option<F64>,
    pub satellite_loss_discrimination: bool,
    pub cwnd_frozen: bool,
}

impl Congestion {
    /// The controller of a connection that starts at `now`.
    pub open spec fn configured(cfg: RecoveryConfig, now: Instant) -> Congestion {
        let window = (cfg.max_datagram_size * cfg.initial_congestion_window_packets) as usize;
        Congestion {
            bbr3_state: State {
                probe_rtt_interval: match cfg.probe_rtt_interval {
                    Some(interval) => interval,
                    None => State::initial(now).probe_rtt_interval,
                },
                ..State::initial(now)
            },
            congestion_window: window,
            max_datagram_size: cfg.max_datagram_size,
            initial_congestion_window_packets: cfg.initial_congestion_window_packets,
            send_quantum: window,
            congestion_recovery_start_time: None,
            delivery_rate: DeliveryRate::empty(),
            satellite_loss_threshold: cfg.satellite_loss_threshold,
            satellite_loss_discrimination: cfg.satellite_loss_discrimination,
            cwnd_frozen: false,
        }
    }

    /// The controller of a connection that starts at `now`.
    pub fn from_config(cfg: &RecoveryConfig, now: Instant) -> (r: Congestion)
        requires
            cfg.max_datagram_size * cfg.initial_congestion_window_packets <= usize::MAX,
        ensures
            r == Congestion::configured(*cfg, now),
    {
        let window: usize = cfg.max_datagram_size * cfg.initial_congestion_window_packets;
        let mut state: State = State::new(now);
        if let Some(interval) = cfg.probe_rtt_interval {
            state.probe_rtt_interval = interval;
        }
        Congestion {
            bbr3_state: state,
            congestion_window: window,
            max_datagram_size: cfg.max_datagram_size,
            initial_congestion_window_packets: cfg.initial_congestion_window_packets,
            send_quantum: window,
            congestion_recovery_start_time: None,
            delivery_rate: DeliveryRate::new(),
            satellite_loss_threshold: cfg.satellite_loss_threshold,
            satellite_loss_discrimination: cfg.satellite_loss_discrimination,
            cwnd_frozen: false,
        }
    }

    /// Whether a packet sent at `sent_time` belongs to the current recovery episode.
    pub open spec fn recovering(self, sent_time: Instant) -> bool {
        match self.congestion_recovery_start_time {
            Some(start) => sent_time.nanos <= start.nanos,
            None => false,
        }
    }

    /// Whether a packet sent at `sent_time` belongs to the current recovery episode.
    pub fn in_congestion_recovery(&self, sent_time: Instant) -> (b: bool)
        ensures
            b == self.recovering(sent_time),
    {
        match self.congestion_recovery_start_time {
            Some(start) => sent_time.nanos <= start.nanos,
            None => false,
        }
    }
}

}
