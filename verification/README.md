# bbr3

The core of the BBR v3 congestion controller for QUIC, with satellite extensions, written
in Verus. Every function in `src/` carries a contract that Verus proves; nothing is
trusted.

- `src/controller.rs` has the hooks of a controller: packets sent, packets acknowledged,
  packets lost.
- `src/per_loss.rs`, `src/per_ack.rs` and `src/per_transmit.rs` have the steps behind them.
  The steps that depend on how a path is modelled and paced are supplied by the user of the
  crate, through the trait in `src/steps.rs`. Contracts of functions that run such a step
  say what they hand to it and what they make of the result.
- `src/state.rs` and `src/congestion.rs` hold constants and data.
- `src/float64.rs`, `src/rounding.rs` and `src/nearest.rs` are binary64 arithmetic in
  integers. Contracts speak of exact results rounded once, to the nearest number, so the
  proofs reach down to the last bit of a loss threshold.
- `src/laws.rs`, `src/ecn_laws.rs`, `src/threshold_laws.rs`, `src/time_laws.rs` and
  `src/volume_laws.rs` state what holds across functions, one public proof function per
  law.
- `tests/` run the library; `app/` ties it to the clock and to `f64`.
