//! Per-process resource sampling for a top-like process viewer.
//!
//! Two snapshots of per-process counters, taken one refresh interval apart,
//! become CPU shares (`sampler`); the samples pass a set of independent
//! filters (`filter`), are ranked and cut to what the screen holds (`rank`),
//! and are written with the helpers in `units` and `clock`. The refresh loop's
//! decisions live in `cycle`, the precedence of settings in `settings`.
pub mod clock;
pub mod cycle;
pub mod filter;
pub mod rank;
pub mod sampler;
pub mod settings;
pub mod text;
pub mod units;
