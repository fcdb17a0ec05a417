//! Timing instrumentation: a fixed-memory latency histogram with exact
//! nearest-rank percentile queries, a named-metric registry built on it, a
//! flat per-name sample aggregator, and a scope-timing guard.
//!
//! The histogram's behaviour is stated against the sequence of samples it
//! has recorded; percentile queries take a `Quantile`, an exact fraction in
//! `[0, 1]`.

pub mod backend;
pub mod collector;
pub mod duration;
pub mod hdr;
pub mod histogram;
pub mod keyed;
pub mod measurement;
pub mod quantile;
pub mod timer;
pub mod timing;
pub mod watch;

pub use backend::HistBackend;
pub use collector::{Collector, DurationStore, Stats};
pub use duration::Duration;
pub use hdr::{HdrConfigError, HdrHistogram};
pub use histogram::FastHistogram;
pub use measurement::Measurement;
pub use quantile::Quantile;
pub use timer::Timer;
pub use timing::{measure, measure_named};
pub use watch::{Registry, Snapshot, Watch, WatchBuilder, WatchStats};
