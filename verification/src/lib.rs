//! A small system-monitor library: it turns raw resource counters
//! (CPU, memory, disk I/O, network I/O) into a human-readable report.
//!
//! The formatting rules — power-of-1000 unit tiers, a precision that
//! depends on the scaled value's magnitude, percentages with one decimal
//! digit — are stated as specifications and proved of the executable code.

pub mod cli;
pub mod formatting;
pub mod metrics;

pub use cli::CliArgs;
pub use cli::CliError;
pub use formatting::format_bytes;
pub use formatting::format_percent;
pub use formatting::format_speed;
pub use metrics::aggregate_metrics;
pub use metrics::FormattedMetrics;
pub use metrics::MetricsSnapshot;
