//! The logic of the cache administration tools: garbage collection, health
//! checks and statistics.  Walking the cache directory and its index is the
//! program's part; it hands the listings to these functions.
pub mod cache_gc;
pub mod cache_health;
pub mod cache_stats;

pub use cache_gc::{GcOptions, GcReport};
pub use cache_health::{HealthCheck, HealthReport, HealthStatus, Severity};
pub use cache_stats::{AgeDistribution, CacheStatsReport, EntryBucket};
