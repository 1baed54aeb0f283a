//! Two-tier cache: a bounded in-process tier in front of a durable tier, with
//! time-based expiry, pattern invalidation and compute-on-miss memoization.
//!
//! The operations whose name ends in `_at` take the current time, in
//! milliseconds since the Unix epoch, as an argument, so that what they do is
//! a function of their arguments.  Their namesakes without `_at` read the wall
//! clock and delegate; they unwind where reading the clock does.

pub mod entry;
pub mod error;
pub mod guarantees;
pub mod inflight;
pub mod memory;
pub mod model;
pub mod persistent;
pub mod policy;
pub mod service;
pub mod stats;
pub mod typed;

pub use self::entry::CacheEntry;
pub use self::error::CacheError;
pub use self::inflight::{InFlight, Role, Seat};
pub use self::memory::MemoryTier;
pub use self::persistent::{PersistentRecord, PersistentTier, StoreError};
pub use self::service::{CacheService, HotKey};
pub use self::stats::CacheStats;
pub use self::typed::{InvalidationStrategy, TypedCache};
