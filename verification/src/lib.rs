//! Verified core of a chat-statistics service.
//!
//! The library covers the logic that decides what the service does: the
//! filter chain over inbound events, mention resolution, record
//! construction and stamping, the retention scheduler's retry policy, the
//! cron-driven recurring trigger, and the resource monitor's threshold
//! alerts.  The surrounding process (gateway connection, database driver,
//! notification transport) hands the library plain values and performs the
//! actions the library decides on.

pub mod config;
pub mod event;
pub mod filter;
pub mod mentions;
pub mod monitor;
pub mod pipeline;
pub mod retention;
pub mod schedule;
pub mod store;
pub mod text;
