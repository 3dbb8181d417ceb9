//! A device state synchronization service: a verified core that bridges a
//! frame-driven update loop with latency-bearing calls to a remote device
//! controller, guaranteeing at-most-one in-flight poll, change-only
//! notification, and independent tracking of history requests.
//!
//! - [`gateway`] models the remote controller: schedule-driven state reads,
//!   state writes, and history reads, pure and deterministic.
//! - [`bridge`] holds the pending operation a background worker answers
//!   through a single-slot channel, polled non-blockingly.
//! - [`reconcile`] diffs each polled snapshot against the last-known state
//!   and notifies changed devices only.
//! - [`history`] tracks the concurrently outstanding history fetches.
//! - [`sync`] drives the whole service one update cycle at a time, manual
//!   changes before poll-driven reconciliation.

pub mod bridge;
pub mod device;
pub mod events;
pub mod gateway;
pub mod history;
pub mod reconcile;
pub mod state;
pub mod sync;

pub use bridge::Pending;
pub use device::{Device, Light};
pub use events::{LightHistory, LightHistoryRequest, ManualLightStateChange, ServerLightStateChange};
pub use gateway::{Gateway, Schedule};
pub use history::HistoryTracker;
pub use reconcile::Reconciler;
pub use state::StateSnapshot;
pub use sync::{Action, CycleOutput, Inbound, SyncService};
