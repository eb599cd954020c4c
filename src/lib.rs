//! Event distribution core of a realtime chat backend: typed domain events,
//! their canonical wire encoding, per-mailbox coalescing history, live
//! fan-out to subscribers, presence tracking, and the periodic sweeps that
//! reclaim idle resources.
pub mod api;
pub mod context;
pub mod event_bus;
pub mod event_log;
pub mod events;
pub mod heartbeat;
pub mod janitor;
pub mod producer;
pub mod wire;
