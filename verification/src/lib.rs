//! Live traffic tap: observers subscribe with a filter and an event budget,
//! and receive a bounded, best-effort stream of structured events describing
//! each proxied exchange that their subscription matched and admitted.
//!
//! Taps are strictly observational: nothing in this crate blocks or alters
//! the proxied request path.  A full sink drops events, a vanished observer
//! is pruned lazily, and every admitted exchange is guaranteed an attempt at
//! exactly one terminal event.

pub mod event;
pub mod insert_target;
pub mod laws;
pub mod matching;
pub mod optional;
pub mod registry;
pub mod server;
pub mod service;
pub mod subs;
