//! Verified core of a plugin-driven window manager.
//!
//! The library covers the wire codec for events and subscriptions, the
//! subscription index that routes events to plugins, the per-plugin event
//! queues with partial-read cursors, and the host-call layer that a WASM
//! plugin runtime exposes to its guests.

pub mod client;
pub mod command;
pub mod debug;
pub mod encoding;
pub mod event;
pub mod imports;
pub mod key;
pub mod plug_mgr;
pub mod queue;
pub mod sub_mgr;
pub mod window;
