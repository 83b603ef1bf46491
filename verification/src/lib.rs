//! A toolkit for single-threaded, readiness-driven socket servers: bounded byte
//! cursors, per-connection event bookkeeping, a selector that dispatches
//! lifecycle events to an application handler, WebSocket framing and a
//! fixed-cadence tick machine.

pub mod connection;
pub mod cursor;
pub mod frame;
pub mod handshake;
pub mod history;
pub mod mock;
pub mod prelude;
pub mod selector;
pub mod slab;
pub mod socket;
pub mod stream;
pub mod tick_machine;
pub mod websocket;
