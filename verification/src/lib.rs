//! Device-control library for a shooting range: encodes target activation
//! commands, manages the lifecycle of a single serial connection (degrading
//! to a simulated no-op send while disconnected), and models the catalog
//! data (targets, games with activation windows, distance markers) that the
//! storage layer persists.

pub mod channel;
pub mod codec;
pub mod commands;
pub mod handler;
pub mod markers;
pub mod models;
pub mod order;
pub mod store;
