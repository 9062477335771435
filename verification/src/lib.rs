//! Backend logic of a desktop companion: tailing a growing log file, taking
//! snapshots of it, driving the change watcher, and a few small models of
//! network counters, themes and configuration history.

pub mod lines;
pub mod tracker;
pub mod snapshot;
pub mod watcher;
pub mod network;
pub mod theme;
pub mod config;
pub mod recency;
pub mod paths;
pub mod session;
pub mod netdev;
pub mod numbers;
pub mod names;
