//! Real-time latency telemetry: probe outcomes in, bounded per-target
//! statistics and snapshots out.

pub mod consumer;
pub mod data_processor;
pub mod exporter;
pub mod i18n;
pub mod network;
pub mod ping_event;
pub mod resolve;
pub mod session;
pub mod statistics;
pub mod target_stats;
pub mod text;
pub mod view;
