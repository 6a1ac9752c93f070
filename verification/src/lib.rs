//! Aegis edge gateway — the verified core.

pub mod causal;
pub mod config;
pub mod control;
pub mod control_plane;
pub mod decision;
pub mod dedup;
pub mod event;
pub mod hec;
pub mod id;
pub mod incident_memory;
pub mod ingest;
pub mod order;
pub mod pattern;
pub mod service;
pub mod service_catalog;
pub mod signature;
pub mod sink;
pub mod sidecar;
pub mod silence;
pub mod similarity;
pub mod summary;
pub mod table;
pub mod text;
