//! Bounded curated memory and the `memory` tool.
//!
//! Two stores of entries with size caps, threat scanning and drift detection.
pub mod answer_laws;
pub mod builder;
pub mod config;
pub mod config_laws;
pub mod error;
pub mod files;
pub mod guard_laws;
pub mod laws;
pub mod lock;
pub mod manager;
pub mod prompt_laws;
pub mod provider;
pub mod review;
pub mod storage;
pub mod store;
pub mod threats;
pub mod tool;
