//! Capture files: their metadata and their samples.

pub mod cache;
pub mod dsl;
pub mod error;
pub mod file_laws;
pub mod identity;
pub mod ini;
pub mod metadata;
pub mod rate;
pub mod sigrok;
