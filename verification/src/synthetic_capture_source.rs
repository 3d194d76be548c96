//! Deterministic captures for tests and platform stand-ins.

pub mod acquisition_run;
pub mod demo;
pub mod live_acquisition;
pub mod synthetic_laws;
pub mod trigger;
