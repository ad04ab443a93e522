//! Shift-time arithmetic, production objective curves and telemetry
//! post-processing for a production line's compute service.
pub mod clock;
pub mod shift;
pub mod spans;
pub mod config;
pub mod objective;
pub mod timeline;
pub mod performance;
pub mod query;
