//! Tracks copies of files across storage devices by content hash: a content
//! store, the scan that fills and reconciles it, and the backup-safety and
//! duplicate-waste analytics read from it.

pub mod analytics;
pub mod browse;
pub mod clock;
pub mod devices;
pub mod model;
pub mod order;
pub mod path;
pub mod scanner;
pub mod store;
pub mod text;
