//! Metadata values and keys.

pub mod types;
