//! Metadata handling for hierarchies of media items: metadata values and
//! their combination rules, sorting and selection of item paths, and the
//! functions that transform sequences of metadata values.

pub mod compose;
pub mod config;
pub mod decimal;
pub mod error;
pub mod functions;
pub mod library;
pub mod metadata;
pub mod source;
