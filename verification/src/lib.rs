//! A personal time tracker.
//!
//! An *activity* is a named, tagged interval of time with a start and an
//! optional end; an activity whose end is not yet set is *active*.  The
//! [`store::ActivityStore`] keeps activities and answers paginated history
//! queries and per-tag duration reports; its intent-level operations
//! (`start_activity`, `stop_activity`) enforce the rule that at most one
//! activity is active at a time.

pub mod laws;
pub mod report;
pub mod service;
pub mod store;
pub mod tags;
pub mod types;
mod sys;
