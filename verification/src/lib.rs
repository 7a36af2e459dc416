//! Team management and event merging for an activity-tracking server.

pub mod event;
pub mod merge;
pub mod merge_laws;
pub mod token;
pub mod models;
pub mod session;
pub mod teams;
