//! Prayer-time scheduling and notification-dedup logic.
//!
//! The library normalizes raw "HH:MM" clock strings into an ordered,
//! wrap-safe daily schedule, resolves the active and next prayer under a
//! 24-hour wraparound, computes the countdown to the next prayer, and
//! tracks which prayers have already been notified for the current
//! calendar date so that each prayer is announced at most once per day.
//! Fetching times from the network, drawing the dashboard, reading and
//! writing files, and dispatching system notifications are collaborators
//! that live outside this crate; they exchange plain values with it.

pub mod config;
pub mod prayers;
pub mod state;
pub mod schedule;
