//! Core of a spaced-repetition study tracker.
//!
//! An account keeps a set of courses; each course carries a textual
//! recurrence pattern, a date span, and a generation key.  The pattern is
//! parsed into a strictly ascending list of day offsets, and the offsets are
//! materialized into dated review events, truncated at the end of the span
//! and stamped with the generation key.  On a schedule edit a fresh key is
//! minted, a full new event set is materialized under it, and the events
//! whose key equals the course's current key are the sole authoritative
//! schedule for every read path; older generations are kept for history and
//! filtered out of every listing.

pub mod api;
pub mod asset;
pub mod auth;
pub mod calendar;
pub mod course;
pub mod day;
pub mod model;
pub mod recurrence;
pub mod text;
