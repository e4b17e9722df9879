//! Scheduling core of a personal reminder service.
//!
//! A reminder is written as free text (`"9am mwf rep"`, `"10pm 1/29"`), parsed
//! into a time of day plus either a set of weekdays or a calendar date, and
//! then driven by two small state machines: one per task, which waits for the
//! next occurrence and fires, and one per recipient, which keeps pinging until
//! the recipient answers.
//!
//! Everything here is pure: the clock, the local offset, the chat transport
//! and the database are handed in as plain values by the caller.

pub mod weekday;
pub mod calendar;
pub mod text;
pub mod model;
pub mod jobs;
pub mod time_parse;
pub mod bot;
