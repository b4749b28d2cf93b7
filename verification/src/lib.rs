//! A verified calendar engine for a fictional in-game calendar.
//!
//! The engine converts between real-world instants and fictional dates
//! (31-day months, 12-month years, one fictional day per 20 real minutes),
//! evaluates periodic event recurrence, derives extra events from election
//! perks, and walks a real-time window to populate a calendar.

pub mod auction;
pub mod calendar;
pub mod database;
pub mod election;
pub mod errors;
pub mod event;
pub mod generator;
pub mod time;
