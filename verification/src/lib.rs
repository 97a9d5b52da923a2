//! A schedule of recurring events: locations, events and their dated
//! occurrences, with date-range filtering, per-day aggregation and
//! referential integrity on deletion.

pub mod action;
pub mod changes;
pub mod engine;
pub mod error;
pub mod filter;
pub mod id;
pub mod id_map;
pub mod id_text;
pub mod laws;
pub mod model;
pub mod schedule;
pub mod store;
pub mod time;
pub mod website;
