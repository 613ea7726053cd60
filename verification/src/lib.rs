//! An in-memory relational model of a multi-file transit-data bundle.
//!
//! The bundle is a set of comma-separated text files describing agencies,
//! stops, routes, trips, per-trip stop visits, shapes, calendars and fares.
//! The library decodes each file, cross-references stop visits against the
//! already-loaded trips and stops, and expands a service's weekly calendar
//! pattern plus date exceptions into concrete operating days.

pub mod date;
pub mod decode;
pub mod error;
pub mod fields;
pub mod laws;
pub mod map;
pub mod sort;
pub mod store;
pub mod table;
pub mod text;
pub mod types;
