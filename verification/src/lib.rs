//! The data kernel of a daily planner: named, time-blocked activities on a
//! 24-hour timeline, with a cached "happening now" flag per activity that a
//! periodic refresh recomputes against the wall clock, and persistence of
//! the whole collection as a single JSON document.
//!
//! [`structs`] holds the two value types — a time of day and an activity —
//! with the containment predicate behind the "is now" flag.  [`store`] holds
//! the in-memory collection with its create/update/delete operations and the
//! ten-second refresh policy.  [`codec`] writes and reads the persisted
//! document, and proves that a saved collection loads back unchanged.
pub mod codec;
pub mod store;
pub mod structs;
