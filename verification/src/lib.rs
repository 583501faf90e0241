//! A seismic-bulletin alert pipeline.
//!
//! The library parses a line-oriented earthquake bulletin into typed
//! records, deduplicates a freshly fetched sequence against a single
//! last-seen checkpoint, and decides which new events satisfy a
//! two-zone, distance-weighted magnitude rule.
//!
//! All quantities with a fractional part (degrees of latitude and
//! longitude, kilometres of depth and distance, magnitudes) are held in
//! fixed-point form: a signed integer counting millionths of a unit
//! ("micros").  Contracts over these integers are exact; the one
//! computation that needs transcendental arithmetic, the great-circle
//! distance between two coordinates, is taken as an input by the
//! functions that depend on it.

pub mod alert;
pub mod config;
pub mod numeric;
pub mod pipeline;
pub mod process;
pub mod text;
pub mod util;
