//! Typed GeoJSON features, decoded from and encoded to JSON objects.
pub mod error;
pub mod feature;
pub mod json;
pub mod round_trip;
