//! Acquisition, validation and derivation of tracing parameters for a
//! raster-to-vector converter.

pub mod numeral;
pub mod params;
pub mod config;
