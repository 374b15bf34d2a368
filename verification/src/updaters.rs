//! The sources, one module for each city.
pub mod ist;
pub mod izm;
