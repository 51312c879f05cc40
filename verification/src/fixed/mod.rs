//! What does not move: countries, airports, runways and regions of airspace.

pub mod boundaries;
pub mod data;
pub mod errors;
pub mod geonames;
pub mod ourairports;
pub mod parser;
pub mod types;
