//! Real-time plane of a flight-simulation network watcher: geometry, a filter
//! language, track logs, reference data, weather caching and viewer deltas.

pub mod atis;
pub mod config;
pub mod fixed;
pub mod lee;
pub mod manager;
pub mod moving;
pub mod re;
pub mod service;
pub mod table;
pub mod tables;
pub mod text;
pub mod timefmt;
pub mod tmf;
pub mod track;
pub mod trackfile;
pub mod types;
pub mod util;
pub mod weather;
