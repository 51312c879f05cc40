//! What the recorded broadcast of an airport says.

pub mod runways;
