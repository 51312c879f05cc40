//! What moves: pilots and controllers, as the live feed reports them.

pub mod aircraft;
pub mod controller;
pub mod data;
pub mod exttypes;
pub mod pilot;
