//! Core of an interactive world map: projection of geographic coordinates
//! onto a target rectangle, polygon hit-testing and area computation, the
//! feature model built from map data, and the highlight/selection state
//! machine over a collection of regions.
//!
//! Coordinates are carried as fixed-point integers: geographic positions in
//! microdegrees, projected positions in microunits of the target rectangle.
//! Areas are carried doubled (`2 * area`), which keeps the shoelace sum an
//! integer.

pub mod config;
pub mod errors;
pub mod geo_drawable;
pub mod math;
pub mod nation;
pub mod player;
pub mod province;
pub mod world_map;
