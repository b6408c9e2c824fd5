//! Data acquisition, caching and selection logic for a live flight map.

pub mod caching;
pub mod parsing;
pub mod selection;
pub mod simulation;
pub mod sources;
pub mod text;
pub mod view;
