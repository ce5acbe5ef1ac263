//! The gazetteer: places read from dataset rows, and an index that finds
//! them by name, ranked by population.

pub mod index;
pub mod location;
pub mod rank;

pub use index::Geo;
pub use location::{Coordinate, DatasetRow, Location};
