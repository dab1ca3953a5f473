//! Tile-grid placement for a factory-building game: a fixed-size grid onto
//! which rotated rectangular building footprints are placed and removed.
pub mod entity;
pub mod grid;
pub mod laws;
pub mod placement;

pub use entity::EntityType;
pub use grid::{
    rotated_size, BuildingInstance, BuildingSpec, InstanceId, PlacementError, Rotation, Size2, TileGrid,
    TilePos,
};
pub use placement::{grid_snapshot, try_place_building, TileGridSnapshot};
