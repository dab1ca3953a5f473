use crate::grid::{
    BuildingInstance, BuildingSpec, InstanceId, PlacementError, Rotation, TileGrid, TilePos,
};
use vstd::prelude::*;

verus! {

/// A read-only copy of a grid for drawing: its size and its instances.
pub struct TileGridSnapshot {
    pub width: usize,
    pub height: usize,
    pub instances: Vec<BuildingInstance>,
}

/// Places a building on `grid`, exactly as `TileGrid::place` does.
pub fn try_place_building(
    grid: &mut TileGrid,
    spec: &BuildingSpec,
    origin: TilePos,
    rot: Rotation,
) -> (r: Result<InstanceId, PlacementError>)
    requires
        old(grid).wf(),
        old(grid).spec_next_id() < u64::MAX,
    ensures
        final(grid).wf(),
        r == old(grid).place_result(*spec, origin, rot),
        r is Ok ==> old(grid).place_effect(final(grid), *spec, origin, rot),
        r is Err ==> *final(grid) == *old(grid),
{
    grid.place(spec, origin, rot)
}

/// Copies the grid's size and its placed instances, each once.
pub fn grid_snapshot(grid: &TileGrid) -> (s: TileGridSnapshot)
    ensures
        s.width == grid.grid_width(),
        s.height == grid.grid_height(),
        s.instances@.to_set() == grid.instance_map().values(),
        s.instances@.len() == grid.instance_map().len(),
{
    TileGridSnapshot { width: grid.width(), height: grid.height(), instances: grid.instances() }
}

} // verus!
