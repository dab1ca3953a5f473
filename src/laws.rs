//! Properties of placement and removal, proved from the operations' contracts.
use crate::grid::{
    covers, effective_size, lemma_footprint_is_occupied, lemma_occupant_is_placed,
    BuildingInstance, BuildingSpec, InstanceId, PlacementError, Rotation, Size2, TileGrid,
    TilePos,
};
use vstd::prelude::*;

verus! {

/// A footprint that lies on the grid and overlaps nothing can be placed, and
/// placing it issues an id above every id issued before.
pub proof fn lemma_free_footprint_is_placed(
    g: &TileGrid,
    g1: &TileGrid,
    spec: BuildingSpec,
    origin: TilePos,
    rot: Rotation,
)
    requires
        g.wf(),
        g.fits(spec.size, origin, rot),
        g.vacant(spec.size, origin, rot),
        g.place_effect(g1, spec, origin, rot),
    ensures
        g.place_result(spec, origin, rot) == Ok::<InstanceId, PlacementError>(
            g.spec_next_id() as InstanceId,
        ),
        forall|k: InstanceId| #[trigger] g.instance_map().contains_key(k) ==> k < g.spec_next_id(),
        g1.spec_next_id() > g.spec_next_id(),
{
    assert forall|k: InstanceId| #[trigger] g.instance_map().contains_key(k) implies k
        < g.spec_next_id() by {
        crate::grid::lemma_placed_ids(g, k);
    }
}

/// After a placement, the new id occupies exactly the tiles of its footprint.
pub proof fn lemma_placed_footprint_exact(
    g: &TileGrid,
    g1: &TileGrid,
    spec: BuildingSpec,
    origin: TilePos,
    rot: Rotation,
    x: int,
    y: int,
)
    requires
        g.wf(),
        g.place_result(spec, origin, rot) is Ok,
        g.place_effect(g1, spec, origin, rot),
    ensures
        g1.cell(x, y) == Some(g.spec_next_id() as InstanceId) <==> covers(
            spec.size,
            origin,
            rot,
            x,
            y,
        ),
{
    if !covers(spec.size, origin, rot, x, y) && g.cell(x, y) is Some {
        lemma_occupant_is_placed(g, x, y);
    }
}

/// A footprint that lies on the grid but shares a tile with a placed
/// instance is refused as occupied.
pub proof fn lemma_overlap_is_occupied(
    g: &TileGrid,
    k: InstanceId,
    spec: BuildingSpec,
    origin: TilePos,
    rot: Rotation,
    x: int,
    y: int,
)
    requires
        g.wf(),
        g.instance_map().contains_key(k),
        g.instance_map()[k].covers_tile(x, y),
        covers(spec.size, origin, rot, x, y),
        g.fits(spec.size, origin, rot),
    ensures
        g.place_result(spec, origin, rot) == Err::<InstanceId, PlacementError>(
            PlacementError::Occupied,
        ),
{
    lemma_footprint_is_occupied(g, k, x, y);
}

/// A footprint with any tile off the grid is refused as out of bounds,
/// whatever the other tiles hold.
pub proof fn lemma_off_grid_is_out_of_bounds(
    g: &TileGrid,
    spec: BuildingSpec,
    origin: TilePos,
    rot: Rotation,
    x: int,
    y: int,
)
    requires
        covers(spec.size, origin, rot, x, y),
        !g.in_grid(x, y),
    ensures
        g.place_result(spec, origin, rot) == Err::<InstanceId, PlacementError>(
            PlacementError::OutOfBounds,
        ),
{
}

/// Removing a placed instance empties exactly its footprint, which can then
/// be placed again.
pub proof fn lemma_removal_frees_footprint(g: &TileGrid, g1: &TileGrid, inst: BuildingInstance)
    requires
        g.wf(),
        g.instance_map().contains_key(inst.id),
        g.instance_map()[inst.id] == inst,
        g.remove_effect(g1, inst),
    ensures
        forall|x: int, y: int| #[trigger]
            g1.cell(x, y) == if inst.covers_tile(x, y) {
                None
            } else {
                g.cell(x, y)
            },
        g1.fits(inst.size, inst.origin, inst.rotation),
        g1.vacant(inst.size, inst.origin, inst.rotation),
{
    assert forall|x: int, y: int|
        #[trigger] covers(inst.size, inst.origin, inst.rotation, x, y) implies g1.in_grid(x, y) by {
        lemma_footprint_is_occupied(g, inst.id, x, y);
    }
}

/// A quarter turn places the footprint with width and height swapped.
pub proof fn lemma_quarter_turn_swaps(g: &TileGrid, spec: BuildingSpec, origin: TilePos)
    ensures
        g.place_result(spec, origin, Rotation::R90) == g.place_result(
            BuildingSpec { spec_id: spec.spec_id, size: Size2 { w: spec.size.h, h: spec.size.w } },
            origin,
            Rotation::R0,
        ),
        g.place_result(spec, origin, Rotation::R270) == g.place_result(
            BuildingSpec { spec_id: spec.spec_id, size: Size2 { w: spec.size.h, h: spec.size.w } },
            origin,
            Rotation::R0,
        ),
        g.place_result(spec, origin, Rotation::R180) == g.place_result(spec, origin, Rotation::R0),
{
    let swapped = Size2 { w: spec.size.h, h: spec.size.w };
    lemma_same_extent(g, spec.size, origin, Rotation::R90, swapped, Rotation::R0);
    lemma_same_extent(g, spec.size, origin, Rotation::R270, swapped, Rotation::R0);
    lemma_same_extent(g, spec.size, origin, Rotation::R180, spec.size, Rotation::R0);
}

/// Two footprints of the same effective size at one origin fit, and are
/// vacant, alike.
proof fn lemma_same_extent(
    g: &TileGrid,
    a: Size2,
    origin: TilePos,
    ra: Rotation,
    b: Size2,
    rb: Rotation,
)
    requires
        effective_size(a, ra) == effective_size(b, rb),
    ensures
        g.fits(a, origin, ra) == g.fits(b, origin, rb),
        g.vacant(a, origin, ra) == g.vacant(b, origin, rb),
{
    assert forall|x: int, y: int| covers(a, origin, ra, x, y) == #[trigger] covers(b, origin, rb, x, y) by {}
    if g.fits(a, origin, ra) {
        assert forall|x: int, y: int| #[trigger] covers(b, origin, rb, x, y) implies g.in_grid(x, y) by {
            assert(covers(a, origin, ra, x, y));
        }
    }
    if g.fits(b, origin, rb) {
        assert forall|x: int, y: int| #[trigger] covers(a, origin, ra, x, y) implies g.in_grid(x, y) by {
            assert(covers(b, origin, rb, x, y));
        }
    }
}

} // verus!
