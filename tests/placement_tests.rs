use game_core::{
    grid_snapshot, try_place_building, BuildingSpec, PlacementError, Rotation, Size2, TileGrid,
    TilePos,
};

fn spec(spec_id: u32, w: u32, h: u32) -> BuildingSpec {
    BuildingSpec {
        spec_id,
        size: Size2 { w, h },
    }
}

#[test]
fn new_grid_is_empty() {
    let g = TileGrid::new(4, 3);
    assert_eq!(g.width(), 4);
    assert_eq!(g.height(), 3);
    assert_eq!(g.next_id(), 1);
    assert!(g.instances().is_empty());
    for y in -1..4 {
        for x in -1..5 {
            assert_eq!(g.tile_occupant(TilePos { x, y }), None);
        }
    }
}

#[test]
fn ids_increase_and_are_not_reused() {
    let mut g = TileGrid::new(10, 10);
    let s = spec(1, 1, 1);
    let a = g.place(&s, TilePos { x: 0, y: 0 }, Rotation::R0).unwrap();
    let b = g.place(&s, TilePos { x: 1, y: 0 }, Rotation::R0).unwrap();
    assert_eq!(a, 1);
    assert_eq!(b, 2);
    g.remove(b).unwrap();
    let c = g.place(&s, TilePos { x: 1, y: 0 }, Rotation::R0).unwrap();
    assert_eq!(c, 3);
    assert_eq!(g.next_id(), 4);
}

#[test]
fn placed_id_occupies_exactly_its_footprint() {
    let mut g = TileGrid::new(6, 6);
    let s = spec(2, 3, 2);
    let id = g.place(&s, TilePos { x: 1, y: 2 }, Rotation::R90).unwrap();
    // a quarter turn: 2 wide, 3 tall
    for y in -1..7 {
        for x in -1..7 {
            let inside = (1..3).contains(&x) && (2..5).contains(&y);
            let want = if inside { Some(id) } else { None };
            assert_eq!(g.tile_occupant(TilePos { x, y }), want, "tile ({x},{y})");
        }
    }
}

#[test]
fn overlap_fails_occupied_and_changes_nothing() {
    let mut g = TileGrid::new(10, 10);
    let s = spec(3, 3, 3);
    let id = g.place(&s, TilePos { x: 5, y: 5 }, Rotation::R0).unwrap();
    let r = g.place(&spec(1, 1, 1), TilePos { x: 7, y: 7 }, Rotation::R0);
    assert_eq!(r, Err(PlacementError::Occupied));
    assert_eq!(g.next_id(), 2);
    assert_eq!(g.instances().len(), 1);
    assert_eq!(g.tile_occupant(TilePos { x: 7, y: 7 }), Some(id));
    let after = g.place(&s, TilePos { x: 6, y: 6 }, Rotation::R0);
    assert_eq!(after, Err(PlacementError::Occupied));
    g.remove(id).unwrap();
    assert_eq!(g.place(&s, TilePos { x: 6, y: 6 }, Rotation::R0), Ok(2));
}

#[test]
fn out_of_bounds_fails_even_with_free_tiles() {
    let mut g = TileGrid::new(5, 5);
    let s = spec(1, 2, 2);
    assert_eq!(
        g.place(&s, TilePos { x: 4, y: 0 }, Rotation::R0),
        Err(PlacementError::OutOfBounds)
    );
    assert_eq!(
        g.place(&s, TilePos { x: -1, y: 0 }, Rotation::R0),
        Err(PlacementError::OutOfBounds)
    );
    assert_eq!(
        g.place(&s, TilePos { x: 0, y: 4 }, Rotation::R0),
        Err(PlacementError::OutOfBounds)
    );
    assert_eq!(g.next_id(), 1);
    assert!(g.instances().is_empty());
}

#[test]
fn out_of_bounds_takes_precedence_over_occupied() {
    let mut g = TileGrid::new(5, 5);
    g.place(&spec(1, 1, 1), TilePos { x: 3, y: 3 }, Rotation::R0)
        .unwrap();
    // covers the occupied (3,3) and also runs past the bottom edge
    let r = g.place(&spec(2, 2, 3), TilePos { x: 3, y: 3 }, Rotation::R0);
    assert_eq!(r, Err(PlacementError::OutOfBounds));
}

#[test]
fn zero_sized_grid_rejects_placement() {
    let mut g = TileGrid::new(0, 0);
    assert_eq!(
        g.place(&spec(1, 1, 1), TilePos { x: 0, y: 0 }, Rotation::R0),
        Err(PlacementError::OutOfBounds)
    );
    assert_eq!(g.tile_occupant(TilePos { x: 0, y: 0 }), None);
}

#[test]
fn largest_footprint_fills_grid() {
    let mut g = TileGrid::new(4, 3);
    let s = spec(9, 3, 4);
    assert!(!g.can_place(&s, TilePos { x: 0, y: 0 }, Rotation::R0));
    let id = g.place(&s, TilePos { x: 0, y: 0 }, Rotation::R270).unwrap();
    assert_eq!(g.tile_occupant(TilePos { x: 3, y: 2 }), Some(id));
    assert_eq!(g.tile_occupant(TilePos { x: 0, y: 0 }), Some(id));
    assert!(!g.can_place(&spec(1, 1, 1), TilePos { x: 2, y: 1 }, Rotation::R0));
}

#[test]
fn huge_footprint_is_out_of_bounds() {
    let g = TileGrid::new(5, 5);
    let s = spec(1, u32::MAX, u32::MAX);
    assert!(!g.can_place(&s, TilePos { x: i32::MAX, y: i32::MAX }, Rotation::R90));
    assert!(!g.can_place(&s, TilePos { x: i32::MIN, y: 0 }, Rotation::R0));
}

#[test]
fn remove_clears_footprint_and_returns_instance() {
    let mut g = TileGrid::new(8, 8);
    let s = spec(2, 2, 3);
    let keep = g.place(&spec(1, 1, 1), TilePos { x: 0, y: 0 }, Rotation::R0).unwrap();
    let id = g.place(&s, TilePos { x: 2, y: 1 }, Rotation::R180).unwrap();
    let inst = g.remove(id).unwrap();
    assert_eq!(inst.id, id);
    assert_eq!(inst.spec_id, 2);
    assert_eq!(inst.size, Size2 { w: 2, h: 3 });
    assert_eq!(inst.origin, TilePos { x: 2, y: 1 });
    assert_eq!(inst.rotation, Rotation::R180);
    for y in 1..4 {
        for x in 2..4 {
            assert_eq!(g.tile_occupant(TilePos { x, y }), None);
        }
    }
    assert_eq!(g.tile_occupant(TilePos { x: 0, y: 0 }), Some(keep));
    assert!(g.can_place(&s, TilePos { x: 2, y: 1 }, Rotation::R180));
    assert_eq!(g.instances().len(), 1);
}

#[test]
fn remove_unknown_id_changes_nothing() {
    let mut g = TileGrid::new(4, 4);
    let id = g.place(&spec(1, 2, 2), TilePos { x: 1, y: 1 }, Rotation::R0).unwrap();
    assert!(g.remove(id + 1).is_none());
    assert!(g.remove(0).is_none());
    assert_eq!(g.tile_occupant(TilePos { x: 2, y: 2 }), Some(id));
    assert_eq!(g.instances().len(), 1);
    assert_eq!(g.next_id(), 2);
    assert!(g.remove(id).is_some());
    assert!(g.remove(id).is_none());
}

#[test]
fn quarter_turns_swap_extent() {
    let g = TileGrid::new(5, 5);
    let s = spec(3, 3, 2);
    let o = TilePos { x: 0, y: 3 };
    // 3 wide by 2 tall fits at y = 3; 2 wide by 3 tall does not
    assert!(g.can_place(&s, o, Rotation::R0));
    assert!(g.can_place(&s, o, Rotation::R180));
    assert!(!g.can_place(&s, o, Rotation::R90));
    assert!(!g.can_place(&s, o, Rotation::R270));
}

#[test]
fn empty_footprint_is_accepted() {
    let mut g = TileGrid::new(3, 3);
    let s = spec(5, 0, 2);
    assert!(g.can_place(&s, TilePos { x: -4, y: 9 }, Rotation::R0));
    let id = g.place(&s, TilePos { x: -4, y: 9 }, Rotation::R0).unwrap();
    assert_eq!(id, 1);
    for y in 0..3 {
        for x in 0..3 {
            assert_eq!(g.tile_occupant(TilePos { x, y }), None);
        }
    }
    assert!(g.remove(id).is_some());
}

#[test]
fn try_place_building_forwards_to_place() {
    let mut g = TileGrid::new(10, 10);
    let s = spec(1, 1, 1);
    assert_eq!(try_place_building(&mut g, &s, TilePos { x: 2, y: 3 }, Rotation::R0), Ok(1));
    assert_eq!(
        try_place_building(&mut g, &s, TilePos { x: 2, y: 3 }, Rotation::R0),
        Err(PlacementError::Occupied)
    );
    assert_eq!(
        try_place_building(&mut g, &s, TilePos { x: 10, y: 3 }, Rotation::R0),
        Err(PlacementError::OutOfBounds)
    );
}

#[test]
fn snapshot_copies_size_and_instances() {
    let mut g = TileGrid::new(7, 9);
    let a = g.place(&spec(1, 1, 1), TilePos { x: 0, y: 0 }, Rotation::R0).unwrap();
    let b = g.place(&spec(2, 2, 2), TilePos { x: 3, y: 3 }, Rotation::R90).unwrap();
    let c = g.place(&spec(3, 1, 1), TilePos { x: 6, y: 8 }, Rotation::R0).unwrap();
    g.remove(b).unwrap();
    let snap = grid_snapshot(&g);
    assert_eq!(snap.width, 7);
    assert_eq!(snap.height, 9);
    let mut ids: Vec<u64> = snap.instances.iter().map(|i| i.id).collect();
    ids.sort();
    assert_eq!(ids, vec![a, c]);
    let ci = snap.instances.iter().find(|i| i.id == c).unwrap();
    assert_eq!(ci.origin, TilePos { x: 6, y: 8 });
    assert_eq!(ci.spec_id, 3);
}

#[test]
fn single_tile_scenario_replaces_after_removal() {
    let mut g = TileGrid::new(10, 10);
    let s = spec(1, 1, 1);
    let origin = TilePos { x: 2, y: 3 };
    let id = g.place(&s, origin, Rotation::R0).unwrap();
    assert_eq!(g.tile_occupant(origin), Some(id));
    g.remove(id).unwrap();
    let again = g.place(&s, origin, Rotation::R0).unwrap();
    assert_eq!(g.tile_occupant(origin), Some(again));
    assert!(again > id);
}
