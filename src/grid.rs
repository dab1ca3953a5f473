use std::collections::HashMap;
use vstd::prelude::*;
use vstd::std_specs::iter::IteratorSpec;

verus! {

broadcast use vstd::std_specs::hash::group_hash_axioms;

/// Integer tile coordinate, origin top-left; may be negative (off-grid).
#[derive(Clone, Copy, Debug, PartialEq, Eq, Hash, Structural)]
pub struct TilePos {
    pub x: i32,
    pub y: i32,
}

/// Unrotated footprint size in tiles.
#[derive(Clone, Copy, Debug, PartialEq, Eq, Structural)]
pub struct Size2 {
    pub w: u32,
    pub h: u32,
}

#[derive(Clone, Copy, Debug, PartialEq, Eq, Structural)]
pub enum Rotation {
    R0,
    R90,
    R180,
    R270,
}

pub type InstanceId = u64;

/// Template of a building kind: its id and unrotated size.
#[derive(Clone, Copy, Debug, PartialEq, Eq, Structural)]
pub struct BuildingSpec {
    pub spec_id: u32,
    pub size: Size2,
}

/// A building placed on a grid. It keeps the unrotated size of the spec it
/// was placed from, so that its footprint can be recomputed on removal.
#[derive(Clone, Copy, Debug, PartialEq, Eq, Structural)]
pub struct BuildingInstance {
    pub id: InstanceId,
    pub spec_id: u32,
    pub size: Size2,
    pub origin: TilePos,
    pub rotation: Rotation,
}

#[derive(Clone, Copy, Debug, PartialEq, Eq, Structural)]
pub enum PlacementError {
    OutOfBounds,
    Occupied,
}

/// The size a footprint takes on the grid: width and height swap under a
/// quarter turn.
pub open spec fn effective_size(size: Size2, rot: Rotation) -> Size2 {
    match rot {
        Rotation::R0 | Rotation::R180 => size,
        Rotation::R90 | Rotation::R270 => Size2 { w: size.h, h: size.w },
    }
}

/// Whether tile `(x, y)` lies in the footprint of `size` at `origin` under `rot`.
pub open spec fn covers(size: Size2, origin: TilePos, rot: Rotation, x: int, y: int) -> bool {
    let r = effective_size(size, rot);
    origin.x <= x < origin.x + r.w && origin.y <= y < origin.y + r.h
}

impl BuildingInstance {
    pub open spec fn covers_tile(&self, x: int, y: int) -> bool {
        covers(self.size, self.origin, self.rotation, x, y)
    }
}

/// The size a footprint takes on the grid under `rot`.
pub fn rotated_size(size: Size2, rot: Rotation) -> (r: Size2)
    ensures
        r == effective_size(size, rot),
{
    match rot {
        Rotation::R0 | Rotation::R180 => size,
        Rotation::R90 | Rotation::R270 => Size2 { w: size.h, h: size.w },
    }
}

/// A fixed-size grid of tiles onto which building footprints are placed.
/// Tiles are stored row-major, `y * width + x`.
pub struct TileGrid {
    width: usize,
    height: usize,
    tiles: Vec<Option<InstanceId>>,
    instances: HashMap<InstanceId, BuildingInstance>,
    next_id: InstanceId,
}

proof fn lemma_index_in_range(w: int, h: int, x: int, y: int)
    requires
        0 <= x < w,
        0 <= y < h,
    ensures
        0 <= y * w + x < w * h,
{
    assert(0 <= y * w) by (nonlinear_arith)
        requires
            0 <= y,
            0 <= w,
    ;
    assert(y * w + x < w * h) by (nonlinear_arith)
        requires
            0 <= x < w,
            0 <= y < h,
    ;
}

proof fn lemma_index_injective(w: int, x1: int, y1: int, x2: int, y2: int)
    requires
        0 <= x1 < w,
        0 <= x2 < w,
        0 <= y1,
        0 <= y2,
        y1 * w + x1 == y2 * w + x2,
    ensures
        x1 == x2,
        y1 == y2,
{
    if y1 < y2 {
        assert(y1 * w + w <= y2 * w) by (nonlinear_arith)
            requires
                y1 < y2,
                0 <= w,
        ;
    } else if y2 < y1 {
        assert(y2 * w + w <= y1 * w) by (nonlinear_arith)
            requires
                y2 < y1,
                0 <= w,
        ;
    }
}

impl TileGrid {
    pub closed spec fn grid_width(&self) -> nat {
        self.width as nat
    }

    pub closed spec fn grid_height(&self) -> nat {
        self.height as nat
    }

    /// The id that the next successful placement issues.
    pub closed spec fn spec_next_id(&self) -> nat {
        self.next_id as nat
    }

    /// The placed instances, by id.
    pub closed spec fn instance_map(&self) -> Map<InstanceId, BuildingInstance> {
        self.instances@
    }

    pub open spec fn in_grid(&self, x: int, y: int) -> bool {
        0 <= x < self.grid_width() && 0 <= y < self.grid_height()
    }

    /// The occupant of tile `(x, y)`; `None` off the grid.
    pub closed spec fn cell(&self, x: int, y: int) -> Option<InstanceId> {
        if self.in_grid(x, y) {
            self.tiles@[y * self.width + x]
        } else {
            None
        }
    }

    /// The tile vector has one slot per tile of the grid.
    closed spec fn dims_ok(&self) -> bool {
        &&& self.width * self.height <= usize::MAX
        &&& self.tiles@.len() == self.width * self.height
    }

    /// Well-formedness: tile occupancy and the instance records agree.
    pub closed spec fn wf(&self) -> bool {
        &&& self.dims_ok()
        &&& 1 <= self.next_id
        &&& forall|k: InstanceId| #[trigger]
            self.instances@.contains_key(k) ==> {
                &&& self.instances@[k].id == k
                &&& 1 <= k < self.next_id
            }
        &&& forall|k: InstanceId, x: int, y: int|
            self.instances@.contains_key(k) && #[trigger] self.instances@[k].covers_tile(x, y)
                ==> self.in_grid(x, y) && self.cell(x, y) == Some(k)
        &&& forall|x: int, y: int| #[trigger]
            self.cell(x, y) is Some ==> {
                let k = self.cell(x, y)->Some_0;
                &&& self.instances@.contains_key(k)
                &&& self.instances@[k].covers_tile(x, y)
            }
    }

    /// An empty grid of `width` by `height` tiles; ids start at 1.
    /// Every tile of the footprint lies on the grid.
    pub open spec fn fits(&self, size: Size2, origin: TilePos, rot: Rotation) -> bool {
        forall|x: int, y: int| #[trigger] covers(size, origin, rot, x, y) ==> self.in_grid(x, y)
    }

    /// No tile of the footprint is occupied.
    pub open spec fn vacant(&self, size: Size2, origin: TilePos, rot: Rotation) -> bool {
        forall|x: int, y: int| covers(size, origin, rot, x, y) ==> #[trigger] self.cell(x, y) is None
    }

    /// What placing `spec` at `origin` under `rot` returns: out of bounds
    /// before occupied, and otherwise the next id.
    pub open spec fn place_result(&self, spec: BuildingSpec, origin: TilePos, rot: Rotation) -> Result<
        InstanceId,
        PlacementError,
    > {
        if !self.fits(spec.size, origin, rot) {
            Err(PlacementError::OutOfBounds)
        } else if !self.vacant(spec.size, origin, rot) {
            Err(PlacementError::Occupied)
        } else {
            Ok(self.spec_next_id() as InstanceId)
        }
    }

    /// `new` is this grid after `spec` was placed at `origin` under `rot`
    /// with the next id.
    pub open spec fn place_effect(
        &self,
        new: &TileGrid,
        spec: BuildingSpec,
        origin: TilePos,
        rot: Rotation,
    ) -> bool {
        let id = self.spec_next_id() as InstanceId;
        &&& new.grid_width() == self.grid_width()
        &&& new.grid_height() == self.grid_height()
        &&& new.spec_next_id() == self.spec_next_id() + 1
        &&& new.instance_map() == self.instance_map().insert(
            id,
            BuildingInstance { id, spec_id: spec.spec_id, size: spec.size, origin, rotation: rot },
        )
        &&& forall|x: int, y: int| #[trigger]
            new.cell(x, y) == if covers(spec.size, origin, rot, x, y) {
                Some(id)
            } else {
                self.cell(x, y)
            }
    }

    /// `new` is this grid after `inst` was removed: its record is gone and
    /// its footprint is empty.
    pub open spec fn remove_effect(&self, new: &TileGrid, inst: BuildingInstance) -> bool {
        &&& new.grid_width() == self.grid_width()
        &&& new.grid_height() == self.grid_height()
        &&& new.spec_next_id() == self.spec_next_id()
        &&& new.instance_map() == self.instance_map().remove(inst.id)
        &&& forall|x: int, y: int| #[trigger]
            new.cell(x, y) == if inst.covers_tile(x, y) {
                None
            } else {
                self.cell(x, y)
            }
    }

    pub fn new(width: usize, height: usize) -> (g: TileGrid)
        requires
            width * height <= usize::MAX,
        ensures
            g.wf(),
            g.grid_width() == width,
            g.grid_height() == height,
            g.spec_next_id() == 1,
            g.instance_map().is_empty(),
            forall|x: int, y: int| #[trigger] g.cell(x, y) is None,
    {
        let n: usize = width * height;
        let mut tiles: Vec<Option<InstanceId>> = Vec::with_capacity(n);
        let mut i: usize = 0;
        while i < n
            invariant
                i <= n,
                tiles@.len() == i,
                forall|j: int| 0 <= j < i ==> #[trigger] tiles@[j] is None,
            decreases n - i,
        {
            tiles.push(None);
            i = i + 1;
        }
        let g = TileGrid { width, height, tiles, instances: HashMap::new(), next_id: 1 };
        assert forall|x: int, y: int| #[trigger] g.cell(x, y) is None by {
            if g.in_grid(x, y) {
                lemma_index_in_range(width as int, height as int, x, y);
            }
        }
        g
    }

    pub fn width(&self) -> (r: usize)
        ensures
            r == self.grid_width(),
    {
        self.width
    }

    pub fn height(&self) -> (r: usize)
        ensures
            r == self.grid_height(),
    {
        self.height
    }

    pub fn next_id(&self) -> (r: InstanceId)
        ensures
            r == self.spec_next_id(),
    {
        self.next_id
    }

    /// The placed instances, each once, in the order the map yields them.
    pub fn instances(&self) -> (r: Vec<BuildingInstance>)
        ensures
            r@.to_set() == self.instance_map().values(),
            r@.len() == self.instance_map().len(),
    {
        let ghost items = vstd::std_specs::hash::spec_values_iter(&self.instances).remaining();
        proof {
            vstd::std_specs::hash::axiom_spec_values_iter(&self.instances);
        }
        let mut v: Vec<BuildingInstance> = Vec::new();
        for inst in it: self.instances.values()
            invariant
                it.seq() == items,
                v@.len() == it.index(),
                forall|i: int| 0 <= i < it.index() ==> v@[i] == *items[i],
        {
            v.push(*inst);
        }
        assert(v@ =~= items.unref());
        v
    }

    /// Row-major index of an in-grid tile.
    fn index_of(&self, x: usize, y: usize) -> (r: usize)
        requires
            self.dims_ok(),
            x < self.grid_width(),
            y < self.grid_height(),
        ensures
            r == y * self.grid_width() + x,
            r < self.tiles@.len(),
    {
        proof {
            lemma_index_in_range(self.width as int, self.height as int, x as int, y as int);
        }
        y * self.width + x
    }

    fn tile_index(&self, pos: TilePos) -> (r: Option<usize>)
        requires
            self.wf(),
        ensures
            match r {
                Some(i) => self.in_grid(pos.x as int, pos.y as int) && i == pos.y * self.grid_width()
                    + pos.x && i < self.tiles@.len(),
                None => !self.in_grid(pos.x as int, pos.y as int),
            },
    {
        if pos.x < 0 || pos.y < 0 {
            return None;
        }
        let x = pos.x as usize;
        let y = pos.y as usize;
        if x >= self.width || y >= self.height {
            return None;
        }
        Some(self.index_of(x, y))
    }

    /// The occupant of `pos`, or `None` when `pos` is off the grid or empty.
    pub fn tile_occupant(&self, pos: TilePos) -> (r: Option<InstanceId>)
        requires
            self.wf(),
        ensures
            r == self.cell(pos.x as int, pos.y as int),
    {
        match self.tile_index(pos) {
            Some(i) => self.tiles[i],
            None => None,
        }
    }

    /// Whether the footprint lies on the grid, decided from its corners.
    fn footprint_fits(&self, size: Size2, origin: TilePos, rot: Rotation) -> (r: bool)
        ensures
            r == self.fits(size, origin, rot),
    {
        let e = rotated_size(size, rot);
        if e.w == 0 || e.h == 0 {
            return true;
        }
        let r = origin.x >= 0 && origin.y >= 0 && origin.x as u64 + e.w as u64 <= self.width as u64
            && origin.y as u64 + e.h as u64 <= self.height as u64;
        proof {
            if !r {
                let lx = origin.x as int;
                let ly = origin.y as int;
                if origin.x < 0 || origin.y < 0 {
                    assert(covers(size, origin, rot, lx, ly));
                } else if origin.x + e.w > self.width {
                    assert(covers(size, origin, rot, lx + e.w - 1, ly));
                } else {
                    assert(covers(size, origin, rot, lx, ly + e.h - 1));
                }
            }
        }
        r
    }

    /// Whether every tile of a footprint that fits is empty, walked row by row.
    fn footprint_vacant(&self, size: Size2, origin: TilePos, rot: Rotation) -> (r: bool)
        requires
            self.wf(),
            self.fits(size, origin, rot),
        ensures
            r == self.vacant(size, origin, rot),
    {
        let e = rotated_size(size, rot);
        if e.w == 0 || e.h == 0 {
            return true;
        }
        proof {
            assert(covers(size, origin, rot, origin.x as int, origin.y as int));
            assert(covers(size, origin, rot, origin.x + e.w - 1, origin.y + e.h - 1));
        }
        let ox = origin.x as usize;
        let oy = origin.y as usize;
        let ew = e.w as usize;
        let eh = e.h as usize;
        let mut dy: usize = 0;
        while dy < eh
            invariant
                self.wf(),
                e == effective_size(size, rot),
                ox == origin.x,
                oy == origin.y,
                ew == e.w,
                eh == e.h,
                ox + ew <= self.grid_width(),
                oy + eh <= self.grid_height(),
                dy <= eh,
                forall|x: int, y: int|
                    covers(size, origin, rot, x, y) && y < oy + dy ==> #[trigger] self.cell(x, y)
                        is None,
            decreases eh - dy,
        {
            let mut dx: usize = 0;
            while dx < ew
                invariant
                    self.wf(),
                    e == effective_size(size, rot),
                    ox == origin.x,
                    oy == origin.y,
                    ew == e.w,
                    eh == e.h,
                    ox + ew <= self.grid_width(),
                    oy + eh <= self.grid_height(),
                    dy < eh,
                    dx <= ew,
                    forall|x: int, y: int|
                        covers(size, origin, rot, x, y) && (y < oy + dy || (y == oy + dy && x < ox
                            + dx)) ==> #[trigger] self.cell(x, y) is None,
                decreases ew - dx,
            {
                let i = self.index_of(ox + dx, oy + dy);
                if self.tiles[i].is_some() {
                    proof {
                        assert(covers(size, origin, rot, (ox + dx) as int, (oy + dy) as int));
                        assert(self.cell((ox + dx) as int, (oy + dy) as int) is Some);
                    }
                    return false;
                }
                dx = dx + 1;
            }
            dy = dy + 1;
        }
        true
    }

    /// True iff every tile of the footprint is on the grid and empty.
    pub fn can_place(&self, spec: &BuildingSpec, origin: TilePos, rot: Rotation) -> (r: bool)
        requires
            self.wf(),
        ensures
            r == (self.fits(spec.size, origin, rot) && self.vacant(spec.size, origin, rot)),
    {
        self.footprint_fits(spec.size, origin, rot) && self.footprint_vacant(spec.size, origin, rot)
    }

    /// Writes `value` into tile `(x, y)`, leaving every other tile as it was.
    fn set_tile(&mut self, x: usize, y: usize, value: Option<InstanceId>)
        requires
            old(self).dims_ok(),
            x < old(self).grid_width(),
            y < old(self).grid_height(),
        ensures
            final(self).dims_ok(),
            final(self).width == old(self).width,
            final(self).height == old(self).height,
            final(self).instances == old(self).instances,
            final(self).next_id == old(self).next_id,
            forall|a: int, b: int| #[trigger]
                final(self).cell(a, b) == if a == x && b == y {
                    value
                } else {
                    old(self).cell(a, b)
                },
    {
        let i = self.index_of(x, y);
        self.tiles.set(i, value);
        proof {
            assert forall|a: int, b: int| #[trigger]
                self.cell(a, b) == if a == x && b == y {
                    value
                } else {
                    old(self).cell(a, b)
                } by {
                if self.in_grid(a, b) && !(a == x && b == y) {
                    lemma_index_in_range(self.width as int, self.height as int, a, b);
                    if b * self.width + a == y * self.width + x {
                        lemma_index_injective(self.width as int, a, b, x as int, y as int);
                    }
                }
            }
        }
    }

    /// Places `spec` at `origin` under `rot`. Fails with `OutOfBounds` when a
    /// tile of the footprint is off the grid, else with `Occupied` when one is
    /// taken; on failure nothing changes. On success the footprint holds the
    /// new id, which is the next in sequence.
    pub fn place(&mut self, spec: &BuildingSpec, origin: TilePos, rot: Rotation) -> (r: Result<
        InstanceId,
        PlacementError,
    >)
        requires
            old(self).wf(),
            old(self).spec_next_id() < u64::MAX,
        ensures
            final(self).wf(),
            r == old(self).place_result(*spec, origin, rot),
            r is Ok ==> old(self).place_effect(final(self), *spec, origin, rot),
            r is Err ==> *final(self) == *old(self),
    {
        if !self.footprint_fits(spec.size, origin, rot) {
            return Err(PlacementError::OutOfBounds);
        }
        if !self.footprint_vacant(spec.size, origin, rot) {
            return Err(PlacementError::Occupied);
        }
        let id = self.next_id;
        self.next_id = self.next_id.saturating_add(1);
        let instance = BuildingInstance {
            id,
            spec_id: spec.spec_id,
            size: spec.size,
            origin,
            rotation: rot,
        };
        self.instances.insert(id, instance);
        let e = rotated_size(spec.size, rot);
        if e.w > 0 && e.h > 0 {
            proof {
                assert(covers(spec.size, origin, rot, origin.x as int, origin.y as int));
                assert(covers(spec.size, origin, rot, origin.x + e.w - 1, origin.y + e.h - 1));
            }
            let ox = origin.x as usize;
            let oy = origin.y as usize;
            let ew = e.w as usize;
            let eh = e.h as usize;
            let mut dy: usize = 0;
            while dy < eh
                invariant
                    self.dims_ok(),
                    self.width == old(self).width,
                    self.height == old(self).height,
                    self.instances@ == old(self).instances@.insert(id, instance),
                    self.next_id == id + 1,
                    e == effective_size(spec.size, rot),
                    ox == origin.x,
                    oy == origin.y,
                    ew == e.w,
                    eh == e.h,
                    ox + ew <= self.grid_width(),
                    oy + eh <= self.grid_height(),
                    dy <= eh,
                    forall|x: int, y: int| #[trigger]
                        self.cell(x, y) == if covers(spec.size, origin, rot, x, y) && y < oy + dy {
                            Some(id)
                        } else {
                            old(self).cell(x, y)
                        },
                decreases eh - dy,
            {
                let mut dx: usize = 0;
                while dx < ew
                    invariant
                        self.dims_ok(),
                        self.width == old(self).width,
                        self.height == old(self).height,
                        self.instances@ == old(self).instances@.insert(id, instance),
                        self.next_id == id + 1,
                        e == effective_size(spec.size, rot),
                        ox == origin.x,
                        oy == origin.y,
                        ew == e.w,
                        eh == e.h,
                        ox + ew <= self.grid_width(),
                        oy + eh <= self.grid_height(),
                        dy < eh,
                        dx <= ew,
                        forall|x: int, y: int| #[trigger]
                            self.cell(x, y) == if covers(spec.size, origin, rot, x, y) && (y < oy
                                + dy || (y == oy + dy && x < ox + dx)) {
                                Some(id)
                            } else {
                                old(self).cell(x, y)
                            },
                    decreases ew - dx,
                {
                    self.set_tile(ox + dx, oy + dy, Some(id));
                    dx = dx + 1;
                }
                dy = dy + 1;
            }
        }
        assert(forall|x: int, y: int| #[trigger]
            self.cell(x, y) == if covers(spec.size, origin, rot, x, y) {
                Some(id)
            } else {
                old(self).cell(x, y)
            });
        proof {
            let pre = old(self);
            assert forall|k: InstanceId, x: int, y: int|
                self.instances@.contains_key(k) && #[trigger] self.instances@[k].covers_tile(x, y)
                    implies self.in_grid(x, y) && self.cell(x, y) == Some(k) by {
                if k != id {
                    assert(pre.instances@[k].covers_tile(x, y));
                    assert(pre.cell(x, y) == Some(k));
                }
            }
            assert forall|x: int, y: int| #[trigger]
                self.cell(x, y) is Some implies {
                    let k = self.cell(x, y)->Some_0;
                    &&& self.instances@.contains_key(k)
                    &&& self.instances@[k].covers_tile(x, y)
                } by {
                if !covers(spec.size, origin, rot, x, y) {
                    assert(pre.cell(x, y) is Some);
                }
            }
        }
        Ok(id)
    }

    /// Removes instance `id`: its footprint tiles that still hold `id` become
    /// empty and its record is returned. An unknown id changes nothing.
    pub fn remove(&mut self, id: InstanceId) -> (r: Option<BuildingInstance>)
        requires
            old(self).wf(),
        ensures
            final(self).wf(),
            match r {
                None => !old(self).instance_map().contains_key(id) && *final(self) == *old(self),
                Some(inst) => {
                    &&& old(self).instance_map().contains_key(id)
                    &&& inst == old(self).instance_map()[id]
                    &&& old(self).remove_effect(final(self), inst)
                },
            },
    {
        if !self.instances.contains_key(&id) {
            return None;
        }
        let inst = match self.instances.remove(&id) {
            Some(inst) => inst,
            None => return None,
        };
        let e = rotated_size(inst.size, inst.rotation);
        if e.w > 0 && e.h > 0 {
            proof {
                assert(inst.covers_tile(inst.origin.x as int, inst.origin.y as int));
                assert(inst.covers_tile(inst.origin.x + e.w - 1, inst.origin.y + e.h - 1));
            }
            let ox = inst.origin.x as usize;
            let oy = inst.origin.y as usize;
            let ew = e.w as usize;
            let eh = e.h as usize;
            let mut dy: usize = 0;
            while dy < eh
                invariant
                    old(self).wf(),
                    old(self).instances@.contains_key(id),
                    inst == old(self).instances@[id],
                    self.dims_ok(),
                    self.width == old(self).width,
                    self.height == old(self).height,
                    self.instances@ == old(self).instances@.remove(id),
                    self.next_id == old(self).next_id,
                    e == effective_size(inst.size, inst.rotation),
                    ox == inst.origin.x,
                    oy == inst.origin.y,
                    ew == e.w,
                    eh == e.h,
                    ox + ew <= self.grid_width(),
                    oy + eh <= self.grid_height(),
                    dy <= eh,
                    forall|x: int, y: int| #[trigger]
                        self.cell(x, y) == if inst.covers_tile(x, y) && y < oy + dy {
                            None
                        } else {
                            old(self).cell(x, y)
                        },
                decreases eh - dy,
            {
                let mut dx: usize = 0;
                while dx < ew
                    invariant
                        old(self).wf(),
                        old(self).instances@.contains_key(id),
                        inst == old(self).instances@[id],
                        self.dims_ok(),
                        self.width == old(self).width,
                        self.height == old(self).height,
                        self.instances@ == old(self).instances@.remove(id),
                        self.next_id == old(self).next_id,
                        e == effective_size(inst.size, inst.rotation),
                        ox == inst.origin.x,
                        oy == inst.origin.y,
                        ew == e.w,
                        eh == e.h,
                        ox + ew <= self.grid_width(),
                        oy + eh <= self.grid_height(),
                        dy < eh,
                        dx <= ew,
                        forall|x: int, y: int| #[trigger]
                            self.cell(x, y) == if inst.covers_tile(x, y) && (y < oy + dy || (y
                                == oy + dy && x < ox + dx)) {
                                None
                            } else {
                                old(self).cell(x, y)
                            },
                    decreases ew - dx,
                {
                    let i = self.index_of(ox + dx, oy + dy);
                    let held = match self.tiles[i] {
                        Some(k) => k == id,
                        None => false,
                    };
                    proof {
                        assert(inst.covers_tile((ox + dx) as int, (oy + dy) as int));
                        assert(old(self).cell((ox + dx) as int, (oy + dy) as int) == Some(id));
                    }
                    if held {
                        self.set_tile(ox + dx, oy + dy, None);
                    }
                    dx = dx + 1;
                }
                dy = dy + 1;
            }
        }
        assert(forall|x: int, y: int| #[trigger]
            self.cell(x, y) == if inst.covers_tile(x, y) {
                None
            } else {
                old(self).cell(x, y)
            });
        proof {
            let pre = old(self);
            assert forall|k: InstanceId, x: int, y: int|
                self.instances@.contains_key(k) && #[trigger] self.instances@[k].covers_tile(x, y)
                    implies self.in_grid(x, y) && self.cell(x, y) == Some(k) by {
                assert(pre.instances@[k].covers_tile(x, y));
                assert(pre.cell(x, y) == Some(k));
            }
            assert forall|x: int, y: int| #[trigger]
                self.cell(x, y) is Some implies {
                    let k = self.cell(x, y)->Some_0;
                    &&& self.instances@.contains_key(k)
                    &&& self.instances@[k].covers_tile(x, y)
                } by {
                assert(pre.cell(x, y) is Some);
            }
        }
        Some(inst)
    }
}

/// Every occupied tile belongs to a placed instance whose footprint covers
/// it, and that instance's id is below the next id.
pub proof fn lemma_occupant_is_placed(g: &TileGrid, x: int, y: int)
    requires
        g.wf(),
        g.cell(x, y) is Some,
    ensures
        g.in_grid(x, y),
        g.instance_map().contains_key(g.cell(x, y)->Some_0),
        g.instance_map()[g.cell(x, y)->Some_0].covers_tile(x, y),
        1 <= g.cell(x, y)->Some_0 < g.spec_next_id() <= u64::MAX,
{
    let k = g.cell(x, y)->Some_0;
    assert(g.instances@.contains_key(k));
}

/// Every tile of a placed instance's footprint is on the grid and holds
/// that instance's id.
pub proof fn lemma_footprint_is_occupied(g: &TileGrid, k: InstanceId, x: int, y: int)
    requires
        g.wf(),
        g.instance_map().contains_key(k),
        g.instance_map()[k].covers_tile(x, y),
    ensures
        g.in_grid(x, y),
        g.cell(x, y) == Some(k),
{
}

/// Each placed instance is recorded under its own id, which lies below the
/// next id to be issued.
pub proof fn lemma_placed_ids(g: &TileGrid, k: InstanceId)
    requires
        g.wf(),
        g.instance_map().contains_key(k),
    ensures
        g.instance_map()[k].id == k,
        1 <= k < g.spec_next_id(),
{
}

/// Footprints of distinct placed instances share no tile.
pub proof fn lemma_footprints_disjoint(g: &TileGrid, a: InstanceId, b: InstanceId, x: int, y: int)
    requires
        g.wf(),
        g.instance_map().contains_key(a),
        g.instance_map().contains_key(b),
        a != b,
    ensures
        !(g.instance_map()[a].covers_tile(x, y) && g.instance_map()[b].covers_tile(x, y)),
{
    if g.instance_map()[a].covers_tile(x, y) && g.instance_map()[b].covers_tile(x, y) {
        lemma_footprint_is_occupied(g, a, x, y);
        lemma_footprint_is_occupied(g, b, x, y);
    }
}

} // verus!
