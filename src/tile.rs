//! Grid coordinates, cardinal directions and the per-tile record.
use crate::gas::{empty_state, air_state, GasMixture, STANDARD_TEMP_MK, STANDARD_VOLUME_MICRO_M3};
use vstd::prelude::*;

verus! {

/// Number of cardinal directions: North, East, South, West, in that order.
pub const DIRECTION_COUNT: usize = 4;

/// Temperature of the near-vacuum that fills a new vacuum or wall tile (about 2.7 K).
pub const VACUUM_TEMP_MK: u64 = 2_700;

/// Integer grid coordinate of a tile.
#[derive(Debug, Clone, Copy, PartialEq, Eq, Hash, Structural)]
pub struct TilePosition {
    pub x: i32,
    pub y: i32,
}

/// Horizontal offset of direction `d`.
pub open spec fn dir_dx(d: int) -> int {
    if d == 1 {
        1
    } else if d == 3 {
        -1
    } else {
        0
    }
}

/// Vertical offset of direction `d`.
pub open spec fn dir_dy(d: int) -> int {
    if d == 0 {
        1
    } else if d == 2 {
        -1
    } else {
        0
    }
}

/// The direction pointing back.
pub open spec fn opposite(d: int) -> int {
    (d + 2) % 4
}

pub open spec fn fits_i32(v: int) -> bool {
    i32::MIN <= v <= i32::MAX
}

/// The coordinate one step from `p` in direction `d`, if it is representable.
pub open spec fn step_of(p: TilePosition, d: int) -> Option<TilePosition> {
    let x = p.x + dir_dx(d);
    let y = p.y + dir_dy(d);
    if fits_i32(x) && fits_i32(y) {
        Some(TilePosition { x: x as i32, y: y as i32 })
    } else {
        None
    }
}

/// Stepping back undoes a step.
pub proof fn lemma_step_back(p: TilePosition, d: int)
    requires
        0 <= d < 4,
        step_of(p, d) is Some,
    ensures
        step_of(step_of(p, d)->Some_0, opposite(d)) == Some(p),
        0 <= opposite(d) < 4,
        opposite(opposite(d)) == d,
{
}

impl TilePosition {
    pub fn new(x: i32, y: i32) -> (r: Self)
        ensures
            r.x == x,
            r.y == y,
    {
        TilePosition { x, y }
    }

    /// The coordinate one step away in direction `d` (0 North, 1 East, 2 South, 3 West),
    /// or `None` past the edge of the coordinate range.
    pub fn step(&self, d: usize) -> (r: Option<TilePosition>)
        requires
            d < DIRECTION_COUNT,
        ensures
            r == step_of(*self, d as int),
    {
        let x: i64 = self.x as i64 + if d == 1 {
            1
        } else if d == 3 {
            -1
        } else {
            0
        };
        let y: i64 = self.y as i64 + if d == 0 {
            1
        } else if d == 2 {
            -1
        } else {
            0
        };
        if x < i32::MIN as i64 || x > i32::MAX as i64 || y < i32::MIN as i64 || y
            > i32::MAX as i64 {
            None
        } else {
            Some(TilePosition { x: x as i32, y: y as i32 })
        }
    }

    /// The four cardinal neighbours: North, East, South, West.
    pub fn neighbors(&self) -> (r: [TilePosition; 4])
        requires
            i32::MIN < self.x < i32::MAX,
            i32::MIN < self.y < i32::MAX,
        ensures
            forall|d: int| 0 <= d < 4 ==> step_of(*self, d) == Some(#[trigger] r@[d]),
    {
        [
            TilePosition::new(self.x, self.y + 1),
            TilePosition::new(self.x + 1, self.y),
            TilePosition::new(self.x, self.y - 1),
            TilePosition::new(self.x - 1, self.y),
        ]
    }
}

/// One tile of the grid.
#[derive(Debug, Clone, Copy)]
pub struct TileAtmosphere {
    pub mixture: GasMixture,
    /// Whether the tile is a wall, blocking flow to and from it.
    pub sealed: bool,
    /// Links to the neighbours North, East, South, West: the neighbour's index in the
    /// grid and whether gas may flow across; `None` at the edge of the grid.
    pub neighbors: [Option<(usize, bool)>; 4],
}

impl TileAtmosphere {
    /// An open tile holding standard air.
    pub fn new_with_air() -> (r: Self)
        ensures
            r.mixture@ == air_state(STANDARD_VOLUME_MICRO_M3, STANDARD_TEMP_MK),
            !r.sealed,
            forall|d: int| 0 <= d < 4 ==> r.neighbors@[d] is None,
    {
        TileAtmosphere {
            mixture: GasMixture::new_air(STANDARD_VOLUME_MICRO_M3, STANDARD_TEMP_MK),
            sealed: false,
            neighbors: [None; 4],
        }
    }

    /// An open tile holding no gas.
    pub fn new_vacuum() -> (r: Self)
        ensures
            r.mixture@ == empty_state(STANDARD_VOLUME_MICRO_M3, VACUUM_TEMP_MK),
            !r.sealed,
            forall|d: int| 0 <= d < 4 ==> r.neighbors@[d] is None,
    {
        TileAtmosphere {
            mixture: GasMixture::new(STANDARD_VOLUME_MICRO_M3, VACUUM_TEMP_MK),
            sealed: false,
            neighbors: [None; 4],
        }
    }

    /// A wall tile holding no gas.
    pub fn new_wall() -> (r: Self)
        ensures
            r.mixture@ == empty_state(STANDARD_VOLUME_MICRO_M3, VACUUM_TEMP_MK),
            r.sealed,
            forall|d: int| 0 <= d < 4 ==> r.neighbors@[d] is None,
    {
        TileAtmosphere {
            mixture: GasMixture::new(STANDARD_VOLUME_MICRO_M3, VACUUM_TEMP_MK),
            sealed: true,
            neighbors: [None; 4],
        }
    }
}

impl Default for TileAtmosphere {
    /// A sealed tile with an empty room-temperature mixture.
    fn default() -> (r: Self)
        ensures
            r.mixture@ == empty_state(STANDARD_VOLUME_MICRO_M3, STANDARD_TEMP_MK),
            r.sealed,
            forall|d: int| 0 <= d < 4 ==> r.neighbors@[d] is None,
    {
        TileAtmosphere {
            mixture: GasMixture::default(),
            sealed: true,
            neighbors: [None; 4],
        }
    }
}

} // verus!
