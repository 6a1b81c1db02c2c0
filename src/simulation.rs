//! Operations that drive a grid: ticks, wall toggling, gas injection and inspection.
use crate::diffusion::{next_active, opens_to, opens_within, stepped_mixtures, tile_pressure};
use crate::gas::{empty_state, min_int, GasMixture, GasType, STANDARD_VOLUME_MICRO_M3};
use crate::grid::{lemma_wf_frame, mixtures_of, AtmosGrid};
use crate::tile::{TilePosition, DIRECTION_COUNT, VACUUM_TEMP_MK};
use vstd::prelude::*;

verus! {

/// `v` plus `amount` times the unit vector of direction `d`.
pub open spec fn add_along(v: (int, int), d: int, amount: int) -> (int, int) {
    if d == 0 {
        (v.0, v.1 + amount)
    } else if d == 1 {
        (v.0 + amount, v.1)
    } else if d == 2 {
        (v.0, v.1 - amount)
    } else {
        (v.0 - amount, v.1)
    }
}

/// Pressure gradient of tile `i` summed over its first `d` directions: each open link
/// adds its direction times the neighbour's pressure minus this tile's.
pub open spec fn gradient_upto(g: &AtmosGrid, i: int, d: int) -> (int, int)
    decreases d,
{
    if d <= 0 {
        (0, 0)
    } else {
        let prev = gradient_upto(g, i, d - 1);
        match g.tiles@[i].neighbors@[d - 1] {
            Some((j, open)) => if open && (j as int) < g.size() {
                let dp = tile_pressure(g, j as int) - tile_pressure(g, i);
                add_along(prev, d - 1, dp)
            } else {
                prev
            },
            None => prev,
        }
    }
}

/// Pressure gradient of tile `i`, pointing from low to high pressure; zero for a wall.
pub open spec fn flow_gradient(g: &AtmosGrid, i: int) -> (int, int) {
    if g.tiles@[i].sealed {
        (0, 0)
    } else {
        gradient_upto(g, i, 4)
    }
}

/// Activation after toggling tile `i` to `wall`: the tile itself, and when it stopped
/// being a wall also each tile it now has an open link to.
pub open spec fn toggled_active(old_active: Seq<bool>, g: &AtmosGrid, i: int, wall: bool, k: int) -> bool {
    old_active[k] || k == i || (!wall && opens_to(g.tiles@[i], k))
}

impl AtmosGrid {
    /// Rebuilds connectivity if tiles or walls changed since the last rebuild.
    pub fn update_wall_connections(&mut self)
        requires
            old(self).wf(),
        ensures
            final(self).wf(),
            old(self).same_but_links(final(self)),
            !final(self).connections_dirty,
            old(self).connections_dirty ==> final(self).connected(),
            !old(self).connections_dirty ==> *final(self) == *old(self),
    {
        if self.connections_dirty {
            self.initialize_neighbors();
        }
    }

    /// One tick: rebuild connectivity if needed, then run a diffusion step. The step works
    /// on the grid as it stands after the rebuild (`mid`).
    pub fn step(&mut self)
        requires
            old(self).wf(),
        ensures
            final(self).wf(),
            !final(self).connections_dirty,
            final(self).size() == old(self).size(),
            final(self).positions@ == old(self).positions@,
            old(self).connections_dirty ==> final(self).connected(),
            old(self).connected() ==> final(self).connected(),
            exists|mid: AtmosGrid|
                {
                    &&& #[trigger] old(self).same_but_links(&mid)
                    &&& mid.wf()
                    &&& old(self).connections_dirty ==> mid.connected() && !mid.connections_dirty
                    &&& !old(self).connections_dirty ==> mid == *old(self)
                    &&& mixtures_of(final(self).tiles@) == stepped_mixtures(&mid)
                    &&& forall|j: int|
                        0 <= j < mid.size() ==> #[trigger] final(self).active@[j] == next_active(
                            &mid,
                            j,
                        )
                },
    {
        self.update_wall_connections();
        let ghost mid = *self;
        self.process_gas_sharing();
        proof {
            if old(self).connected() || old(self).connections_dirty {
                assert forall|i: int, d: int|
                    0 <= i < self.size() && 0 <= d < 4 implies #[trigger] self.tiles@[i].neighbors@[d]
                    == self.expected_link(i, d) by {
                    assert(mid.tiles@[i].neighbors@[d] == mid.expected_link(i, d));
                    assert(self.tiles@[i].neighbors == mid.tiles@[i].neighbors);
                    assert(self.tiles@[i].sealed == mid.tiles@[i].sealed);
                    match self.tiles@[i].neighbors@[d] {
                        Some((j, o)) => {
                            assert(self.tiles@[j as int].sealed == mid.tiles@[j as int].sealed);
                        },
                        None => {},
                    }
                    match mid.expected_link(i, d) {
                        Some((j, o)) => {
                            assert(self.tiles@[j as int].sealed == mid.tiles@[j as int].sealed);
                        },
                        None => {},
                    }
                }
            }
            assert(old(self).same_but_links(&mid));
        }
    }

    /// Whether tile `i` is scheduled for the next step.
    pub fn is_active(&self, i: usize) -> (r: bool)
        requires
            self.wf(),
            i < self.size(),
        ensures
            r == self.active@[i as int],
    {
        self.active[i]
    }

    /// Schedules tile `i` for the next step.
    pub fn activate(&mut self, i: usize)
        requires
            old(self).wf(),
            i < old(self).size(),
        ensures
            final(self).wf(),
            final(self).active@ == old(self).active@.update(i as int, true),
            final(self).tiles@ == old(self).tiles@,
            final(self).positions@ == old(self).positions@,
            final(self).index@ == old(self).index@,
            final(self).connections_dirty == old(self).connections_dirty,
    {
        let ghost g0 = *self;
        self.active.set(i, true);
        proof {
            lemma_wf_frame(&g0, self);
        }
    }

    /// Introduces gas into tile `i` (saturating) and schedules it for the next step.
    pub fn add_gas(&mut self, i: usize, gas_type: GasType, amount: u64)
        requires
            old(self).wf(),
            i < old(self).size(),
        ensures
            final(self).wf(),
            final(self).active@ == old(self).active@.update(i as int, true),
            final(self).tiles@[i as int].mixture.moles@ == old(self).tiles@[i as int].mixture.moles@.update(
                gas_type.slot(),
                min_int(
                    old(self).tiles@[i as int].mixture.moles@[gas_type.slot()] + amount,
                    u64::MAX as int,
                ) as u64,
            ),
            final(self).tiles@[i as int].mixture.temperature == old(
                self,
            ).tiles@[i as int].mixture.temperature,
            final(self).tiles@[i as int].mixture.volume == old(self).tiles@[i as int].mixture.volume,
            final(self).tiles@.len() == old(self).tiles@.len(),
            forall|k: int|
                0 <= k < old(self).size() && k != i ==> #[trigger] final(self).tiles@[k] == old(
                    self,
                ).tiles@[k],
            final(self).tiles@[i as int].neighbors == old(self).tiles@[i as int].neighbors,
            final(self).tiles@[i as int].sealed == old(self).tiles@[i as int].sealed,
            final(self).positions@ == old(self).positions@,
            final(self).index@ == old(self).index@,
            final(self).connections_dirty == old(self).connections_dirty,
    {
        let ghost g0 = *self;
        self.tiles[i].mixture.add_moles(gas_type, amount);
        self.active.set(i, true);
        proof {
            lemma_wf_frame(&g0, self);
        }
    }

    /// Makes tile `i` a wall or opens it. A tile that becomes a wall loses its gas (it is
    /// left with an empty mixture at about 2.7 K). Connectivity is rebuilt, the tile is
    /// scheduled, and a tile that stopped being a wall also schedules every tile it now
    /// has an open link to. Setting the state a tile already has changes nothing.
    pub fn set_wall(&mut self, i: usize, wall: bool)
        requires
            old(self).wf(),
            i < old(self).size(),
        ensures
            final(self).wf(),
            final(self).size() == old(self).size(),
            final(self).positions@ == old(self).positions@,
            final(self).index@ == old(self).index@,
            old(self).tiles@[i as int].sealed == wall ==> *final(self) == *old(self),
            old(self).tiles@[i as int].sealed != wall ==> {
                &&& final(self).connected()
                &&& !final(self).connections_dirty
                &&& final(self).tiles@[i as int].sealed == wall
                &&& wall ==> final(self).tiles@[i as int].mixture@ == empty_state(
                    STANDARD_VOLUME_MICRO_M3,
                    VACUUM_TEMP_MK,
                )
                &&& !wall ==> final(self).tiles@[i as int].mixture == old(self).tiles@[i as int].mixture
                &&& forall|k: int|
                    0 <= k < old(self).size() && k != i ==> (#[trigger] final(self).tiles@[k]).mixture
                        == old(self).tiles@[k].mixture && final(self).tiles@[k].sealed == old(
                        self,
                    ).tiles@[k].sealed
                &&& forall|k: int|
                    0 <= k < old(self).size() ==> #[trigger] final(self).active@[k]
                        == toggled_active(old(self).active@, final(self), i as int, wall, k)
            },
    {
        if self.tiles[i].sealed == wall {
            return;
        }
        let ghost g0 = *self;
        self.tiles[i].sealed = wall;
        if wall {
            self.tiles[i].mixture = GasMixture::new(STANDARD_VOLUME_MICRO_M3, VACUUM_TEMP_MK);
        }
        proof {
            lemma_wf_frame(&g0, self);
        }
        self.initialize_neighbors();
        let ghost connected_grid = *self;
        self.active.set(i, true);
        proof {
            lemma_wf_frame(&connected_grid, self);
        }
        let ghost rebuilt = *self;
        let n_tiles = self.tiles.len();
        if !wall {
            let mut d: usize = 0;
            while d < DIRECTION_COUNT
                invariant
                    0 <= d <= DIRECTION_COUNT,
                    i < self.size(),
                    self.size() == n_tiles,
                    rebuilt.wf(),
                    self.tiles@ == rebuilt.tiles@,
                    self.positions@ == rebuilt.positions@,
                    self.index@ == rebuilt.index@,
                    self.connections_dirty == rebuilt.connections_dirty,
                    self.active@.len() == rebuilt.active@.len(),
                    forall|k: int|
                        0 <= k < self.size() ==> #[trigger] self.active@[k] == (rebuilt.active@[k]
                            || opens_within(self.tiles@[i as int], k, d as int)),
                decreases DIRECTION_COUNT - d,
            {
                let ghost prev_active = self.active@;
                match self.tiles[i].neighbors[d] {
                    Some((k, open)) => {
                        if open {
                            self.active.set(k, true);
                        }
                    },
                    None => {},
                }
                proof {
                    assert forall|k: int| 0 <= k < self.size() implies #[trigger] self.active@[k] == (
                    rebuilt.active@[k] || opens_within(self.tiles@[i as int], k, d + 1)) by {
                        let t = self.tiles@[i as int];
                        assert(self.size() <= usize::MAX);
                        assert((k as usize) as int == k);
                        assert(prev_active[k] == (rebuilt.active@[k] || opens_within(t, k, d as int)));
                        assert(opens_within(t, k, d + 1) == (opens_within(t, k, d as int)
                            || t.neighbors@[d as int] == Some((k as usize, true))));
                        match t.neighbors@[d as int] {
                            Some((k2, open)) => {
                                if open && k2 as int == k {
                                    assert(self.active@[k]);
                                    assert(t.neighbors@[d as int] == Some((k as usize, true)));
                                } else {
                                    assert(t.neighbors@[d as int] != Some((k as usize, true)));
                                    assert(self.active@[k] == prev_active[k]);
                                }
                            },
                            None => {
                                assert(self.active@[k] == prev_active[k]);
                            },
                        }
                    }
                }
                d = d + 1;
            }
        }
        proof {
            lemma_wf_frame(&rebuilt, self);
            assert forall|k: int|
                0 <= k < old(self).size() implies #[trigger] self.active@[k] == toggled_active(
                old(self).active@,
                self,
                i as int,
                wall,
                k,
            ) by {
                assert(self.active@[k] == (rebuilt.active@[k] || (!wall && opens_to(
                    self.tiles@[i as int],
                    k,
                ))));
            }
        }
    }

    /// The pressure gradient of every tile (see `flow_gradient`).
    pub fn calculate_flow_vectors(&self) -> (r: Vec<(i128, i128)>)
        requires
            self.wf(),
        ensures
            r@.len() == self.size(),
            forall|i: int|
                0 <= i < self.size() ==> (#[trigger] r@[i]).0 == flow_gradient(self, i).0 && r@[i].1
                    == flow_gradient(self, i).1,
    {
        let n = self.tiles.len();
        let mut out: Vec<(i128, i128)> = Vec::new();
        let mut i: usize = 0;
        while i < n
            invariant
                0 <= i <= n,
                n == self.size(),
                self.wf(),
                out@.len() == i,
                forall|k: int|
                    0 <= k < i ==> (#[trigger] out@[k]).0 == flow_gradient(self, k).0 && out@[k].1
                        == flow_gradient(self, k).1,
            decreases n - i,
        {
            if self.tiles[i].sealed {
                out.push((0, 0));
            } else {
                let mine = self.tiles[i].mixture.pressure();
                let mut gx: i128 = 0;
                let mut gy: i128 = 0;
                let mut d: usize = 0;
                while d < DIRECTION_COUNT
                    invariant
                        0 <= d <= DIRECTION_COUNT,
                        i < n,
                        n == self.size(),
                        self.wf(),
                        mine == tile_pressure(self, i as int),
                        gx == gradient_upto(self, i as int, d as int).0,
                        gy == gradient_upto(self, i as int, d as int).1,
                        -(d as int) * u64::MAX <= gx <= (d as int) * u64::MAX,
                        -(d as int) * u64::MAX <= gy <= (d as int) * u64::MAX,
                    decreases DIRECTION_COUNT - d,
                {
                    match self.tiles[i].neighbors[d] {
                        Some((j, open)) => {
                            if open && j < n {
                                let dp: i128 = self.tiles[j].mixture.pressure() as i128 - mine as i128;
                                if d == 0 {
                                    gy = gy + dp;
                                } else if d == 1 {
                                    gx = gx + dp;
                                } else if d == 2 {
                                    gy = gy - dp;
                                } else {
                                    gx = gx - dp;
                                }
                            }
                        },
                        None => {},
                    }
                    d = d + 1;
                }
                out.push((gx, gy));
            }
            i = i + 1;
        }
        out
    }

    /// Tile `i`'s record.
    pub fn tile(&self, i: usize) -> (r: &crate::tile::TileAtmosphere)
        requires
            i < self.size(),
        ensures
            *r == self.tiles@[i as int],
    {
        &self.tiles[i]
    }

    /// Tile `i`'s coordinate.
    pub fn position(&self, i: usize) -> (r: TilePosition)
        requires
            self.wf(),
            i < self.size(),
        ensures
            r == self.positions@[i as int],
    {
        self.positions[i]
    }

    /// Tile `i`'s pressure in micro-kPa.
    pub fn pressure_at(&self, i: usize) -> (r: u64)
        requires
            i < self.size(),
        ensures
            r == tile_pressure(self, i as int),
    {
        self.tiles[i].mixture.pressure()
    }

    /// Number of tiles scheduled for the next step.
    pub fn active_count(&self) -> (r: usize)
        requires
            self.wf(),
        ensures
            r == self.active@.filter(|b: bool| b).len(),
    {
        let mut count: usize = 0;
        let mut i: usize = 0;
        while i < self.active.len()
            invariant
                0 <= i <= self.active@.len(),
                count == self.active@.take(i as int).filter(|b: bool| b).len(),
                count <= i,
            decreases self.active@.len() - i,
        {
            proof {
                assert(self.active@.take(i + 1) =~= self.active@.take(i as int).push(self.active@[i as int]));
                self.active@.take(i as int).lemma_filter_push(self.active@[i as int], |b: bool| b);
            }
            if self.active[i] {
                count = count + 1;
            }
            i = i + 1;
        }
        assert(self.active@.take(self.active@.len() as int) =~= self.active@);
        count
    }
}

} // verus!
