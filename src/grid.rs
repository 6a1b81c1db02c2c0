//! The tile arena: positions, wall-aware connectivity and activation flags.
use crate::gas::GasState;
use crate::tile::{lemma_step_back, opposite, step_of, TileAtmosphere, TilePosition, DIRECTION_COUNT};
use std::collections::HashMap;
use vstd::prelude::*;

verus! {

broadcast use vstd::std_specs::hash::group_hash_axioms;

/// Injective encoding of a coordinate as a map key.
pub open spec fn pos_key(p: TilePosition) -> u64 {
    ((p.x + 0x8000_0000) * 0x1_0000_0000 + (p.y + 0x8000_0000)) as u64
}

pub proof fn lemma_pos_key_injective(a: TilePosition, b: TilePosition)
    requires
        pos_key(a) == pos_key(b),
    ensures
        a == b,
{
    let ax = a.x + 0x8000_0000;
    let ay = a.y + 0x8000_0000;
    let bx = b.x + 0x8000_0000;
    let by = b.y + 0x8000_0000;
    assert(ax * 0x1_0000_0000 + ay == bx * 0x1_0000_0000 + by);
    assert(ax == bx && ay == by) by (nonlinear_arith)
        requires
            ax * 0x1_0000_0000 + ay == bx * 0x1_0000_0000 + by,
            0 <= ay < 0x1_0000_0000,
            0 <= by < 0x1_0000_0000,
    ;
}

fn position_key(p: TilePosition) -> (r: u64)
    ensures
        r == pos_key(p),
{
    let kx: u64 = (p.x as i64 + 0x8000_0000) as u64;
    let ky: u64 = (p.y as i64 + 0x8000_0000) as u64;
    kx * 0x1_0000_0000 + ky
}

/// Well-formedness depends only on positions, the index, the links and the sizes.
pub proof fn lemma_wf_frame(a: &AtmosGrid, b: &AtmosGrid)
    requires
        a.wf(),
        a.tiles@.len() == b.tiles@.len(),
        forall|i: int|
            0 <= i < a.size() ==> (#[trigger] b.tiles@[i]).neighbors == a.tiles@[i].neighbors,
        a.positions@ == b.positions@,
        a.active@.len() == b.active@.len(),
        a.index@ == b.index@,
    ensures
        b.wf(),
{
    assert forall|i: int, d: int|
        0 <= i < b.size() && 0 <= d < 4 && (#[trigger] b.tiles@[i].neighbors@[d]) is Some implies b.tiles@[i].neighbors@[d]->Some_0.0
        < b.size() by {
        assert(b.tiles@[i].neighbors == a.tiles@[i].neighbors);
    }
    assert forall|k: int| 0 <= k < b.size() implies #[trigger] b.find_spec(b.positions@[k]) == Some(
        k,
    ) by {
        assert(a.find_spec(a.positions@[k]) == Some(k));
    }
}

/// All tiles of a simulation, addressed by index.
pub struct AtmosGrid {
    pub tiles: Vec<TileAtmosphere>,
    pub positions: Vec<TilePosition>,
    /// Whether each tile is scheduled for the next diffusion step.
    pub active: Vec<bool>,
    /// Coordinate key to tile index.
    pub index: HashMap<u64, usize>,
    /// Set when tiles or walls changed since connectivity was last rebuilt.
    pub connections_dirty: bool,
}

/// The mixtures of a sequence of tiles.
pub open spec fn mixtures_of(tiles: Seq<TileAtmosphere>) -> Seq<GasState> {
    Seq::new(tiles.len(), |i: int| tiles[i].mixture@)
}

impl AtmosGrid {
    pub open spec fn size(&self) -> int {
        self.tiles@.len() as int
    }

    /// Index of the tile at `p`, if any.
    pub open spec fn find_spec(&self, p: TilePosition) -> Option<int> {
        if self.index@.contains_key(pos_key(p)) {
            Some(self.index@[pos_key(p)] as int)
        } else {
            None
        }
    }

    /// Every neighbour link names a tile of the grid.
    pub open spec fn links_in_bounds(&self) -> bool {
        forall|i: int, d: int|
            0 <= i < self.size() && 0 <= d < 4 && (#[trigger] self.tiles@[i].neighbors@[d]) is Some
                ==> self.tiles@[i].neighbors@[d]->Some_0.0 < self.size()
    }

    pub open spec fn wf(&self) -> bool {
        &&& self.size() <= usize::MAX
        &&& self.positions@.len() == self.size()
        &&& self.active@.len() == self.size()
        &&& forall|i: int|
            0 <= i < self.size() ==> #[trigger] self.find_spec(self.positions@[i]) == Some(i)
        &&& forall|k: u64|
            #[trigger] self.index@.contains_key(k) ==> self.index@[k] < self.size() && pos_key(
                self.positions@[self.index@[k] as int],
            ) == k
        &&& self.links_in_bounds()
    }

    /// The link that tile `i` has in direction `d` when connectivity is current: the tile
    /// one step away, open when neither tile is a wall.
    pub open spec fn expected_link(&self, i: int, d: int) -> Option<(usize, bool)> {
        match step_of(self.positions@[i], d) {
            None => None,
            Some(q) => match self.find_spec(q) {
                None => None,
                Some(j) => Some((j as usize, !self.tiles@[i].sealed && !self.tiles@[j].sealed)),
            },
        }
    }

    /// Every link is what the positions and walls call for.
    pub open spec fn connected(&self) -> bool {
        forall|i: int, d: int|
            0 <= i < self.size() && 0 <= d < 4 ==> #[trigger] self.tiles@[i].neighbors@[d]
                == self.expected_link(i, d)
    }

    /// `other` differs from `self` at most in the tiles' links and the dirty flag.
    pub open spec fn same_but_links(&self, other: &AtmosGrid) -> bool {
        &&& other.tiles@.len() == self.tiles@.len()
        &&& other.positions@ == self.positions@
        &&& other.active@ == self.active@
        &&& other.index@ == self.index@
        &&& forall|i: int|
            0 <= i < self.size() ==> (#[trigger] other.tiles@[i]).mixture == self.tiles@[i].mixture
                && other.tiles@[i].sealed == self.tiles@[i].sealed
    }

    /// An empty grid.
    pub fn new() -> (r: Self)
        ensures
            r.wf(),
            r.size() == 0,
            !r.connections_dirty,
    {
        AtmosGrid {
            tiles: Vec::new(),
            positions: Vec::new(),
            active: Vec::new(),
            index: HashMap::new(),
            connections_dirty: false,
        }
    }

    pub fn len(&self) -> (r: usize)
        ensures
            r == self.size(),
    {
        self.tiles.len()
    }

    /// Index of the tile at `p`, if any.
    pub fn find(&self, p: TilePosition) -> (r: Option<usize>)
        requires
            self.wf(),
        ensures
            match r {
                Some(i) => self.find_spec(p) == Some(i as int),
                None => self.find_spec(p) is None,
            },
    {
        match self.index.get(&position_key(p)) {
            Some(i) => Some(*i),
            None => None,
        }
    }

    /// Adds a tile at `pos` and returns its index, or returns `None` and changes nothing
    /// when a tile already stands there. The new tile starts without links, active unless
    /// it is a wall, and marks connectivity for rebuilding.
    pub fn add_tile(&mut self, pos: TilePosition, tile: TileAtmosphere) -> (r: Option<usize>)
        requires
            old(self).wf(),
        ensures
            final(self).wf(),
            match r {
                None => old(self).find_spec(pos) is Some && *final(self) == *old(self),
                Some(i) => {
                    &&& old(self).find_spec(pos) is None
                    &&& i == old(self).size()
                    &&& final(self).size() == old(self).size() + 1
                    &&& final(self).positions@ == old(self).positions@.push(pos)
                    &&& final(self).active@ == old(self).active@.push(!tile.sealed)
                    &&& final(self).tiles@.take(i as int) == old(self).tiles@
                    &&& final(self).tiles@[i as int].mixture == tile.mixture
                    &&& final(self).tiles@[i as int].sealed == tile.sealed
                    &&& forall|d: int|
                        0 <= d < 4 ==> (#[trigger] final(self).tiles@[i as int].neighbors@[d]) is None
                    &&& final(self).connections_dirty
                },
            },
    {
        let key = position_key(pos);
        if self.index.contains_key(&key) {
            return None;
        }
        let i = self.tiles.len();
        let fresh = TileAtmosphere { mixture: tile.mixture, sealed: tile.sealed, neighbors: [None; 4] };
        self.tiles.push(fresh);
        // reading the length back records that it fits in a usize
        let _count = self.tiles.len();
        self.positions.push(pos);
        self.active.push(!tile.sealed);
        self.index.insert(key, i);
        self.connections_dirty = true;
        proof {
            assert forall|k: int| 0 <= k < self.size() implies #[trigger] self.find_spec(
                self.positions@[k],
            ) == Some(k) by {
                if k < i {
                    assert(old(self).find_spec(old(self).positions@[k]) == Some(k));
                    if pos_key(self.positions@[k]) == key {
                        assert(old(self).index@.contains_key(key));
                    }
                }
            }
            assert(self.tiles@.take(i as int) =~= old(self).tiles@);
        }
        Some(i)
    }

    /// The link tile `i` should have in direction `d`.
    fn link_for(&self, i: usize, d: usize) -> (r: Option<(usize, bool)>)
        requires
            self.wf(),
            i < self.size(),
            d < DIRECTION_COUNT,
        ensures
            r == self.expected_link(i as int, d as int),
    {
        match self.positions[i].step(d) {
            None => None,
            Some(q) => match self.find(q) {
                None => None,
                Some(j) => {
                    assert(self.index@.contains_key(pos_key(q)));
                    Some((j, !self.tiles[i].sealed && !self.tiles[j].sealed))
                },
            },
        }
    }

    /// Recomputes every tile's four links from the positions and wall flags.
    pub fn initialize_neighbors(&mut self)
        requires
            old(self).wf(),
        ensures
            final(self).wf(),
            final(self).connected(),
            old(self).same_but_links(final(self)),
            !final(self).connections_dirty,
    {
        let ghost g0 = *self;
        let n = self.tiles.len();
        let mut i: usize = 0;
        while i < n
            invariant
                0 <= i <= n,
                n == g0.size(),
                g0.wf(),
                self.wf(),
                g0.same_but_links(self),
                forall|k: int, d: int|
                    0 <= k < i && 0 <= d < 4 ==> #[trigger] self.tiles@[k].neighbors@[d]
                        == g0.expected_link(k, d),
                forall|k: int, d: int|
                    i <= k < n && 0 <= d < 4 ==> #[trigger] self.tiles@[k].neighbors@[d]
                        == g0.tiles@[k].neighbors@[d],
            decreases n - i,
        {
            let mut links: [Option<(usize, bool)>; 4] = [None; 4];
            let mut d: usize = 0;
            while d < DIRECTION_COUNT
                invariant
                    0 <= d <= DIRECTION_COUNT,
                    i < n,
                    n == g0.size(),
                    g0.wf(),
                    self.wf(),
                    g0.same_but_links(self),
                    forall|e: int| 0 <= e < d ==> #[trigger] links@[e] == g0.expected_link(i as int, e),
                decreases DIRECTION_COUNT - d,
            {
                links[d] = self.link_for(i, d);
                d = d + 1;
            }
            let ghost prev = *self;
            self.tiles[i].neighbors = links;
            proof {
                assert(self.positions@ == prev.positions@);
                assert(self.index@ == prev.index@);
                assert(self.size() == prev.size());
                assert forall|k: int| 0 <= k < self.size() implies #[trigger] self.find_spec(
                    self.positions@[k],
                ) == Some(k) by {
                    assert(prev.find_spec(prev.positions@[k]) == Some(k));
                }
                assert forall|k: int, e: int|
                    0 <= k < self.size() && 0 <= e < 4 && (
                    #[trigger] self.tiles@[k].neighbors@[e]) is Some implies self.tiles@[k].neighbors@[e]->Some_0.0
                    < self.size() by {
                    if k == i {
                        let q = step_of(g0.positions@[k], e)->Some_0;
                        assert(g0.index@.contains_key(pos_key(q)));
                    } else {
                        assert(self.tiles@[k] == prev.tiles@[k]);
                        assert(prev.tiles@[k].neighbors@[e] is Some);
                    }
                }
            }
            i = i + 1;
        }
        let ghost before = *self;
        self.connections_dirty = false;
        proof {
            lemma_wf_frame(&before, self);
            assert forall|k: int, d: int|
                0 <= k < self.size() && 0 <= d < 4 implies #[trigger] self.tiles@[k].neighbors@[d]
                == self.expected_link(k, d) by {
                assert(self.tiles@[k].neighbors@[d] == g0.expected_link(k, d));
            }
        }
    }
}

/// After a connectivity rebuild links are symmetric: when tile `i` links to tile `j` in
/// direction `d`, tile `j` links back to `i` in the opposite direction with the same
/// open/closed flag.
pub proof fn lemma_links_symmetric(g: &AtmosGrid, i: int, d: int)
    requires
        g.wf(),
        g.connected(),
        0 <= i < g.size(),
        0 <= d < 4,
        g.tiles@[i].neighbors@[d] is Some,
    ensures
        ({
            let (j, open) = g.tiles@[i].neighbors@[d]->Some_0;
            g.tiles@[j as int].neighbors@[opposite(d)] == Some((i as usize, open))
        }),
{
    let q = step_of(g.positions@[i], d)->Some_0;
    let j = g.index@[pos_key(q)] as int;
    assert(g.tiles@[i].neighbors@[d] == g.expected_link(i, d));
    assert(g.find_spec(q) == Some(j));
    assert(pos_key(g.positions@[j]) == pos_key(q));
    lemma_pos_key_injective(g.positions@[j], q);
    lemma_step_back(g.positions@[i], d);
    assert(g.find_spec(g.positions@[i]) == Some(i));
    assert(g.tiles@[j].neighbors@[opposite(d)] == g.expected_link(j, opposite(d)));
}

} // verus!
