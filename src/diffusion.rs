//! One diffusion step over the active tiles.
//!
//! Every decision of a step is taken from the pressures at its start: an active tile
//! exchanges with each open neighbour whose pressure differs from its own by more than
//! 0.1 kPa, such a neighbour wakes up, and an active tile without any such neighbour
//! goes passive. Each unordered pair is exchanged once, in the order of the deciding
//! tile's index and then direction; the exchanges are applied one after another, so
//! the amounts moved depend on that fixed order.
use crate::gas::{abs_int, gas_shared, pressure_of, GasState, PRESSURE_THRESHOLD_MICRO_KPA};
use crate::grid::{lemma_wf_frame, mixtures_of, AtmosGrid};
use crate::tile::{TileAtmosphere, DIRECTION_COUNT};
use vstd::prelude::*;

verus! {

/// Pressure of tile `i`.
pub open spec fn tile_pressure(g: &AtmosGrid, i: int) -> int {
    pressure_of(g.tiles@[i].mixture@)
}

/// The tile that tile `i` links to in direction `d`.
pub open spec fn link_target(g: &AtmosGrid, i: int, d: int) -> usize {
    g.tiles@[i].neighbors@[d]->Some_0.0
}

/// Active tile `i` has an open link in direction `d` across which the pressure differs
/// by more than the threshold.
pub open spec fn wants_exchange(g: &AtmosGrid, i: int, d: int) -> bool {
    &&& g.active@[i]
    &&& match g.tiles@[i].neighbors@[d] {
        Some((j, open)) => open && (j as int) < g.size() && abs_int(
            tile_pressure(g, i) - tile_pressure(g, j as int),
        ) > PRESSURE_THRESHOLD_MICRO_KPA,
        None => false,
    }
}

/// Tile `i` wants an exchange in one of its first `d` directions.
pub open spec fn wants_any_upto(g: &AtmosGrid, i: int, d: int) -> bool
    decreases d,
{
    if d <= 0 {
        false
    } else {
        wants_any_upto(g, i, d - 1) || wants_exchange(g, i, d - 1)
    }
}

/// Tile `i` wants an exchange with at least one neighbour.
pub open spec fn has_exchange(g: &AtmosGrid, i: int) -> bool {
    wants_any_upto(g, i, 4)
}

/// One of the first `d` links of `t` is an open link to tile `i`.
pub open spec fn opens_within(t: TileAtmosphere, i: int, d: int) -> bool
    decreases d,
{
    if d <= 0 {
        false
    } else {
        opens_within(t, i, d - 1) || t.neighbors@[d - 1] == Some((i as usize, true))
    }
}

/// `t` has an open link to tile `i`.
pub open spec fn opens_to(t: TileAtmosphere, i: int) -> bool {
    opens_within(t, i, 4)
}

/// The exchange wanted by tile `i` in direction `d` is carried out for this pair, not
/// left to the lower-indexed active neighbour that also decides it.
pub open spec fn exchange_recorded(g: &AtmosGrid, i: int, d: int) -> bool {
    let j = link_target(g, i, d) as int;
    wants_exchange(g, i, d) && !(g.active@[j] && j < i && opens_to(g.tiles@[j], i))
}

/// Pairs to exchange, from the first `e` (tile, direction) slots in the order
/// `4 * tile + direction`.
pub open spec fn pairs_upto(g: &AtmosGrid, e: int) -> Seq<(usize, usize)>
    decreases e,
{
    if e <= 0 {
        Seq::empty()
    } else {
        let i = (e - 1) / 4;
        let d = (e - 1) % 4;
        pairs_upto(g, e - 1) + if exchange_recorded(g, i, d) {
            seq![(i as usize, link_target(g, i, d))]
        } else {
            Seq::empty()
        }
    }
}

/// The pairs a step exchanges, in order.
pub open spec fn exchange_pairs(g: &AtmosGrid) -> Seq<(usize, usize)> {
    pairs_upto(g, 4 * g.size())
}

/// Some slot before `e` wants an exchange with tile `j`.
pub open spec fn woken_before(g: &AtmosGrid, j: int, e: int) -> bool {
    exists|s: int|
        0 <= s < e && #[trigger] wants_exchange(g, s / 4, s % 4) && link_target(g, s / 4, s % 4)
            == j
}

/// Whether tile `j` is active after a step: it was woken by an exchange, or it was
/// active and still exchanges.
pub open spec fn next_active(g: &AtmosGrid, j: int) -> bool {
    woken_before(g, j, 4 * g.size()) || (g.active@[j] && has_exchange(g, j))
}

/// Mixtures after applying the first `k` exchanges of `pairs`.
pub open spec fn apply_exchanges(ms: Seq<GasState>, pairs: Seq<(usize, usize)>, k: int) -> Seq<
    GasState,
>
    decreases k,
{
    if k <= 0 {
        ms
    } else {
        let prev = apply_exchanges(ms, pairs, k - 1);
        let i = pairs[k - 1].0 as int;
        let j = pairs[k - 1].1 as int;
        let r = gas_shared(prev[i], prev[j]);
        prev.update(i, r.0).update(j, r.1)
    }
}

/// The mixtures after a step.
pub open spec fn stepped_mixtures(g: &AtmosGrid) -> Seq<GasState> {
    apply_exchanges(mixtures_of(g.tiles@), exchange_pairs(g), exchange_pairs(g).len() as int)
}

proof fn lemma_woken_step(g: &AtmosGrid, j: int, e: int)
    requires
        e >= 0,
    ensures
        woken_before(g, j, e + 1) == (woken_before(g, j, e) || (wants_exchange(g, e / 4, e % 4)
            && link_target(g, e / 4, e % 4) == j)),
{
    if woken_before(g, j, e + 1) && !woken_before(g, j, e) {
        let s = choose|s: int|
            0 <= s < e + 1 && #[trigger] wants_exchange(g, s / 4, s % 4) && link_target(
                g,
                s / 4,
                s % 4,
            ) == j;
        assert(s == e);
    }
    if wants_exchange(g, e / 4, e % 4) && link_target(g, e / 4, e % 4) == j {
        assert(0 <= e < e + 1 && wants_exchange(g, e / 4, e % 4));
    }
    if woken_before(g, j, e) {
        let s = choose|s: int|
            0 <= s < e && #[trigger] wants_exchange(g, s / 4, s % 4) && link_target(g, s / 4, s % 4)
                == j;
        assert(0 <= s < e + 1);
    }
}

fn is_open_link_to(link: Option<(usize, bool)>, i: usize) -> (r: bool)
    ensures
        r == (link == Some((i, true))),
{
    match link {
        Some((k, open)) => open && k == i,
        None => false,
    }
}

fn tile_opens_to(t: &TileAtmosphere, i: usize) -> (r: bool)
    ensures
        r == opens_to(*t, i as int),
{
    let r = is_open_link_to(t.neighbors[0], i) || is_open_link_to(t.neighbors[1], i)
        || is_open_link_to(t.neighbors[2], i) || is_open_link_to(t.neighbors[3], i);
    proof {
        reveal_with_fuel(opens_within, 5);
    }
    r
}

impl AtmosGrid {
    /// The neighbour that active tile `i` exchanges with in direction `d`, judged on the
    /// snapshot `pressures`.
    fn wanted(&self, pressures: &Vec<u64>, i: usize, d: usize) -> (r: Option<usize>)
        requires
            self.wf(),
            i < self.size(),
            d < DIRECTION_COUNT,
            pressures@.len() == self.size(),
            forall|k: int| 0 <= k < self.size() ==> pressures@[k] == tile_pressure(self, k),
        ensures
            r is Some == wants_exchange(self, i as int, d as int),
            r is Some ==> r->Some_0 == link_target(self, i as int, d as int),
    {
        if !self.active[i] {
            return None;
        }
        match self.tiles[i].neighbors[d] {
            None => None,
            Some((j, open)) => {
                if !open || j >= self.tiles.len() {
                    return None;
                }
                let p = pressures[i];
                let q = pressures[j];
                let diff: u64 = if p >= q {
                    p - q
                } else {
                    q - p
                };
                if diff > PRESSURE_THRESHOLD_MICRO_KPA {
                    Some(j)
                } else {
                    None
                }
            },
        }
    }

    /// Runs one diffusion step over the active tiles (see the module documentation).
    pub fn process_gas_sharing(&mut self)
        requires
            old(self).wf(),
        ensures
            final(self).wf(),
            final(self).size() == old(self).size(),
            final(self).positions@ == old(self).positions@,
            final(self).index@ == old(self).index@,
            final(self).connections_dirty == old(self).connections_dirty,
            forall|i: int|
                0 <= i < old(self).size() ==> (#[trigger] final(self).tiles@[i]).neighbors == old(
                    self,
                ).tiles@[i].neighbors && final(self).tiles@[i].sealed == old(self).tiles@[i].sealed,
            mixtures_of(final(self).tiles@) == stepped_mixtures(old(self)),
            forall|j: int|
                0 <= j < old(self).size() ==> #[trigger] final(self).active@[j] == next_active(
                    old(self),
                    j,
                ),
    {
        let ghost g0 = *self;
        let n = self.tiles.len();
        let mut pressures: Vec<u64> = Vec::new();
        let mut i: usize = 0;
        while i < n
            invariant
                0 <= i <= n,
                n == self.size(),
                pressures@.len() == i,
                forall|k: int| 0 <= k < i ==> pressures@[k] == tile_pressure(self, k),
            decreases n - i,
        {
            pressures.push(self.tiles[i].mixture.pressure());
            i = i + 1;
        }
        let mut pairs: Vec<(usize, usize)> = Vec::new();
        let mut wake: Vec<bool> = Vec::new();
        i = 0;
        while i < n
            invariant
                0 <= i <= n,
                wake@.len() == i,
                forall|k: int| 0 <= k < i ==> !wake@[k],
            decreases n - i,
        {
            wake.push(false);
            i = i + 1;
        }
        let mut exchanged: Vec<bool> = Vec::new();
        i = 0;
        while i < n
            invariant
                0 <= i <= n,
                n == self.size(),
                *self == g0,
                self.wf(),
                pressures@.len() == n,
                forall|k: int| 0 <= k < n ==> pressures@[k] == tile_pressure(self, k),
                wake@.len() == n,
                forall|k: int| 0 <= k < n ==> wake@[k] == woken_before(self, k, 4 * i),
                exchanged@.len() == i,
                forall|k: int| 0 <= k < i ==> exchanged@[k] == has_exchange(self, k),
                pairs@ == pairs_upto(self, 4 * i),
                forall|t: int|
                    0 <= t < pairs@.len() ==> (#[trigger] pairs@[t]).0 < n && pairs@[t].1 < n
                        && pairs@[t].0 != pairs@[t].1,
            decreases n - i,
        {
            let mut any = false;
            let mut d: usize = 0;
            while d < DIRECTION_COUNT
                invariant
                    0 <= d <= DIRECTION_COUNT,
                    i < n,
                    n == self.size(),
                    *self == g0,
                    self.wf(),
                    pressures@.len() == n,
                    forall|k: int| 0 <= k < n ==> pressures@[k] == tile_pressure(self, k),
                    wake@.len() == n,
                    forall|k: int| 0 <= k < n ==> wake@[k] == woken_before(self, k, 4 * i + d),
                    any == wants_any_upto(self, i as int, d as int),
                    pairs@ == pairs_upto(self, 4 * i + d),
                    forall|t: int|
                        0 <= t < pairs@.len() ==> (#[trigger] pairs@[t]).0 < n && pairs@[t].1 < n
                            && pairs@[t].0 != pairs@[t].1,
                decreases DIRECTION_COUNT - d,
            {
                let e: Ghost<int> = Ghost(4 * i + d);
                assert(e@ / 4 == i && e@ % 4 == d);
                let w = self.wanted(&pressures, i, d);
                proof {
                    assert forall|k: int| 0 <= k < n implies woken_before(self, k, e@ + 1) == (
                    woken_before(self, k, e@) || (w is Some && k == w->Some_0)) by {
                        lemma_woken_step(self, k, e@);
                    }
                }
                match w {
                    Some(j) => {
                        any = true;
                        wake.set(j, true);
                        let j_active = self.active[j];
                        if !(j_active && j < i && tile_opens_to(&self.tiles[j], i)) {
                            assert(i != j);
                            pairs.push((i, j));
                        }
                    },
                    None => {},
                }
                d = d + 1;
            }
            exchanged.push(any);
            i = i + 1;
        }
        let mut next: Vec<bool> = Vec::new();
        i = 0;
        while i < n
            invariant
                0 <= i <= n,
                n == g0.size(),
                g0.wf(),
                wake@.len() == n,
                exchanged@.len() == n,
                forall|k: int| 0 <= k < n ==> wake@[k] == woken_before(&g0, k, 4 * n),
                forall|k: int| 0 <= k < n ==> exchanged@[k] == has_exchange(&g0, k),
                next@.len() == i,
                forall|k: int| 0 <= k < i ==> next@[k] == next_active(&g0, k),
                self.active@ == g0.active@,
            decreases n - i,
        {
            next.push(wake[i] || (self.active[i] && exchanged[i]));
            i = i + 1;
        }
        let ghost m0 = mixtures_of(self.tiles@);
        let mut k: usize = 0;
        while k < pairs.len()
            invariant
                0 <= k <= pairs@.len(),
                n == self.size(),
                pairs@ == exchange_pairs(&g0),
                m0 == mixtures_of(g0.tiles@),
                forall|t: int|
                    0 <= t < pairs@.len() ==> (#[trigger] pairs@[t]).0 < n && pairs@[t].1 < n
                        && pairs@[t].0 != pairs@[t].1,
                mixtures_of(self.tiles@) == apply_exchanges(m0, pairs@, k as int),
                forall|t: int|
                    0 <= t < n ==> (#[trigger] self.tiles@[t]).neighbors == g0.tiles@[t].neighbors
                        && self.tiles@[t].sealed == g0.tiles@[t].sealed,
                self.positions@ == g0.positions@,
                self.index@ == g0.index@,
                self.active@ == g0.active@,
                self.connections_dirty == g0.connections_dirty,
            decreases pairs@.len() - k,
        {
            let (a_idx, b_idx) = pairs[k];
            let ghost prev = self.tiles@;
            let mut a = self.tiles[a_idx].mixture;
            let mut b = self.tiles[b_idx].mixture;
            a.share_gas_with(&mut b);
            self.tiles[a_idx].mixture = a;
            self.tiles[b_idx].mixture = b;
            proof {
                assert(mixtures_of(self.tiles@) =~= apply_exchanges(m0, pairs@, k + 1));
            }
            k = k + 1;
        }
        self.active = next;
        proof {
            lemma_wf_frame(&g0, self);
        }
    }
}

} // verus!
