//! Properties of gas exchange and of the diffusion step, stated over the models.
use crate::arith::lemma_ratio_share_bounded;
use crate::diffusion::{
    apply_exchanges, exchange_pairs, next_active, pairs_upto, stepped_mixtures, woken_before,
};
use crate::gas::{
    abs_int, flowed, gas_shared, heat_shared, lemma_entry_le_sum, lemma_pressure_needs_gas,
    lemma_pressure_nonneg,
    moles_sum, pressure_of, species_move, total_of, transfer_cap,
    transfer_quota, GasState, GAS_TYPE_COUNT, PRESSURE_THRESHOLD_MICRO_KPA,
    TEMPERATURE_THRESHOLD_MK,
};
use crate::grid::{mixtures_of, AtmosGrid};
use vstd::prelude::*;

verus! {

broadcast use vstd::array::group_array_axioms;

/// A model that a mixture can have: one mole count per species.
pub open spec fn valid_state(g: GasState) -> bool {
    g.moles.len() == GAS_TYPE_COUNT
}

proof fn lemma_flowed_sums(src: GasState, dst: GasState, quota: int, k: int)
    requires
        valid_state(src),
        valid_state(dst),
        total_of(src) > 0,
        0 <= quota <= total_of(src),
        0 <= k <= GAS_TYPE_COUNT,
    ensures
        moles_sum(flowed(src, dst, quota).0.moles, k) + moles_sum(flowed(src, dst, quota).1.moles, k)
            == moles_sum(src.moles, k) + moles_sum(dst.moles, k),
    decreases k,
{
    if k > 0 {
        lemma_flowed_sums(src, dst, quota, k - 1);
        let i = k - 1;
        lemma_entry_le_sum(src.moles, i, GAS_TYPE_COUNT as int);
        lemma_ratio_share_bounded(src.moles[i] as int, quota, total_of(src));
        assert(0 <= species_move(src, dst, quota, i) <= src.moles[i]);
    }
}

/// Moving gas from `src` to `dst` keeps the total over both.
pub proof fn lemma_flowed_conserves(src: GasState, dst: GasState, quota: int)
    requires
        valid_state(src),
        valid_state(dst),
        total_of(src) > 0,
        0 <= quota <= total_of(src),
    ensures
        total_of(flowed(src, dst, quota).0) + total_of(flowed(src, dst, quota).1) == total_of(src)
            + total_of(dst),
        valid_state(flowed(src, dst, quota).0),
        valid_state(flowed(src, dst, quota).1),
{
    lemma_flowed_sums(src, dst, quota, GAS_TYPE_COUNT as int);
}

/// Conservation: a gas exchange keeps the total micro-moles summed over the two
/// mixtures exactly.
pub proof fn lemma_share_gas_conserves(a: GasState, b: GasState)
    requires
        valid_state(a),
        valid_state(b),
    ensures
        total_of(gas_shared(a, b).0) + total_of(gas_shared(a, b).1) == total_of(a) + total_of(b),
        valid_state(gas_shared(a, b).0),
        valid_state(gas_shared(a, b).1),
{
    let pa = pressure_of(a);
    let pb = pressure_of(b);
    lemma_pressure_nonneg(a);
    lemma_pressure_nonneg(b);
    if abs_int(pa - pb) >= PRESSURE_THRESHOLD_MICRO_KPA {
        if pa > pb {
            lemma_pressure_needs_gas(a);
            let q = transfer_quota(a, pa - pb);
            lemma_quota_in_range(a, pa - pb);
            lemma_flowed_conserves(a, b, q);
        } else {
            lemma_pressure_needs_gas(b);
            let q = transfer_quota(b, pb - pa);
            lemma_quota_in_range(b, pb - pa);
            lemma_flowed_conserves(b, a, q);
        }
    }
}

proof fn lemma_quota_in_range(src: GasState, dp: int)
    requires
        total_of(src) > 0,
        dp > 0,
    ensures
        0 <= transfer_quota(src, dp) <= transfer_cap(src) <= total_of(src),
{
    let den = crate::gas::transfer_denominator(src);
    assert(den >= 83);
    assert(dp * src.volume >= 0) by (nonlinear_arith)
        requires
            dp > 0,
            src.volume >= 0,
    ;
    vstd::arithmetic::div_mod::lemma_div_pos_is_pos(dp * src.volume, den);
}

/// No-op below threshold: mixtures whose pressures differ by less than 0.1 kPa are left
/// exactly as they are by a gas exchange.
pub proof fn lemma_share_gas_noop_below_threshold(a: GasState, b: GasState)
    requires
        abs_int(pressure_of(a) - pressure_of(b)) < PRESSURE_THRESHOLD_MICRO_KPA,
    ensures
        gas_shared(a, b) == (a, b),
{
}

/// No-op below threshold: mixtures whose temperatures differ by less than 0.1 K are left
/// exactly as they are by a heat exchange.
pub proof fn lemma_share_heat_noop_below_threshold(a: GasState, b: GasState)
    requires
        abs_int(a.temperature - b.temperature) < TEMPERATURE_THRESHOLD_MK,
    ensures
        heat_shared(a, b) == (a, b),
{
}

/// Heat convergence: a heat exchange across a differential of 0.1 K or more shrinks the
/// differential to at most 90% of what it was without reversing it; below 0.1 K it
/// changes nothing. No gas moves.
pub proof fn lemma_share_heat_converges(a: GasState, b: GasState)
    ensures
        ({
            let (a2, b2) = heat_shared(a, b);
            let before = a.temperature - b.temperature;
            let after = a2.temperature - b2.temperature;
            &&& abs_int(after) <= abs_int(before)
            &&& (before >= 0) == (after >= 0) || after == 0
            &&& (abs_int(before) >= TEMPERATURE_THRESHOLD_MK && (total_of(a) != 0 || total_of(b)
                != 0)) ==> abs_int(after) < abs_int(before) && 10 * abs_int(after) <= 9 * abs_int(
                before)
            &&& a2.moles == a.moles && b2.moles == b.moles
            &&& abs_int(before) < TEMPERATURE_THRESHOLD_MK ==> (a2, b2) == (a, b)
        }),
{
}

/// Temperature floor: an exchange between mixtures at 1 mK or more leaves both at 1 mK
/// or more, and changes no volume.
pub proof fn lemma_share_keeps_temperature_floor(a: GasState, b: GasState)
    requires
        a.temperature >= 1,
        b.temperature >= 1,
    ensures
        heat_shared(a, b).0.temperature >= 1,
        heat_shared(a, b).1.temperature >= 1,
        gas_shared(a, b).0.temperature >= 1,
        gas_shared(a, b).1.temperature >= 1,
        gas_shared(a, b).0.volume == a.volume,
        gas_shared(a, b).1.volume == b.volume,
{
}

/// Temperature floor over a whole step: when every tile is at 1 mK or more before a
/// diffusion step, every tile is at 1 mK or more after it.
pub proof fn lemma_step_keeps_temperature_floor(g: &AtmosGrid)
    requires
        g.wf(),
        forall|i: int| 0 <= i < g.size() ==> (#[trigger] g.tiles@[i]).mixture.temperature >= 1,
    ensures
        stepped_mixtures(g).len() == g.size(),
        forall|i: int|
            0 <= i < g.size() ==> (#[trigger] stepped_mixtures(g)[i]).temperature >= 1,
{
    lemma_pairs_valid(g, 4 * g.size());
    lemma_apply_keeps_floor(
        mixtures_of(g.tiles@),
        exchange_pairs(g),
        exchange_pairs(g).len() as int,
    );
}

/// Every recorded pair names two distinct tiles of the grid.
pub proof fn lemma_pairs_valid(g: &AtmosGrid, e: int)
    requires
        g.wf(),
        e <= 4 * g.size(),
    ensures
        forall|t: int|
            0 <= t < pairs_upto(g, e).len() ==> (#[trigger] pairs_upto(g, e)[t]).0 < g.size()
                && pairs_upto(g, e)[t].1 < g.size() && pairs_upto(g, e)[t].0 != pairs_upto(
                g,
                e,
            )[t].1,
    decreases e,
{
    if e > 0 {
        lemma_pairs_valid(g, e - 1);
        let i = (e - 1) / 4;
        let d = (e - 1) % 4;
        assert(0 <= i < g.size());
        let prev = pairs_upto(g, e - 1);
        assert forall|t: int| 0 <= t < pairs_upto(g, e).len() implies (#[trigger] pairs_upto(
            g,
            e,
        )[t]).0 < g.size() && pairs_upto(g, e)[t].1 < g.size() && pairs_upto(g, e)[t].0
            != pairs_upto(g, e)[t].1 by {
            if t >= prev.len() {
                assert(pairs_upto(g, e)[t] == (
                i as usize,
                crate::diffusion::link_target(g, i, d),
            ));
            } else {
                assert(pairs_upto(g, e)[t] == prev[t]);
            }
        }
    }
}

proof fn lemma_apply_keeps_floor(ms: Seq<GasState>, pairs: Seq<(usize, usize)>, k: int)
    requires
        0 <= k <= pairs.len(),
        forall|i: int| 0 <= i < ms.len() ==> (#[trigger] ms[i]).temperature >= 1,
        forall|t: int|
            0 <= t < pairs.len() ==> (#[trigger] pairs[t]).0 < ms.len() && pairs[t].1 < ms.len()
                && pairs[t].0 != pairs[t].1,
    ensures
        apply_exchanges(ms, pairs, k).len() == ms.len(),
        forall|i: int|
            0 <= i < ms.len() ==> (#[trigger] apply_exchanges(ms, pairs, k)[i]).temperature >= 1,
    decreases k,
{
    if k > 0 {
        lemma_apply_keeps_floor(ms, pairs, k - 1);
        let prev = apply_exchanges(ms, pairs, k - 1);
        let t = k - 1;
        assert(pairs[t].0 < ms.len());
        lemma_share_keeps_temperature_floor(prev[pairs[t].0 as int], prev[pairs[t].1 as int]);
    }
}

/// A passive grid stays passive: when no tile is active, a diffusion step changes no
/// mixture and leaves every tile passive.
pub proof fn lemma_passive_grid_stays_passive(g: &AtmosGrid)
    requires
        g.wf(),
        forall|i: int| 0 <= i < g.size() ==> !(#[trigger] g.active@[i]),
    ensures
        stepped_mixtures(g) == mixtures_of(g.tiles@),
        forall|j: int| 0 <= j < g.size() ==> !(#[trigger] next_active(g, j)),
{
    lemma_no_pairs_when_passive(g, 4 * g.size());
    assert forall|j: int| 0 <= j < g.size() implies !(#[trigger] next_active(g, j)) by {
        if woken_before(g, j, 4 * g.size()) {
            let s = choose|s: int|
                0 <= s < 4 * g.size() && #[trigger] crate::diffusion::wants_exchange(
                    g,
                    s / 4,
                    s % 4,
                ) && crate::diffusion::link_target(g, s / 4, s % 4) == j;
            assert(g.active@[s / 4]);
        }
    }
}

proof fn lemma_no_pairs_when_passive(g: &AtmosGrid, e: int)
    requires
        g.wf(),
        e <= 4 * g.size(),
        forall|i: int| 0 <= i < g.size() ==> !(#[trigger] g.active@[i]),
    ensures
        pairs_upto(g, e) =~= Seq::<(usize, usize)>::empty(),
    decreases e,
{
    if e > 0 {
        lemma_no_pairs_when_passive(g, e - 1);
        assert(!g.active@[(e - 1) / 4]);
    }
}

/// Total micro-moles over the first `k` mixtures.
pub open spec fn grid_moles(ms: Seq<GasState>, k: int) -> int
    decreases k,
{
    if k <= 0 {
        0
    } else {
        grid_moles(ms, k - 1) + total_of(ms[k - 1])
    }
}

proof fn lemma_grid_moles_update(ms: Seq<GasState>, i: int, x: GasState, k: int)
    requires
        0 <= i < ms.len(),
        0 <= k <= ms.len(),
    ensures
        grid_moles(ms.update(i, x), k) == grid_moles(ms, k) + if i < k {
            total_of(x) - total_of(ms[i])
        } else {
            0
        },
    decreases k,
{
    if k > 0 {
        lemma_grid_moles_update(ms, i, x, k - 1);
    }
}

proof fn lemma_apply_conserves(ms: Seq<GasState>, pairs: Seq<(usize, usize)>, k: int)
    requires
        0 <= k <= pairs.len(),
        forall|i: int| 0 <= i < ms.len() ==> valid_state(#[trigger] ms[i]),
        forall|t: int|
            0 <= t < pairs.len() ==> (#[trigger] pairs[t]).0 < ms.len() && pairs[t].1 < ms.len()
                && pairs[t].0 != pairs[t].1,
    ensures
        apply_exchanges(ms, pairs, k).len() == ms.len(),
        forall|i: int|
            0 <= i < ms.len() ==> valid_state(#[trigger] apply_exchanges(ms, pairs, k)[i]),
        grid_moles(apply_exchanges(ms, pairs, k), ms.len() as int) == grid_moles(ms, ms.len() as int),
    decreases k,
{
    if k > 0 {
        lemma_apply_conserves(ms, pairs, k - 1);
        let prev = apply_exchanges(ms, pairs, k - 1);
        let i = pairs[k - 1].0 as int;
        let j = pairs[k - 1].1 as int;
        let r = gas_shared(prev[i], prev[j]);
        lemma_share_gas_conserves(prev[i], prev[j]);
        let mid = prev.update(i, r.0);
        lemma_grid_moles_update(prev, i, r.0, ms.len() as int);
        lemma_grid_moles_update(mid, j, r.1, ms.len() as int);
        assert(mid[j] == prev[j]);
    }
}

/// A diffusion step keeps the total micro-moles over the whole grid.
pub proof fn lemma_step_conserves_moles(g: &AtmosGrid)
    requires
        g.wf(),
    ensures
        grid_moles(stepped_mixtures(g), g.size()) == grid_moles(mixtures_of(g.tiles@), g.size()),
{
    let ms = mixtures_of(g.tiles@);
    assert forall|i: int| 0 <= i < ms.len() implies valid_state(#[trigger] ms[i]) by {
        assert(g.tiles@[i].mixture.moles@.len() == GAS_TYPE_COUNT);
    }
    lemma_pairs_valid(g, 4 * g.size());
    lemma_apply_conserves(ms, exchange_pairs(g), exchange_pairs(g).len() as int);
}

} // verus!
