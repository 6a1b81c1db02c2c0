//! Pressure convergence of repeated gas exchanges between two like mixtures.
use crate::arith::{lemma_floor_bounds, lemma_ratio_share_bounded};
use crate::gas::{
    abs_int, flowed, gas_shared, heat_shared, TEMPERATURE_THRESHOLD_MK, lemma_entry_le_sum, lemma_pressure_needs_gas,
    lemma_pressure_nonneg, lemma_sum_nonneg, moles_sum, pressure_of, species_ratio, total_of,
    transfer_quota, GasState, GAS_CONSTANT_SCALED, GAS_TYPE_COUNT, PRESSURE_THRESHOLD_MICRO_KPA,
};
use crate::laws::{lemma_share_gas_conserves, lemma_share_heat_converges, valid_state};
use vstd::prelude::*;

verus! {

/// Sum of the first `k` species ratios of `src`, in parts per million.
pub open spec fn ratio_sum(src: GasState, k: int) -> int
    decreases k,
{
    if k <= 0 {
        0
    } else {
        ratio_sum(src, k - 1) + species_ratio(src, k - 1)
    }
}

/// Micro-moles of the first `k` species that a transfer of `quota` moves out of `src`
/// when no receiver overflows.
pub open spec fn share_sum(src: GasState, quota: int, k: int) -> int
    decreases k,
{
    if k <= 0 {
        0
    } else {
        share_sum(src, quota, k - 1) + quota * species_ratio(src, k - 1) / 1_000_000
    }
}

proof fn lemma_ratio_sum_bounds(src: GasState, k: int)
    requires
        valid_state(src),
        total_of(src) > 0,
        0 <= k <= GAS_TYPE_COUNT,
    ensures
        ratio_sum(src, k) >= 0,
        ratio_sum(src, k) * total_of(src) <= 1_000_000 * moles_sum(src.moles, k),
        ratio_sum(src, k) * total_of(src) >= 1_000_000 * moles_sum(src.moles, k) - k * (
        total_of(src) - 1),
    decreases k,
{
    if k > 0 {
        lemma_ratio_sum_bounds(src, k - 1);
        let n = total_of(src);
        let a = src.moles[k - 1] as int;
        let r = species_ratio(src, k - 1);
        let big_r = ratio_sum(src, k - 1);
        lemma_entry_le_sum(src.moles, k - 1, GAS_TYPE_COUNT as int);
        lemma_ratio_share_bounded(a, 0, n);
        lemma_floor_bounds(a * 1_000_000, n);
        assert(n * r <= a * 1_000_000 < n * r + n);
        assert((big_r + r) * n == big_r * n + n * r) by (nonlinear_arith);
        assert(k * (n - 1) == (k - 1) * (n - 1) + (n - 1)) by (nonlinear_arith);
    }
}

proof fn lemma_share_sum_bounds(src: GasState, quota: int, k: int)
    requires
        valid_state(src),
        total_of(src) > 0,
        quota >= 0,
        0 <= k <= GAS_TYPE_COUNT,
    ensures
        1_000_000 * share_sum(src, quota, k) <= quota * ratio_sum(src, k),
        1_000_000 * share_sum(src, quota, k) >= quota * ratio_sum(src, k) - k * 999_999,
    decreases k,
{
    if k > 0 {
        lemma_share_sum_bounds(src, quota, k - 1);
        let r = species_ratio(src, k - 1);
        let big_r = ratio_sum(src, k - 1);
        lemma_entry_le_sum(src.moles, k - 1, GAS_TYPE_COUNT as int);
        lemma_ratio_share_bounded(src.moles[k - 1] as int, 0, total_of(src));
        lemma_floor_bounds(quota * r, 1_000_000);
        assert(quota * (big_r + r) == quota * big_r + quota * r) by (nonlinear_arith);
    }
}

proof fn lemma_flowed_totals(src: GasState, dst: GasState, quota: int, k: int)
    requires
        valid_state(src),
        valid_state(dst),
        total_of(src) > 0,
        0 <= quota <= total_of(src),
        total_of(src) + total_of(dst) <= u64::MAX,
        0 <= k <= GAS_TYPE_COUNT,
    ensures
        moles_sum(flowed(src, dst, quota).0.moles, k) == moles_sum(src.moles, k) - share_sum(
            src,
            quota,
            k,
        ),
        moles_sum(flowed(src, dst, quota).1.moles, k) == moles_sum(dst.moles, k) + share_sum(
            src,
            quota,
            k,
        ),
    decreases k,
{
    if k > 0 {
        lemma_flowed_totals(src, dst, quota, k - 1);
        let i = k - 1;
        lemma_entry_le_sum(src.moles, i, GAS_TYPE_COUNT as int);
        lemma_entry_le_sum(dst.moles, i, GAS_TYPE_COUNT as int);
        lemma_ratio_share_bounded(src.moles[i] as int, quota, total_of(src));
    }
}

/// The conditions under which exchanges between two mixtures are shown to converge:
/// the same volume and temperature, at most 1000 micro-kPa per micro-mole (which holds
/// for a standard tile up to about 300,000 K), and room in 64 bits for the combined
/// moles and for the pressure they would exert in one tile.
pub open spec fn like_mixtures(a: GasState, b: GasState) -> bool {
    &&& valid_state(a)
    &&& valid_state(b)
    &&& a.volume == b.volume
    &&& a.volume > 0
    &&& a.temperature == b.temperature
    &&& a.temperature >= 1
    &&& GAS_CONSTANT_SCALED * a.temperature <= 1_000_000 * a.volume
    &&& total_of(a) + total_of(b) <= u64::MAX
    &&& (total_of(a) + total_of(b)) * (GAS_CONSTANT_SCALED * a.temperature) < u64::MAX * (1000
        * a.volume)
}

proof fn lemma_exact_pressure(g: GasState, n: int, c: int, d: int)
    requires
        valid_state(g),
        g.volume > 0,
        n == total_of(g),
        c == GAS_CONSTANT_SCALED * g.temperature,
        d == 1000 * g.volume,
        n * c < u64::MAX * d,
    ensures
        pressure_of(g) == n * c / d,
        d * pressure_of(g) <= n * c < d * pressure_of(g) + d,
{
    assert(n * GAS_CONSTANT_SCALED * g.temperature == n * c) by (nonlinear_arith)
        requires
            c == GAS_CONSTANT_SCALED * g.temperature,
    ;
    lemma_floor_bounds(n * c, d);
    assert(n * c / d < u64::MAX) by (nonlinear_arith)
        requires
            d * (n * c / d) <= n * c,
            n * c < u64::MAX * d,
            d > 0,
    ;
}

/// One exchange where `a` is the source.
proof fn lemma_source_step(a: GasState, b: GasState)
    requires
        like_mixtures(a, b),
        pressure_of(a) >= pressure_of(b) + PRESSURE_THRESHOLD_MICRO_KPA,
    ensures
        pressure_of(gas_shared(a, b).0) > pressure_of(gas_shared(a, b).1),
        100 * (pressure_of(gas_shared(a, b).0) - pressure_of(gas_shared(a, b).1)) < 98 * (
        pressure_of(a) - pressure_of(b)),
{
    let na = total_of(a);
    let nb = total_of(b);
    let c = GAS_CONSTANT_SCALED * a.temperature;
    let d = 1000 * a.volume;
    let pa = pressure_of(a);
    let pb = pressure_of(b);
    let delta = pa - pb;
    lemma_pressure_nonneg(b);
    lemma_pressure_needs_gas(a);
    lemma_sum_nonneg(b.moles, GAS_TYPE_COUNT as int);
    assert(na * c < u64::MAX * d && nb * c < u64::MAX * d) by (nonlinear_arith)
        requires
            (na + nb) * c < u64::MAX * d,
            na >= 0,
            nb >= 0,
            c > 0,
    ;
    lemma_exact_pressure(a, na, c, d);
    lemma_exact_pressure(b, nb, c, d);
    let q = transfer_quota(a, delta);
    let den = GAS_CONSTANT_SCALED * a.temperature / 100;
    assert(den >= 83);
    lemma_floor_bounds(c, 100);
    assert(100 * den <= c < 100 * den + 100);
    let raw = delta * a.volume / den;
    lemma_floor_bounds(delta * a.volume, den);
    let cap = if na / 10 >= 1 {
        na / 10
    } else {
        1
    };
    lemma_floor_bounds(na, 10);
    assert(q == if raw <= cap {
        raw
    } else {
        cap
    });
    assert(0 <= q <= na);
    // how much actually moves
    let m = share_sum(a, q, GAS_TYPE_COUNT as int);
    lemma_ratio_sum_bounds(a, GAS_TYPE_COUNT as int);
    lemma_share_sum_bounds(a, q, GAS_TYPE_COUNT as int);
    let rs = ratio_sum(a, GAS_TYPE_COUNT as int);
    assert(rs <= 1_000_000 && rs >= 999_994) by (nonlinear_arith)
        requires
            rs * na <= 1_000_000 * na,
            rs * na >= 1_000_000 * na - 7 * (na - 1),
            na > 0,
    ;
    assert(m <= q) by (nonlinear_arith)
        requires
            1_000_000 * m <= q * rs,
            rs <= 1_000_000,
            q >= 0,
    ;
    assert(1_000_000 * m >= 999_994 * q - 7_000_000) by (nonlinear_arith)
        requires
            1_000_000 * m >= q * rs - 7 * 999_999,
            rs >= 999_994,
            q >= 0,
    ;
    // upper bound: 1000 * m * c <= 102 * delta * d
    assert(q * den <= delta * a.volume) by (nonlinear_arith)
        requires
            q <= raw,
            den * raw <= delta * a.volume,
            den > 0,
            q >= 0,
    ;
    assert(q * c <= 100 * (q * den) + 100 * q) by (nonlinear_arith)
        requires
            c < 100 * den + 100,
            q >= 0,
    ;
    assert(83 * q <= q * den) by (nonlinear_arith)
        requires
            den >= 83,
            q >= 0,
    ;
    assert(q * c <= 102 * (delta * a.volume));
    assert(m * c <= q * c) by (nonlinear_arith)
        requires
            m <= q,
            c > 0,
    ;
    // lower bound: m * c >= d
    // lower bound: 100 * m * c >= delta * d + 100 * d
    let mc = m * c;
    let qc = q * c;
    let dd = delta * d;
    let nc = na * c;
    let nbc = nb * c;
    assert(1_000_000 * mc >= 999_994 * qc - 7_000_000 * c) by (nonlinear_arith)
        requires
            1_000_000 * m >= 999_994 * q - 7_000_000,
            c > 0,
            mc == m * c,
            qc == q * c,
    ;
    assert(dd == 1000 * (delta * a.volume)) by (nonlinear_arith)
        requires
            dd == delta * d,
            d == 1000 * a.volume,
    ;
    assert(dd >= 100_000 * d) by (nonlinear_arith)
        requires
            dd == delta * d,
            delta >= 100_000,
            d > 0,
    ;
    assert(1000 * mc <= 102 * dd) by (nonlinear_arith)
        requires
            mc == m * c,
            m * c <= q * c,
            q * c <= 102 * (delta * a.volume),
            dd == 1000 * (delta * a.volume),
    ;
    assert(c <= 1000 * d);
    if raw <= cap {
        assert(den * (q + 1) == den * q + den) by (nonlinear_arith);
        assert(q == raw);
        assert(delta * a.volume < den * raw + den);
        assert(100 * (delta * a.volume) < 100 * (den * (q + 1)));
        assert(100 * (den * (q + 1)) <= c * (q + 1)) by (nonlinear_arith)
            requires
                100 * den <= c,
                q >= 0,
        ;
        assert(c * (q + 1) == qc + c) by (nonlinear_arith)
            requires
                qc == q * c,
        ;
        assert(qc > 100 * (delta * a.volume) - c);
        assert(100 * mc >= dd + 100 * d);
    } else {
        assert(d * pa <= na * c);
        assert(nc >= dd) by (nonlinear_arith)
            requires
                d * pa <= na * c,
                nc == na * c,
                dd == delta * d,
                pa >= delta,
                d > 0,
        ;
        assert(10 * qc >= nc - 9 * c) by (nonlinear_arith)
            requires
                10 * q >= na - 9,
                c > 0,
                qc == q * c,
                nc == na * c,
        ;
        assert(100 * mc >= dd + 100 * d);
    }
    assert(mc >= d);
    assert(m >= 1) by (nonlinear_arith)
        requires
            mc == m * c,
            mc >= d,
            d > 0,
            c > 0,
    ;
    assert(q != 0);
    // the new totals and pressures
    lemma_flowed_totals(a, b, q, GAS_TYPE_COUNT as int);
    let f = flowed(a, b, q);
    assert(gas_shared(a, b) == f);
    assert(valid_state(f.0) && valid_state(f.1));
    assert(total_of(f.0) == na - m && total_of(f.1) == nb + m);
    assert((na - m) * c < u64::MAX * d && (nb + m) * c < u64::MAX * d) by (nonlinear_arith)
        requires
            (na + nb) * c < u64::MAX * d,
            0 <= m <= na,
            nb >= 0,
            c > 0,
    ;
    lemma_exact_pressure(f.0, na - m, c, d);
    lemma_exact_pressure(f.1, nb + m, c, d);
    let pa2 = pressure_of(f.0);
    let pb2 = pressure_of(f.1);
    assert((na - m) * c == nc - mc && (nb + m) * c == nbc + mc) by (nonlinear_arith)
        requires
            nc == na * c,
            nbc == nb * c,
            mc == m * c,
    ;
    assert(d * (pa2 - pb2) == d * pa2 - d * pb2 && dd == d * pa - d * pb) by (nonlinear_arith)
        requires
            dd == delta * d,
            delta == pa - pb,
    ;
    assert(d * (pa2 - pb2) < dd + 2 * d - 2 * mc);
    assert(d * (pa2 - pb2) > dd - 2 * d - 2 * mc);
    assert(100 * (pa2 - pb2) < 98 * delta && pa2 - pb2 > 0) by (nonlinear_arith)
        requires
            d * (pa2 - pb2) < dd + 2 * d - 2 * mc,
            d * (pa2 - pb2) > dd - 2 * d - 2 * mc,
            100 * mc >= dd + 100 * d,
            1000 * mc <= 102 * dd,
            dd >= 100_000 * d,
            dd == delta * d,
            d > 0,
    ;
}

/// Monotone convergence: between like mixtures (see `like_mixtures`), an exchange
/// across a pressure differential of 0.1 kPa or more shrinks the differential to less
/// than 98% of what it was without reversing it (the higher side stays higher), and one
/// below the threshold changes nothing; the mixtures stay like.
pub proof fn lemma_share_gas_converges(a: GasState, b: GasState)
    requires
        like_mixtures(a, b),
    ensures
        ({
            let (a2, b2) = gas_shared(a, b);
            let before = abs_int(pressure_of(a) - pressure_of(b));
            let after = abs_int(pressure_of(a2) - pressure_of(b2));
            &&& like_mixtures(a2, b2)
            &&& before >= PRESSURE_THRESHOLD_MICRO_KPA ==> after < before && 100 * after < 98
                * before
            &&& before >= PRESSURE_THRESHOLD_MICRO_KPA && pressure_of(a) > pressure_of(b)
                ==> pressure_of(a2) > pressure_of(b2)
            &&& before >= PRESSURE_THRESHOLD_MICRO_KPA && pressure_of(a) < pressure_of(b)
                ==> pressure_of(a2) < pressure_of(b2)
            &&& before < PRESSURE_THRESHOLD_MICRO_KPA ==> (a2, b2) == (a, b)
        }),
{
    let pa = pressure_of(a);
    let pb = pressure_of(b);
    lemma_share_gas_conserves(a, b);
    if abs_int(pa - pb) >= PRESSURE_THRESHOLD_MICRO_KPA {
        lemma_pressure_nonneg(a);
        lemma_pressure_nonneg(b);
        if pa > pb {
            lemma_source_step(a, b);
        } else {
            assert(like_mixtures(b, a));
            lemma_source_step(b, a);
            assert(gas_shared(a, b).0 == gas_shared(b, a).1);
        }
    }
}

/// The two mixtures after `k` gas exchanges.
pub open spec fn shared_repeatedly(a: GasState, b: GasState, k: nat) -> (GasState, GasState)
    decreases k,
{
    if k == 0 {
        (a, b)
    } else {
        let prev = shared_repeatedly(a, b, (k - 1) as nat);
        gas_shared(prev.0, prev.1)
    }
}

/// Absolute pressure differential of a pair.
pub open spec fn differential(pair: (GasState, GasState)) -> int {
    abs_int(pressure_of(pair.0) - pressure_of(pair.1))
}

/// `base` raised to the power `e`.
pub open spec fn power_of(base: int, e: nat) -> int
    decreases e,
{
    if e == 0 {
        1
    } else {
        base * power_of(base, (e - 1) as nat)
    }
}

proof fn lemma_power_positive(base: int, e: nat)
    requires
        base > 0,
    ensures
        power_of(base, e) > 0,
    decreases e,
{
    if e > 0 {
        lemma_power_positive(base, (e - 1) as nat);
        assert(base * power_of(base, (e - 1) as nat) > 0) by (nonlinear_arith)
            requires
                base > 0,
                power_of(base, (e - 1) as nat) > 0,
        ;
    }
}

/// Monotone convergence over repeated exchanges between like mixtures: while the
/// differential is 0.1 kPa or more each exchange shrinks it strictly, so after `k`
/// exchanges it is under the threshold or at most `(98/100)^k` of the initial
/// differential (the threshold is reached after a number of exchanges logarithmic in
/// the initial differential); the higher side never becomes the lower one; and once
/// under the threshold, further exchanges change nothing.
pub proof fn lemma_repeated_sharing_converges(a: GasState, b: GasState, k: nat)
    requires
        like_mixtures(a, b),
    ensures
        like_mixtures(shared_repeatedly(a, b, k).0, shared_repeatedly(a, b, k).1),
        differential(shared_repeatedly(a, b, k)) >= PRESSURE_THRESHOLD_MICRO_KPA ==> differential(
            shared_repeatedly(a, b, k + 1),
        ) < differential(shared_repeatedly(a, b, k)),
        differential(shared_repeatedly(a, b, k)) < PRESSURE_THRESHOLD_MICRO_KPA ==> shared_repeatedly(
            a,
            b,
            k + 1,
        ) == shared_repeatedly(a, b, k),
        differential(shared_repeatedly(a, b, k)) < PRESSURE_THRESHOLD_MICRO_KPA || power_of(100, k)
            * differential(shared_repeatedly(a, b, k)) <= power_of(98, k) * differential((a, b)),
        pressure_of(a) >= pressure_of(b) ==> pressure_of(shared_repeatedly(a, b, k).0)
            >= pressure_of(shared_repeatedly(a, b, k).1),
        pressure_of(a) <= pressure_of(b) ==> pressure_of(shared_repeatedly(a, b, k).0)
            <= pressure_of(shared_repeatedly(a, b, k).1),
    decreases k,
{
    let cur = shared_repeatedly(a, b, k);
    if k > 0 {
        lemma_repeated_sharing_converges(a, b, (k - 1) as nat);
        let prev = shared_repeatedly(a, b, (k - 1) as nat);
        lemma_share_gas_converges(prev.0, prev.1);
        assert(cur == gas_shared(prev.0, prev.1));
        if differential(prev) < PRESSURE_THRESHOLD_MICRO_KPA {
            assert(cur == prev);
        } else {
            let p100 = power_of(100, (k - 1) as nat);
            let p98 = power_of(98, (k - 1) as nat);
            let dk = differential(cur);
            let dp = differential(prev);
            let d0 = differential((a, b));
            lemma_power_positive(100, (k - 1) as nat);
            assert(power_of(100, k) == 100 * p100 && power_of(98, k) == 98 * p98);
            assert(100 * p100 * dk <= 98 * p98 * d0) by (nonlinear_arith)
                requires
                    100 * dk < 98 * dp,
                    p100 * dp <= p98 * d0,
                    p100 > 0,
                    dk >= 0,
            ;
        }
    } else {
        assert(cur == (a, b));
    }
    lemma_share_gas_converges(cur.0, cur.1);
    assert(shared_repeatedly(a, b, k + 1) == gas_shared(cur.0, cur.1));
}

/// The two mixtures after `k` heat exchanges.
pub open spec fn heated_repeatedly(a: GasState, b: GasState, k: nat) -> (GasState, GasState)
    decreases k,
{
    if k == 0 {
        (a, b)
    } else {
        let prev = heated_repeatedly(a, b, (k - 1) as nat);
        heat_shared(prev.0, prev.1)
    }
}

/// Absolute temperature differential of a pair.
pub open spec fn temperature_gap(pair: (GasState, GasState)) -> int {
    abs_int(pair.0.temperature - pair.1.temperature)
}

/// Heat convergence over repeated exchanges, when at least one side holds gas: while the
/// differential is 0.1 K or more each exchange shrinks it strictly, so after `k`
/// exchanges it is under the threshold or at most `(9/10)^k` of the initial differential
/// (the threshold is reached after a number of exchanges logarithmic in the initial
/// differential); once under the threshold, further exchanges change nothing.
pub proof fn lemma_repeated_heating_converges(a: GasState, b: GasState, k: nat)
    requires
        total_of(a) != 0 || total_of(b) != 0,
    ensures
        heated_repeatedly(a, b, k).0.moles == a.moles,
        heated_repeatedly(a, b, k).1.moles == b.moles,
        temperature_gap(heated_repeatedly(a, b, k)) >= TEMPERATURE_THRESHOLD_MK ==> temperature_gap(
            heated_repeatedly(a, b, k + 1),
        ) < temperature_gap(heated_repeatedly(a, b, k)),
        temperature_gap(heated_repeatedly(a, b, k)) < TEMPERATURE_THRESHOLD_MK ==> heated_repeatedly(
            a,
            b,
            k + 1,
        ) == heated_repeatedly(a, b, k),
        temperature_gap(heated_repeatedly(a, b, k)) < TEMPERATURE_THRESHOLD_MK || power_of(10, k)
            * temperature_gap(heated_repeatedly(a, b, k)) <= power_of(9, k) * temperature_gap(
            (a, b),
        ),
    decreases k,
{
    let cur = heated_repeatedly(a, b, k);
    if k > 0 {
        lemma_repeated_heating_converges(a, b, (k - 1) as nat);
        let prev = heated_repeatedly(a, b, (k - 1) as nat);
        lemma_share_heat_converges(prev.0, prev.1);
        assert(cur == heat_shared(prev.0, prev.1));
        assert(total_of(prev.0) == total_of(a) && total_of(prev.1) == total_of(b));
        if temperature_gap(prev) < TEMPERATURE_THRESHOLD_MK {
            assert(cur == prev);
        } else {
            let p10 = power_of(10, (k - 1) as nat);
            let p9 = power_of(9, (k - 1) as nat);
            let dk = temperature_gap(cur);
            let dp = temperature_gap(prev);
            let d0 = temperature_gap((a, b));
            lemma_power_positive(10, (k - 1) as nat);
            assert(power_of(10, k) == 10 * p10 && power_of(9, k) == 9 * p9);
            assert(10 * p10 * dk <= 9 * p9 * d0) by (nonlinear_arith)
                requires
                    10 * dk <= 9 * dp,
                    p10 * dp <= p9 * d0,
                    p10 > 0,
                    dk >= 0,
            ;
        }
    } else {
        assert(cur == (a, b));
    }
    assert(total_of(cur.0) == total_of(a) && total_of(cur.1) == total_of(b));
    lemma_share_heat_converges(cur.0, cur.1);
    assert(heated_repeatedly(a, b, k + 1) == heat_shared(cur.0, cur.1));
}

} // verus!
