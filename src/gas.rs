//! Per-tile gas mixture: fixed-point mole counts, temperature and volume.
use crate::arith::{lemma_div_at_least, lemma_div_shift, lemma_ratio_share_bounded};
use vstd::arithmetic::div_mod::{lemma_div_is_ordered, lemma_fundamental_div_mod};
use vstd::prelude::*;

verus! {

broadcast use vstd::array::group_array_axioms;

/// Number of tracked gas species.
pub const GAS_TYPE_COUNT: usize = 7;

/// Ideal gas constant, scaled so that micro-moles, milli-Kelvin and micro-cubic-meters
/// give micro-kPa after dividing by one thousand.
pub const GAS_CONSTANT_SCALED: u64 = 8314;

/// Pressure differential (micro-kPa) below which two mixtures do not exchange gas.
pub const PRESSURE_THRESHOLD_MICRO_KPA: u64 = 100_000;

/// Temperature differential (milli-Kelvin) below which two mixtures do not exchange heat.
pub const TEMPERATURE_THRESHOLD_MK: u64 = 100;

/// A single gas exchange moves at most this fraction (one over it) of the source's moles.
pub const TRANSFER_CLAMP_DIVISOR: u64 = 10;

/// A single heat exchange moves this fraction (one over it) of the temperature differential.
pub const HEAT_RELAXATION_DIVISOR: u64 = 10;

/// Lowest temperature a heat exchange can leave behind.
pub const MIN_TEMPERATURE_MK: u64 = 1;

pub const MICROMOLES_PER_MOLE: u64 = 1_000_000;

pub const MILLIKELVIN_PER_KELVIN: u64 = 1_000;

pub const MICRO_M3_PER_M3: u64 = 1_000_000;

/// 101.325 kPa.
pub const STANDARD_PRESSURE_MICRO_KPA: u64 = 101_325_000;

/// 20 degrees Celsius.
pub const STANDARD_TEMP_MK: u64 = 293_150;

/// 2.5 cubic meters per tile.
pub const STANDARD_VOLUME_MICRO_M3: u64 = 2_500_000;

/// Parts-per-million scale used to split a transfer across species.
pub const RATIO_SCALE: u128 = 1_000_000;

/// The gas species; each has a fixed slot in a mixture's mole array.
#[derive(Debug, Clone, Copy, PartialEq, Eq, Hash, Structural)]
pub enum GasType {
    Oxygen,
    Nitrogen,
    CarbonDioxide,
    Plasma,
    NitrousOxide,
    WaterVapor,
    Tritium,
}

impl GasType {
    pub open spec fn slot(self) -> int {
        match self {
            GasType::Oxygen => 0,
            GasType::Nitrogen => 1,
            GasType::CarbonDioxide => 2,
            GasType::Plasma => 3,
            GasType::NitrousOxide => 4,
            GasType::WaterVapor => 5,
            GasType::Tritium => 6,
        }
    }

    /// The species' slot in the mole array.
    pub fn index(self) -> (r: usize)
        ensures
            r == self.slot(),
            r < GAS_TYPE_COUNT,
    {
        match self {
            GasType::Oxygen => 0,
            GasType::Nitrogen => 1,
            GasType::CarbonDioxide => 2,
            GasType::Plasma => 3,
            GasType::NitrousOxide => 4,
            GasType::WaterVapor => 5,
            GasType::Tritium => 6,
        }
    }
}

/// Mathematical model of a mixture.
pub struct GasState {
    pub moles: Seq<u64>,
    pub temperature: u64,
    pub volume: u64,
}

/// Gas held by one tile.
#[derive(Debug, Clone, Copy)]
pub struct GasMixture {
    /// Micro-moles of each species, indexed by `GasType::index`.
    pub moles: [u64; GAS_TYPE_COUNT],
    /// Milli-Kelvin.
    pub temperature: u64,
    /// Micro-cubic-meters.
    pub volume: u64,
}

impl View for GasMixture {
    type V = GasState;

    open spec fn view(&self) -> GasState {
        GasState { moles: self.moles@, temperature: self.temperature, volume: self.volume }
    }
}

pub open spec fn min_int(a: int, b: int) -> int {
    if a <= b {
        a
    } else {
        b
    }
}

pub open spec fn max_int(a: int, b: int) -> int {
    if a >= b {
        a
    } else {
        b
    }
}

pub open spec fn abs_int(a: int) -> int {
    if a >= 0 {
        a
    } else {
        -a
    }
}

/// Division rounding toward zero.
pub open spec fn trunc_div(x: int, d: int) -> int {
    if x >= 0 {
        x / d
    } else {
        -((-x) / d)
    }
}

/// Sum of the first `k` entries.
pub open spec fn moles_sum(s: Seq<u64>, k: int) -> int
    decreases k,
{
    if k <= 0 {
        0
    } else {
        moles_sum(s, k - 1) + s[k - 1]
    }
}

/// Total micro-moles over all species.
pub open spec fn total_of(g: GasState) -> int {
    moles_sum(g.moles, GAS_TYPE_COUNT as int)
}

/// Ideal-gas pressure `n * R * T / (1000 * V)` in micro-kPa, rounded down and capped
/// at the largest `u64`; zero when the volume is zero.
pub open spec fn pressure_of(g: GasState) -> int {
    if g.volume == 0 {
        0
    } else {
        min_int(
            total_of(g) * GAS_CONSTANT_SCALED * g.temperature / (1000 * g.volume),
            u64::MAX as int,
        )
    }
}

/// A mixture with the given volume and temperature and no gas.
pub open spec fn empty_state(volume: u64, temperature: u64) -> GasState {
    GasState { moles: Seq::new(GAS_TYPE_COUNT as nat, |i: int| 0u64), temperature, volume }
}

/// Micro-moles that give standard pressure at the given volume and temperature.
pub open spec fn air_total(volume: u64, temperature: u64) -> int {
    STANDARD_PRESSURE_MICRO_KPA * volume * 1000 / (GAS_CONSTANT_SCALED * temperature)
}

/// Percentage of standard air held by each species.
pub open spec fn air_percent(slot: int) -> int {
    if slot == 1 {
        78
    } else if slot == 0 {
        21
    } else if slot == 2 {
        1
    } else {
        0
    }
}

/// Standard air: 78% nitrogen, 21% oxygen, 1% carbon dioxide of `air_total`, each part
/// rounded down (and capped at the largest `u64`).
pub open spec fn air_state(volume: u64, temperature: u64) -> GasState {
    GasState {
        moles: Seq::new(
            GAS_TYPE_COUNT as nat,
            |i: int|
                min_int(air_total(volume, temperature) * air_percent(i) / 100, u64::MAX as int) as u64,
        ),
        temperature,
        volume,
    }
}

/// Outcome of a heat exchange: when at least one side holds gas and the temperatures
/// differ by the threshold or more, a tenth of the differential (rounded toward zero)
/// moves from the hotter to the colder side, neither side going below the minimum.
pub open spec fn heat_shared(a: GasState, b: GasState) -> (GasState, GasState) {
    let dt = a.temperature - b.temperature;
    if (total_of(a) == 0 && total_of(b) == 0) || abs_int(dt) < TEMPERATURE_THRESHOLD_MK {
        (a, b)
    } else {
        let h = trunc_div(dt, HEAT_RELAXATION_DIVISOR as int);
        (
            GasState {
                moles: a.moles,
                temperature: max_int(a.temperature - h, MIN_TEMPERATURE_MK as int) as u64,
                volume: a.volume,
            },
            GasState {
                moles: b.moles,
                temperature: max_int(b.temperature + h, MIN_TEMPERATURE_MK as int) as u64,
                volume: b.volume,
            },
        )
    }
}

/// Scaled gas-constant denominator of the transfer formula.
pub open spec fn transfer_denominator(src: GasState) -> int {
    GAS_CONSTANT_SCALED * max_int(src.temperature as int, 1) / 100
}

/// Most micro-moles a source gives in one exchange: a tenth of its total, at least one.
pub open spec fn transfer_cap(src: GasState) -> int {
    max_int(total_of(src) / TRANSFER_CLAMP_DIVISOR as int, 1)
}

/// Micro-moles a source gives for pressure differential `dp`: proportional to `dp` and
/// the source volume, inversely to its temperature, clamped to `transfer_cap`.
pub open spec fn transfer_quota(src: GasState, dp: int) -> int {
    min_int(dp * src.volume / transfer_denominator(src), transfer_cap(src))
}

/// Share of species `i` in the source, in parts per million.
pub open spec fn species_ratio(src: GasState, i: int) -> int {
    src.moles[i] * (RATIO_SCALE as int) / total_of(src)
}

/// Micro-moles of species `i` that move from `src` to `dst` for a transfer of `quota`:
/// the species' share of the quota, capped so the receiver does not overflow.
pub open spec fn species_move(src: GasState, dst: GasState, quota: int, i: int) -> int {
    min_int(quota * species_ratio(src, i) / (RATIO_SCALE as int), u64::MAX - dst.moles[i])
}

/// The two mixtures after `src` gives `quota` micro-moles to `dst`, split across species
/// by the source's composition.
pub open spec fn flowed(src: GasState, dst: GasState, quota: int) -> (GasState, GasState) {
    (
        GasState {
            moles: Seq::new(
                GAS_TYPE_COUNT as nat,
                |i: int| (src.moles[i] - species_move(src, dst, quota, i)) as u64,
            ),
            temperature: src.temperature,
            volume: src.volume,
        },
        GasState {
            moles: Seq::new(
                GAS_TYPE_COUNT as nat,
                |i: int| (dst.moles[i] + species_move(src, dst, quota, i)) as u64,
            ),
            temperature: dst.temperature,
            volume: dst.volume,
        },
    )
}

/// Outcome of a gas exchange between `a` and `b`. Below the pressure threshold nothing
/// changes. Otherwise the higher-pressure side is the source: it gives its
/// `transfer_quota` to the other side (which may round down to nothing), and then the
/// two exchange heat.
pub open spec fn gas_shared(a: GasState, b: GasState) -> (GasState, GasState) {
    let pa = pressure_of(a);
    let pb = pressure_of(b);
    if abs_int(pa - pb) < PRESSURE_THRESHOLD_MICRO_KPA {
        (a, b)
    } else if pa > pb {
        let q = transfer_quota(a, pa - pb);
        heat_shared(flowed(a, b, q).0, flowed(a, b, q).1)
    } else {
        let q = transfer_quota(b, pb - pa);
        heat_shared(flowed(b, a, q).1, flowed(b, a, q).0)
    }
}

/// Each entry is at most the running sum that includes it.
pub proof fn lemma_entry_le_sum(s: Seq<u64>, j: int, k: int)
    requires
        0 <= j < k <= s.len(),
    ensures
        s[j] <= moles_sum(s, k),
    decreases k,
{
    if j < k - 1 {
        lemma_entry_le_sum(s, j, k - 1);
    }
    lemma_sum_nonneg(s, k - 1);
}

pub proof fn lemma_sum_nonneg(s: Seq<u64>, k: int)
    ensures
        moles_sum(s, k) >= 0,
    decreases k,
{
    if k > 0 {
        lemma_sum_nonneg(s, k - 1);
    }
}

pub proof fn lemma_sum_bound(s: Seq<u64>, k: int)
    requires
        0 <= k,
    ensures
        moles_sum(s, k) <= k * u64::MAX,
    decreases k,
{
    if k > 0 {
        lemma_sum_bound(s, k - 1);
    }
}

pub proof fn lemma_pressure_nonneg(g: GasState)
    ensures
        pressure_of(g) >= 0,
{
    lemma_sum_nonneg(g.moles, GAS_TYPE_COUNT as int);
    if g.volume != 0 {
        let n = total_of(g);
        assert(n * GAS_CONSTANT_SCALED * g.temperature >= 0) by (nonlinear_arith)
            requires
                n >= 0,
                g.temperature >= 0,
        ;
        vstd::arithmetic::div_mod::lemma_div_pos_is_pos(
            n * GAS_CONSTANT_SCALED * g.temperature,
            1000 * g.volume,
        );
    }
}

/// A mixture under pressure holds gas.
pub proof fn lemma_pressure_needs_gas(g: GasState)
    requires
        pressure_of(g) > 0,
    ensures
        total_of(g) > 0,
{
    lemma_sum_nonneg(g.moles, GAS_TYPE_COUNT as int);
    if total_of(g) == 0 {
        let n = total_of(g);
        assert(n * GAS_CONSTANT_SCALED * g.temperature == 0) by (nonlinear_arith)
            requires
                n == 0,
        ;
        if g.volume != 0 {
            assert((1000 * g.volume) > 0);
            assert(0int / (1000 * g.volume) == 0);
        }
    }
}

/// `min(a * t / d, u64::MAX)` without overflowing 128 bits on the way.
fn scaled_quotient(a: u128, t: u64, d: u128) -> (r: u64)
    requires
        0 < d < 0x4000_0000_0000_0000_0000,
        a < 0x2_0000_0000_0000_0000_0000,
    ensures
        r == min_int(a * t / (d as int), u64::MAX as int),
{
    let q1: u128 = a / d;
    let r1: u128 = a % d;
    proof {
        lemma_fundamental_div_mod(a as int, d as int);
        lemma_div_is_ordered(0, a as int, d as int);
    }
    if q1 > 0 && (t as u128) > (u64::MAX as u128) / q1 {
        proof {
            let m = u64::MAX as int / q1 as int;
            lemma_fundamental_div_mod(u64::MAX as int, q1 as int);
            assert(q1 * t > u64::MAX) by (nonlinear_arith)
                requires
                    t >= m + 1,
                    q1 > 0,
                    u64::MAX as int == q1 * m + (u64::MAX as int) % (q1 as int),
                    (u64::MAX as int) % (q1 as int) < q1,
            ;
            assert(a * t == (q1 * t) * d + r1 * t) by (nonlinear_arith)
                requires
                    a == d * q1 + r1,
            ;
            assert(r1 * t >= 0) by (nonlinear_arith)
                requires
                    r1 >= 0,
                    t >= 0,
            ;
            lemma_div_at_least(q1 * t, a * t, d as int);
        }
        return u64::MAX;
    }
    proof {
        if q1 > 0 {
            let m = u64::MAX as int / q1 as int;
            lemma_fundamental_div_mod(u64::MAX as int, q1 as int);
            assert(q1 * t <= u64::MAX) by (nonlinear_arith)
                requires
                    t <= m,
                    q1 > 0,
                    u64::MAX as int == q1 * m + (u64::MAX as int) % (q1 as int),
                    (u64::MAX as int) % (q1 as int) >= 0,
            ;
        }
    }
    let hi: u128 = q1 * (t as u128);
    let th: u128 = (t as u128) / 0x1_0000_0000;
    let tl: u128 = (t as u128) % 0x1_0000_0000;
    assert(r1 * th < 0x4000_0000_0000_0000_0000 * 0x1_0000_0000) by (nonlinear_arith)
        requires
            r1 < 0x4000_0000_0000_0000_0000,
            th < 0x1_0000_0000,
            0 <= r1,
            0 <= th,
    ;
    let x: u128 = r1 * th;
    let q2: u128 = x / d;
    let r2: u128 = x % d;
    proof {
        lemma_fundamental_div_mod(x as int, d as int);
        assert(x < d * 0x1_0000_0000) by (nonlinear_arith)
            requires
                x == r1 * th,
                r1 < d,
                th < 0x1_0000_0000,
                0 <= th,
        ;
        assert(q2 < 0x1_0000_0000) by (nonlinear_arith)
            requires
                x == d * q2 + r2,
                0 <= r2,
                x < d * 0x1_0000_0000,
                d > 0,
        ;
        assert(r1 * tl < 0x4000_0000_0000_0000_0000 * 0x1_0000_0000) by (nonlinear_arith)
            requires
                r1 < 0x4000_0000_0000_0000_0000,
                tl < 0x1_0000_0000,
                0 <= r1,
                0 <= tl,
        ;
    }
    let y: u128 = r2 * 0x1_0000_0000 + r1 * tl;
    let lo: u128 = q2 * 0x1_0000_0000 + y / d;
    proof {
        // a * t == hi * d + r1 * t, and r1 * t == (q2 * 2^32) * d + y
        assert(t == th * 0x1_0000_0000 + tl);
        assert(a * t == hi * d + r1 * t) by (nonlinear_arith)
            requires
                a == d * q1 + r1,
                hi == q1 * t,
        ;
        assert(r1 * t == (q2 * 0x1_0000_0000) * d + y) by (nonlinear_arith)
            requires
                t == th * 0x1_0000_0000 + tl,
                x == r1 * th,
                x == d * q2 + r2,
                y == r2 * 0x1_0000_0000 + r1 * tl,
        ;
        assert(y >= 0);
        lemma_div_shift(q2 * 0x1_0000_0000, y as int, d as int);
        assert(r1 * t >= 0) by (nonlinear_arith)
            requires
                r1 >= 0,
                t >= 0,
        ;
        lemma_div_shift(hi as int, r1 * t, d as int);
    }
    let total: u128 = hi + lo;
    if total > u64::MAX as u128 {
        u64::MAX
    } else {
        total as u64
    }
}

impl GasMixture {
    /// A mixture with no gas.
    pub fn new(volume: u64, temperature: u64) -> (r: Self)
        ensures
            r@ == empty_state(volume, temperature),
    {
        let r = GasMixture { moles: [0u64; GAS_TYPE_COUNT], temperature, volume };
        assert(r.moles@ =~= empty_state(volume, temperature).moles);
        r
    }

    /// Total micro-moles as a 128-bit value, which cannot overflow.
    pub fn total_moles_wide(&self) -> (r: u128)
        ensures
            r == total_of(self@),
    {
        let mut sum: u128 = 0;
        let mut i: usize = 0;
        while i < GAS_TYPE_COUNT
            invariant
                0 <= i <= GAS_TYPE_COUNT,
                sum == moles_sum(self.moles@, i as int),
            decreases GAS_TYPE_COUNT - i,
        {
            proof {
                lemma_sum_bound(self.moles@, i as int);
            }
            sum = sum + self.moles[i] as u128;
            i = i + 1;
        }
        sum
    }

    /// Total micro-moles, capped at the largest `u64`.
    pub fn total_moles(&self) -> (r: u64)
        ensures
            r == min_int(total_of(self@), u64::MAX as int),
    {
        let t = self.total_moles_wide();
        if t > u64::MAX as u128 {
            u64::MAX
        } else {
            t as u64
        }
    }

    /// Pressure in micro-kPa.
    pub fn pressure(&self) -> (r: u64)
        ensures
            r == pressure_of(self@),
    {
        if self.volume == 0 {
            return 0;
        }
        let n = self.total_moles_wide();
        proof {
            lemma_sum_bound(self.moles@, GAS_TYPE_COUNT as int);
            assert(n <= 7 * u64::MAX);
        }
        let r_scaled: u128 = GAS_CONSTANT_SCALED as u128;
        assert(r_scaled == 8314);
        let a: u128 = n * r_scaled;
        let d: u128 = 1000 * (self.volume as u128);
        scaled_quotient(a, self.temperature, d)
    }

    /// Standard air at the given volume and temperature: the micro-moles that give
    /// standard pressure, split 78% / 21% / 1% over nitrogen, oxygen and carbon dioxide.
    pub fn new_air(volume: u64, temperature: u64) -> (r: Self)
        requires
            temperature > 0,
        ensures
            r@ == air_state(volume, temperature),
    {
        let mut mixture = Self::new(volume, temperature);
        let pressure_micro_kpa: u128 = STANDARD_PRESSURE_MICRO_KPA as u128;
        let r_scaled: u128 = GAS_CONSTANT_SCALED as u128;
        assert(pressure_micro_kpa * volume * 1000 <= 101_325_000 * u64::MAX * 1000) by (nonlinear_arith)
            requires
                pressure_micro_kpa == 101_325_000,
                volume <= u64::MAX,
        ;
        assert(r_scaled * temperature <= 8314 * u64::MAX) by (nonlinear_arith)
            requires
                r_scaled == 8314,
                temperature <= u64::MAX,
        ;
        let total_micromoles: u128 = (pressure_micro_kpa * (volume as u128) * 1000) / (r_scaled
            * (temperature as u128));
        mixture.moles[GasType::Nitrogen.index()] = saturate_u64((total_micromoles * 78) / 100);
        mixture.moles[GasType::Oxygen.index()] = saturate_u64((total_micromoles * 21) / 100);
        mixture.moles[GasType::CarbonDioxide.index()] = saturate_u64((total_micromoles * 1) / 100);
        assert(mixture.moles@ =~= air_state(volume, temperature).moles);
        mixture
    }

    /// Micro-moles of one species.
    pub fn get_moles(&self, gas_type: GasType) -> (r: u64)
        ensures
            r == self.moles@[gas_type.slot()],
    {
        self.moles[gas_type.index()]
    }

    /// Adds micro-moles of one species, saturating at the largest `u64`.
    pub fn add_moles(&mut self, gas_type: GasType, amount: u64)
        ensures
            final(self).moles@ == old(self).moles@.update(
                gas_type.slot(),
                min_int(old(self).moles@[gas_type.slot()] + amount, u64::MAX as int) as u64,
            ),
            final(self).temperature == old(self).temperature,
            final(self).volume == old(self).volume,
    {
        let k = gas_type.index();
        self.moles[k] = self.moles[k].saturating_add(amount);
    }

    /// Removes micro-moles of one species, saturating at zero.
    pub fn remove_moles(&mut self, gas_type: GasType, amount: u64)
        ensures
            final(self).moles@ == old(self).moles@.update(
                gas_type.slot(),
                max_int(old(self).moles@[gas_type.slot()] - amount, 0) as u64,
            ),
            final(self).temperature == old(self).temperature,
            final(self).volume == old(self).volume,
    {
        let k = gas_type.index();
        self.moles[k] = self.moles[k].saturating_sub(amount);
    }

    /// Micro-moles this mixture gives, as the source, for pressure differential `dp`.
    fn quota_for(&self, dp: u64) -> (r: u128)
        ensures
            r == transfer_quota(self@, dp as int),
            r <= transfer_cap(self@),
    {
        let t: u64 = if self.temperature == 0 {
            1
        } else {
            self.temperature
        };
        let r_scaled: u128 = GAS_CONSTANT_SCALED as u128;
        let den: u128 = (r_scaled * (t as u128)) / 100;
        assert((dp as u128) * (self.volume as u128) <= u64::MAX * u64::MAX) by (nonlinear_arith)
            requires
                dp <= u64::MAX,
                self.volume <= u64::MAX,
        ;
        let raw: u128 = ((dp as u128) * (self.volume as u128)) / den;
        let total = self.total_moles_wide();
        let tenth: u128 = total / (TRANSFER_CLAMP_DIVISOR as u128);
        let cap: u128 = if tenth == 0 {
            1
        } else {
            tenth
        };
        if raw < cap {
            raw
        } else {
            cap
        }
    }

    /// Exchanges heat with `other`: when at least one side holds gas and the temperatures
    /// differ by 0.1 K or more, a tenth of the differential moves to the colder side.
    pub fn share_heat_with(&mut self, other: &mut GasMixture)
        ensures
            (final(self)@, final(other)@) == heat_shared(old(self)@, old(other)@),
    {
        let total_a = self.total_moles_wide();
        let total_b = other.total_moles_wide();
        if total_a == 0 && total_b == 0 {
            return;
        }
        if self.temperature >= other.temperature {
            let diff = self.temperature - other.temperature;
            if diff < TEMPERATURE_THRESHOLD_MK {
                return;
            }
            let heat = diff / HEAT_RELAXATION_DIVISOR;
            self.temperature = self.temperature - heat;
            other.temperature = other.temperature + heat;
        } else {
            let diff = other.temperature - self.temperature;
            if diff < TEMPERATURE_THRESHOLD_MK {
                return;
            }
            let heat = diff / HEAT_RELAXATION_DIVISOR;
            self.temperature = self.temperature + heat;
            other.temperature = other.temperature - heat;
        }
    }

    /// Equalizes pressure with `other`. Below a 0.1 kPa differential nothing changes.
    /// Otherwise the higher-pressure side gives micro-moles proportional to the
    /// differential and its volume, inversely to its temperature, at most a tenth of its
    /// total, split across species by its composition (a quota that rounds down to zero
    /// moves nothing); total moles over the two mixtures are kept. Heat is then shared as
    /// by `share_heat_with`, whatever the quota.
    pub fn share_gas_with(&mut self, other: &mut GasMixture)
        ensures
            (final(self)@, final(other)@) == gas_shared(old(self)@, old(other)@),
    {
        let pressure_a = self.pressure();
        let pressure_b = other.pressure();
        if pressure_a >= pressure_b {
            if pressure_a - pressure_b < PRESSURE_THRESHOLD_MICRO_KPA {
                return;
            }
            proof {
                lemma_pressure_needs_gas(self@);
            }
            let quota = self.quota_for(pressure_a - pressure_b);
            flow_into(self, other, quota);
        } else {
            if pressure_b - pressure_a < PRESSURE_THRESHOLD_MICRO_KPA {
                return;
            }
            proof {
                lemma_pressure_needs_gas(other@);
            }
            let quota = other.quota_for(pressure_b - pressure_a);
            flow_into(other, self, quota);
        }
        self.share_heat_with(other);
    }
}

impl Default for GasMixture {
    /// No gas, room temperature, one standard tile volume.
    fn default() -> (r: Self)
        ensures
            r@ == empty_state(STANDARD_VOLUME_MICRO_M3, STANDARD_TEMP_MK),
    {
        GasMixture::new(STANDARD_VOLUME_MICRO_M3, STANDARD_TEMP_MK)
    }
}

fn saturate_u64(x: u128) -> (r: u64)
    ensures
        r == min_int(x as int, u64::MAX as int),
{
    if x > u64::MAX as u128 {
        u64::MAX
    } else {
        x as u64
    }
}

/// `src` gives `quota` micro-moles to `dst`, split across species by its composition.
fn flow_into(src: &mut GasMixture, dst: &mut GasMixture, quota: u128)
    requires
        total_of(old(src)@) > 0,
        quota <= transfer_cap(old(src)@),
    ensures
        (final(src)@, final(dst)@) == flowed(old(src)@, old(dst)@, quota as int),
{
    let total = src.total_moles_wide();
    let ghost s0 = src@;
    let ghost d0 = dst@;
    let ghost after = flowed(s0, d0, quota as int);
    proof {
        lemma_sum_bound(s0.moles, GAS_TYPE_COUNT as int);
    }
    let mut i: usize = 0;
    while i < GAS_TYPE_COUNT
        invariant
            0 <= i <= GAS_TYPE_COUNT,
            total == total_of(s0),
            s0.moles.len() == GAS_TYPE_COUNT,
            d0.moles.len() == GAS_TYPE_COUNT,
            total > 0,
            total <= 7 * u64::MAX,
            quota <= transfer_cap(s0),
            after == flowed(s0, d0, quota as int),
            src.temperature == s0.temperature,
            src.volume == s0.volume,
            dst.temperature == d0.temperature,
            dst.volume == d0.volume,
            forall|k: int| 0 <= k < i ==> src.moles@[k] == after.0.moles[k],
            forall|k: int| 0 <= k < i ==> dst.moles@[k] == after.1.moles[k],
            forall|k: int| i <= k < GAS_TYPE_COUNT ==> src.moles@[k] == s0.moles[k],
            forall|k: int| i <= k < GAS_TYPE_COUNT ==> dst.moles@[k] == d0.moles[k],
        decreases GAS_TYPE_COUNT - i,
    {
        let part = src.moles[i];
        proof {
            lemma_entry_le_sum(s0.moles, i as int, GAS_TYPE_COUNT as int);
            lemma_ratio_share_bounded(part as int, quota as int, total as int);
        }
        let ratio: u128 = (part as u128) * RATIO_SCALE / total;
        assert(quota * ratio <= 7 * u64::MAX * 1_000_000) by (nonlinear_arith)
            requires
                quota <= total,
                total <= 7 * u64::MAX,
                0 <= ratio <= 1_000_000,
        ;
        let share: u128 = quota * ratio / RATIO_SCALE;
        let room: u64 = u64::MAX - dst.moles[i];
        let moved: u64 = if share < room as u128 {
            share as u64
        } else {
            room
        };
        src.moles[i] = part - moved;
        dst.moles[i] = dst.moles[i] + moved;
        i = i + 1;
    }
    assert(src.moles@ =~= after.0.moles);
    assert(dst.moles@ =~= after.1.moles);
}

} // verus!
