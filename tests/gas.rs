use atmospherics::gas::{
    GasMixture, GasType, STANDARD_PRESSURE_MICRO_KPA, STANDARD_TEMP_MK, STANDARD_VOLUME_MICRO_M3,
};

fn total(m: &GasMixture) -> u128 {
    m.moles.iter().map(|&x| x as u128).sum()
}

#[test]
fn test_gas_mixture_pressure() {
    let mixture = GasMixture::new_air(STANDARD_VOLUME_MICRO_M3, STANDARD_TEMP_MK);
    let pressure = mixture.pressure();
    let expected = STANDARD_PRESSURE_MICRO_KPA;
    let tolerance = expected / 20;
    assert!(
        pressure > expected - tolerance && pressure < expected + tolerance,
        "Pressure {} should be within {}±{}",
        pressure,
        expected,
        tolerance
    );
}

#[test]
fn test_total_moles() {
    let mut mixture = GasMixture::default();
    mixture.add_moles(GasType::Oxygen, 1_000_000);
    mixture.add_moles(GasType::Nitrogen, 2_000_000);
    assert_eq!(mixture.total_moles(), 3_000_000);
}

#[test]
fn test_gas_sharing() {
    let mut high_pressure = GasMixture::new_air(STANDARD_VOLUME_MICRO_M3, STANDARD_TEMP_MK);
    let mut low_pressure = GasMixture::new(STANDARD_VOLUME_MICRO_M3, STANDARD_TEMP_MK);
    let initial_pressure_high = high_pressure.pressure();
    let initial_pressure_low = low_pressure.pressure();
    assert!(initial_pressure_high > initial_pressure_low);
    for _ in 0..10 {
        high_pressure.share_gas_with(&mut low_pressure);
    }
    let final_pressure_high = high_pressure.pressure();
    let final_pressure_low = low_pressure.pressure();
    let initial_diff = (initial_pressure_high as i128 - initial_pressure_low as i128).abs();
    let final_diff = (final_pressure_high as i128 - final_pressure_low as i128).abs();
    assert!(
        final_diff < initial_diff,
        "Pressure difference should decrease after gas sharing. Initial: {}, Final: {}",
        initial_diff,
        final_diff
    );
}

#[test]
fn test_heat_sharing() {
    let mut hot = GasMixture::new_air(STANDARD_VOLUME_MICRO_M3, 400_000);
    let mut cold = GasMixture::new_air(STANDARD_VOLUME_MICRO_M3, 250_000);
    let initial_temp_hot = hot.temperature;
    let initial_temp_cold = cold.temperature;
    for _ in 0..10 {
        hot.share_heat_with(&mut cold);
    }
    let initial_diff = (initial_temp_hot as i128 - initial_temp_cold as i128).abs();
    let final_diff = (hot.temperature as i128 - cold.temperature as i128).abs();
    assert!(final_diff < initial_diff, "Temperature difference should decrease after heat sharing");
}

#[test]
fn air_has_exact_species_split() {
    let m = GasMixture::new_air(STANDARD_VOLUME_MICRO_M3, STANDARD_TEMP_MK);
    assert_eq!(m.get_moles(GasType::Nitrogen), 81_068_344);
    assert_eq!(m.get_moles(GasType::Oxygen), 21_826_092);
    assert_eq!(m.get_moles(GasType::CarbonDioxide), 1_039_337);
    assert_eq!(m.get_moles(GasType::Plasma), 0);
    assert_eq!(m.total_moles(), 103_933_773);
    assert_eq!(m.pressure(), 101_324_997);
}

#[test]
fn pressure_is_zero_without_volume() {
    let mut m = GasMixture::new(0, STANDARD_TEMP_MK);
    m.add_moles(GasType::Oxygen, 5_000_000);
    assert_eq!(m.pressure(), 0);
}

#[test]
fn pressure_saturates_instead_of_overflowing() {
    let mut m = GasMixture::new(1, u64::MAX);
    for g in [GasType::Oxygen, GasType::Nitrogen, GasType::Tritium] {
        m.add_moles(g, u64::MAX);
    }
    assert_eq!(m.pressure(), u64::MAX);
    assert_eq!(m.total_moles(), u64::MAX);
}

#[test]
fn pressure_is_exact_with_wide_intermediates() {
    // n * R * T exceeds 128 bits, yet the quotient fits in 64 bits
    let mut m = GasMixture::new(u64::MAX, u64::MAX);
    m.add_moles(GasType::Oxygen, u64::MAX);
    m.add_moles(GasType::Nitrogen, u64::MAX);
    let n: u128 = 2 * (u64::MAX as u128);
    // n * 8314 * T / (1000 * V) with T == V is n * 8314 / 1000
    let expected = n * 8314 / 1000;
    assert!(expected > u64::MAX as u128);
    assert_eq!(m.pressure(), u64::MAX);
    let mut small = GasMixture::new(u64::MAX, u64::MAX);
    small.add_moles(GasType::Oxygen, 1_000_000_000);
    assert_eq!(small.pressure(), 8_314_000_000);
}

#[test]
fn add_and_remove_saturate() {
    let mut m = GasMixture::new(STANDARD_VOLUME_MICRO_M3, STANDARD_TEMP_MK);
    m.add_moles(GasType::Plasma, u64::MAX - 5);
    m.add_moles(GasType::Plasma, 100);
    assert_eq!(m.get_moles(GasType::Plasma), u64::MAX);
    m.remove_moles(GasType::WaterVapor, 10);
    assert_eq!(m.get_moles(GasType::WaterVapor), 0);
    m.remove_moles(GasType::Plasma, 10);
    assert_eq!(m.get_moles(GasType::Plasma), u64::MAX - 10);
}

#[test]
fn one_gas_exchange_moves_a_tenth_of_standard_air() {
    let mut a = GasMixture::new_air(STANDARD_VOLUME_MICRO_M3, STANDARD_TEMP_MK);
    let mut b = GasMixture::new(STANDARD_VOLUME_MICRO_M3, STANDARD_TEMP_MK);
    a.share_gas_with(&mut b);
    assert_eq!(a.moles, [19_643_494, 72_961_510, 935_414, 0, 0, 0, 0]);
    assert_eq!(b.moles, [2_182_598, 8_106_834, 103_923, 0, 0, 0, 0]);
    assert_eq!(a.pressure(), 91_192_519);
    assert_eq!(b.pressure(), 10_132_478);
    assert_eq!(a.temperature, STANDARD_TEMP_MK);
}

#[test]
fn gas_exchange_is_symmetric_in_its_arguments() {
    let mut a = GasMixture::new_air(STANDARD_VOLUME_MICRO_M3, STANDARD_TEMP_MK);
    let mut b = GasMixture::new(STANDARD_VOLUME_MICRO_M3, STANDARD_TEMP_MK);
    b.share_gas_with(&mut a);
    assert_eq!(a.moles, [19_643_494, 72_961_510, 935_414, 0, 0, 0, 0]);
    assert_eq!(b.moles, [2_182_598, 8_106_834, 103_923, 0, 0, 0, 0]);
}

#[test]
fn gas_exchange_conserves_total_moles() {
    let mut a = GasMixture::new_air(1_000_000, 500_000);
    a.add_moles(GasType::Plasma, 12_345);
    let mut b = GasMixture::new_air(4_000_000, 200_000);
    b.remove_moles(GasType::Nitrogen, 1_000_000);
    let before = total(&a) + total(&b);
    for _ in 0..25 {
        a.share_gas_with(&mut b);
        assert_eq!(total(&a) + total(&b), before);
    }
}

#[test]
fn gas_exchange_conserves_when_receiver_is_nearly_full() {
    let mut a = GasMixture::new(1_000, STANDARD_TEMP_MK);
    a.add_moles(GasType::Oxygen, 1_000_000_000_000);
    let mut b = GasMixture::new(10_000_000_000_000, STANDARD_TEMP_MK);
    b.add_moles(GasType::Oxygen, u64::MAX - 10);
    assert!(a.pressure() > b.pressure());
    let before = total(&a) + total(&b);
    a.share_gas_with(&mut b);
    assert_eq!(total(&a) + total(&b), before);
    assert_eq!(b.get_moles(GasType::Oxygen), u64::MAX);
    assert_eq!(a.get_moles(GasType::Oxygen), 999_999_999_990);
}

#[test]
fn gas_exchange_below_threshold_changes_nothing() {
    let mut a = GasMixture::new_air(STANDARD_VOLUME_MICRO_M3, STANDARD_TEMP_MK);
    let mut b = a;
    b.remove_moles(GasType::Nitrogen, 50_000);
    assert!(a.pressure() - b.pressure() < 100_000);
    let (a0, b0) = (a, b);
    a.share_gas_with(&mut b);
    assert_eq!(a.moles, a0.moles);
    assert_eq!(b.moles, b0.moles);
    assert_eq!(a.temperature, a0.temperature);
    assert_eq!(b.temperature, b0.temperature);
}

#[test]
fn heat_exchange_moves_a_tenth_of_the_differential() {
    let mut hot = GasMixture::new_air(STANDARD_VOLUME_MICRO_M3, 400_000);
    let mut cold = GasMixture::new_air(STANDARD_VOLUME_MICRO_M3, 250_000);
    hot.share_heat_with(&mut cold);
    assert_eq!(hot.temperature, 385_000);
    assert_eq!(cold.temperature, 265_000);
    for _ in 0..9 {
        hot.share_heat_with(&mut cold);
    }
    assert_eq!(hot.temperature, 333_055);
    assert_eq!(cold.temperature, 316_945);
}

#[test]
fn heat_exchange_rounds_toward_zero_for_a_colder_receiver() {
    let mut cold = GasMixture::new_air(STANDARD_VOLUME_MICRO_M3, 1_000);
    let mut hot = GasMixture::new_air(STANDARD_VOLUME_MICRO_M3, 1_159);
    cold.share_heat_with(&mut hot);
    assert_eq!(cold.temperature, 1_015);
    assert_eq!(hot.temperature, 1_144);
}

#[test]
fn heat_exchange_below_threshold_or_without_gas_changes_nothing() {
    let mut a = GasMixture::new_air(STANDARD_VOLUME_MICRO_M3, 300_000);
    let mut b = GasMixture::new_air(STANDARD_VOLUME_MICRO_M3, 300_099);
    a.share_heat_with(&mut b);
    assert_eq!((a.temperature, b.temperature), (300_000, 300_099));
    let mut e1 = GasMixture::new(STANDARD_VOLUME_MICRO_M3, 100_000);
    let mut e2 = GasMixture::new(STANDARD_VOLUME_MICRO_M3, 900_000);
    e1.share_heat_with(&mut e2);
    assert_eq!((e1.temperature, e2.temperature), (100_000, 900_000));
}

#[test]
fn heat_exchange_with_gas_on_one_side_only() {
    let mut gas = GasMixture::new_air(STANDARD_VOLUME_MICRO_M3, 300_000);
    let mut empty = GasMixture::new(STANDARD_VOLUME_MICRO_M3, 2_700);
    gas.share_heat_with(&mut empty);
    assert_eq!(gas.temperature, 270_270);
    assert_eq!(empty.temperature, 32_430);
}

#[test]
fn repeated_exchanges_settle_below_threshold_and_stay() {
    let mut a = GasMixture::new_air(STANDARD_VOLUME_MICRO_M3, STANDARD_TEMP_MK);
    let mut b = GasMixture::new(STANDARD_VOLUME_MICRO_M3, STANDARD_TEMP_MK);
    let mut diff = a.pressure().abs_diff(b.pressure());
    let mut rounds = 0;
    while diff >= 100_000 {
        a.share_gas_with(&mut b);
        let next = a.pressure().abs_diff(b.pressure());
        assert!(next < diff);
        assert!(100 * next < 98 * diff);
        assert!(a.pressure() > b.pressure());
        diff = next;
        rounds += 1;
        assert!(rounds < 200);
    }
    let (a0, b0) = (a, b);
    a.share_gas_with(&mut b);
    assert_eq!(a.moles, a0.moles);
    assert_eq!(b.moles, b0.moles);
}

#[test]
fn temperature_never_drops_below_one_millikelvin() {
    let mut a = GasMixture::new_air(STANDARD_VOLUME_MICRO_M3, 1);
    let mut b = GasMixture::new_air(STANDARD_VOLUME_MICRO_M3, 2_000);
    for _ in 0..50 {
        a.share_heat_with(&mut b);
        b.share_gas_with(&mut a);
        assert!(a.temperature >= 1 && b.temperature >= 1);
    }
}

#[test]
fn heat_is_shared_even_when_the_quota_rounds_to_nothing() {
    let mut source = GasMixture::new(1, 1_000_000);
    source.add_moles(GasType::Oxygen, 1);
    let mut empty = GasMixture::new(1, 1_000);
    assert_eq!(source.pressure(), 8_314_000);
    assert_eq!(empty.pressure(), 0);
    source.share_gas_with(&mut empty);
    assert_eq!(source.get_moles(GasType::Oxygen), 1);
    assert_eq!(empty.total_moles(), 0);
    assert_eq!(source.temperature, 900_100);
    assert_eq!(empty.temperature, 100_900);
}

#[test]
fn repeated_heat_exchanges_shrink_by_a_tenth_or_more_and_settle() {
    let mut hot = GasMixture::new_air(STANDARD_VOLUME_MICRO_M3, 900_000);
    let mut cold = GasMixture::new(STANDARD_VOLUME_MICRO_M3, 2_700);
    let mut gap = hot.temperature.abs_diff(cold.temperature);
    let mut rounds = 0;
    while gap >= 100 {
        hot.share_heat_with(&mut cold);
        let next = hot.temperature.abs_diff(cold.temperature);
        assert!(10 * next <= 9 * gap);
        assert!(hot.temperature >= cold.temperature);
        gap = next;
        rounds += 1;
    }
    assert!(rounds <= 70);
    let (t1, t2) = (hot.temperature, cold.temperature);
    hot.share_heat_with(&mut cold);
    assert_eq!((hot.temperature, cold.temperature), (t1, t2));
}
