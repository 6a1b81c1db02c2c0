use atmospherics::gas::{GasMixture, GasType, STANDARD_TEMP_MK, STANDARD_VOLUME_MICRO_M3};
use atmospherics::grid::AtmosGrid;
use atmospherics::tile::{TileAtmosphere, TilePosition, VACUUM_TEMP_MK};

fn grid_total(g: &AtmosGrid) -> u128 {
    (0..g.len())
        .map(|i| g.tile(i).mixture.moles.iter().map(|&x| x as u128).sum::<u128>())
        .sum()
}

fn at(g: &AtmosGrid, x: i32, y: i32) -> usize {
    g.find(TilePosition::new(x, y)).expect("tile exists")
}

/// Air in the middle, walls in the ring around it.
fn walled_room() -> AtmosGrid {
    let mut g = AtmosGrid::new();
    for x in -1..=1 {
        for y in -1..=1 {
            let tile = if x == 0 && y == 0 {
                TileAtmosphere::new_with_air()
            } else {
                TileAtmosphere::new_wall()
            };
            assert!(g.add_tile(TilePosition::new(x, y), tile).is_some());
        }
    }
    g
}

fn air_with_vacuum_center() -> AtmosGrid {
    let mut g = AtmosGrid::new();
    for x in -2..=2 {
        for y in -2..=2 {
            let tile = if x == 0 && y == 0 {
                TileAtmosphere::new_vacuum()
            } else {
                TileAtmosphere::new_with_air()
            };
            g.add_tile(TilePosition::new(x, y), tile);
        }
    }
    g
}

#[test]
fn positions_step_in_cardinal_order() {
    let p = TilePosition::new(3, -4);
    assert_eq!(
        p.neighbors(),
        [
            TilePosition::new(3, -3),
            TilePosition::new(4, -4),
            TilePosition::new(3, -5),
            TilePosition::new(2, -4)
        ]
    );
    assert_eq!(TilePosition::new(i32::MAX, 0).step(1), None);
    assert_eq!(TilePosition::new(0, i32::MIN).step(2), None);
    assert_eq!(TilePosition::new(0, i32::MIN).step(0), Some(TilePosition::new(0, i32::MIN + 1)));
}

#[test]
fn tiles_are_unique_per_position() {
    let mut g = AtmosGrid::new();
    assert_eq!(g.add_tile(TilePosition::new(0, 0), TileAtmosphere::new_vacuum()), Some(0));
    assert_eq!(g.add_tile(TilePosition::new(0, 0), TileAtmosphere::new_with_air()), None);
    assert_eq!(g.len(), 1);
    assert_eq!(g.add_tile(TilePosition::new(i32::MIN, i32::MAX), TileAtmosphere::new_vacuum()), Some(1));
    assert_eq!(g.find(TilePosition::new(i32::MIN, i32::MAX)), Some(1));
    assert_eq!(g.find(TilePosition::new(5, 5)), None);
}

#[test]
fn new_tiles_start_active_unless_walls() {
    let g = walled_room();
    assert!(g.is_active(at(&g, 0, 0)));
    assert!(!g.is_active(at(&g, 1, 0)));
    assert_eq!(g.active_count(), 1);
    assert!(g.connections_dirty);
}

#[test]
fn links_are_symmetric_after_rebuild() {
    let mut g = walled_room();
    g.set_wall(at(&g, 0, 1), false);
    g.add_tile(TilePosition::new(2, 0), TileAtmosphere::new_vacuum());
    g.initialize_neighbors();
    for i in 0..g.len() {
        for d in 0..4 {
            if let Some((j, open)) = g.tile(i).neighbors[d] {
                assert_eq!(g.tile(j).neighbors[(d + 2) % 4], Some((i, open)));
            }
        }
    }
    let center = at(&g, 0, 0);
    assert_eq!(g.tile(center).neighbors[0], Some((at(&g, 0, 1), true)));
    assert_eq!(g.tile(center).neighbors[1], Some((at(&g, 1, 0), false)));
    assert_eq!(g.tile(at(&g, 2, 0)).neighbors[3], Some((at(&g, 1, 0), false)));
    assert_eq!(g.tile(at(&g, 2, 0)).neighbors[1], None);
}

#[test]
fn walls_gate_the_flow() {
    let mut g = walled_room();
    let center = at(&g, 0, 0);
    let center_pressure = g.pressure_at(center);
    g.step();
    // sealed in: nothing moves and the room goes quiet
    assert_eq!(g.pressure_at(center), center_pressure);
    assert_eq!(g.active_count(), 0);

    let north = at(&g, 0, 1);
    g.set_wall(north, false);
    assert!(g.is_active(north));
    assert!(g.is_active(center));
    assert_eq!(g.active_count(), 2);

    g.step();
    assert!(g.pressure_at(north) > 0);
    assert!(g.pressure_at(center) < center_pressure);
    for x in -1..=1 {
        for y in -1..=1 {
            if (x, y) == (0, 0) || (x, y) == (0, 1) {
                continue;
            }
            let i = at(&g, x, y);
            assert!(!g.is_active(i), "tile ({}, {}) woke up", x, y);
            assert_eq!(g.pressure_at(i), 0);
        }
    }
}

#[test]
fn adding_a_wall_clears_its_gas() {
    let mut g = air_with_vacuum_center();
    let i = at(&g, 1, 1);
    assert!(g.pressure_at(i) > 0);
    g.set_wall(i, true);
    assert!(g.tile(i).sealed);
    assert_eq!(g.tile(i).mixture.total_moles(), 0);
    assert_eq!(g.tile(i).mixture.temperature, VACUUM_TEMP_MK);
    assert!(!g.connections_dirty);
    assert_eq!(g.tile(at(&g, 1, 0)).neighbors[0], Some((i, false)));
}

#[test]
fn setting_the_same_wall_state_changes_nothing() {
    let mut g = walled_room();
    g.initialize_neighbors();
    let wall = at(&g, 1, 1);
    g.set_wall(wall, true);
    assert!(!g.is_active(wall));
    assert_eq!(g.active_count(), 1);
}

#[test]
fn vacuum_center_fills_and_the_grid_settles() {
    let mut g = air_with_vacuum_center();
    assert_eq!(g.active_count(), 25);
    let center = at(&g, 0, 0);
    let total = grid_total(&g);
    assert_eq!(g.pressure_at(center), 0);
    let mut previous = 0;
    for _ in 0..10 {
        assert!(g.is_active(center));
        g.step();
        let p = g.pressure_at(center);
        assert!(p > previous);
        previous = p;
    }
    let mut ticks = 10;
    while g.active_count() > 0 {
        g.step();
        ticks += 1;
        assert!(ticks < 500);
        assert_eq!(grid_total(&g), total);
    }
    for i in 0..g.len() {
        for d in 0..4 {
            if let Some((j, true)) = g.tile(i).neighbors[d] {
                assert!(g.pressure_at(i).abs_diff(g.pressure_at(j)) <= 100_000);
            }
        }
    }
    let settled: Vec<GasMixture> = (0..g.len()).map(|i| g.tile(i).mixture).collect();
    for _ in 0..10 {
        g.step();
        assert_eq!(g.active_count(), 0);
    }
    for i in 0..g.len() {
        assert_eq!(g.tile(i).mixture.moles, settled[i].moles);
        assert_eq!(g.tile(i).mixture.temperature, settled[i].temperature);
    }
    assert_eq!(grid_total(&g), total);
}

#[test]
fn injected_gas_wakes_a_quiet_tile() {
    let mut g = air_with_vacuum_center();
    while g.active_count() > 0 {
        g.step();
    }
    let i = at(&g, -2, -2);
    g.add_gas(i, GasType::Plasma, 50_000_000);
    assert_eq!(g.active_count(), 1);
    g.step();
    assert!(g.is_active(at(&g, -1, -2)));
    assert!(g.is_active(at(&g, -2, -1)));
}

#[test]
fn flow_points_toward_higher_pressure() {
    let mut g = AtmosGrid::new();
    g.add_tile(TilePosition::new(0, 0), TileAtmosphere::new_vacuum());
    g.add_tile(TilePosition::new(1, 0), TileAtmosphere::new_with_air());
    g.add_tile(TilePosition::new(0, 1), TileAtmosphere::new_wall());
    g.initialize_neighbors();
    let air = GasMixture::new_air(STANDARD_VOLUME_MICRO_M3, STANDARD_TEMP_MK).pressure() as i128;
    let flows = g.calculate_flow_vectors();
    // both open tiles see the higher pressure to the east
    assert_eq!(flows, vec![(air, 0), (air, 0), (0, 0)]);
}

#[test]
fn one_tick_exchanges_each_pair_once() {
    let mut g = AtmosGrid::new();
    g.add_tile(TilePosition::new(0, 0), TileAtmosphere::new_with_air());
    g.add_tile(TilePosition::new(1, 0), TileAtmosphere::new_vacuum());
    g.step();
    let mut a = GasMixture::new_air(STANDARD_VOLUME_MICRO_M3, STANDARD_TEMP_MK);
    let mut b = GasMixture::new(STANDARD_VOLUME_MICRO_M3, VACUUM_TEMP_MK);
    a.share_gas_with(&mut b);
    assert_eq!(g.tile(0).mixture.moles, a.moles);
    assert_eq!(g.tile(1).mixture.moles, b.moles);
    assert_eq!(g.tile(1).mixture.temperature, b.temperature);
    assert!(g.is_active(0) && g.is_active(1));
}

#[test]
fn an_empty_grid_steps_quietly() {
    let mut g = AtmosGrid::new();
    g.step();
    assert_eq!(g.len(), 0);
    assert_eq!(g.active_count(), 0);
    assert!(g.calculate_flow_vectors().is_empty());
}

#[test]
fn a_tile_without_open_neighbours_goes_passive() {
    let mut g = AtmosGrid::new();
    let lone = g.add_tile(TilePosition::new(7, 7), TileAtmosphere::new_with_air()).unwrap();
    assert!(g.is_active(lone));
    let before = g.tile(lone).mixture.moles;
    g.step();
    assert!(!g.is_active(lone));
    assert_eq!(g.tile(lone).mixture.moles, before);
    assert_eq!(g.tile(lone).neighbors, [None, None, None, None]);
}

#[test]
fn opening_one_wall_segment_lets_only_that_tile_take_part() {
    let mut g = walled_room();
    g.initialize_neighbors();
    let center = at(&g, 0, 0);
    for d in 0..4 {
        let (_, open) = g.tile(center).neighbors[d].expect("the center has four neighbours");
        assert!(!open);
    }
    for i in 0..g.len() {
        for d in 0..4 {
            if let Some((_, open)) = g.tile(i).neighbors[d] {
                assert!(!open);
            }
        }
    }
    let east = at(&g, 1, 0);
    g.set_wall(east, false);
    assert_eq!(g.tile(center).neighbors[1], Some((east, true)));
    assert_eq!(g.tile(east).neighbors[3], Some((center, true)));
    for i in 0..g.len() {
        for d in 0..4 {
            if let Some((j, open)) = g.tile(i).neighbors[d] {
                assert_eq!(open, (i, j) == (center, east) || (i, j) == (east, center));
            }
        }
    }
    let pair_total = |g: &AtmosGrid| {
        [center, east]
            .iter()
            .map(|&i| g.tile(i).mixture.moles.iter().map(|&x| x as u128).sum::<u128>())
            .sum::<u128>()
    };
    let total = pair_total(&g);
    let center_pressure = g.pressure_at(center);
    g.step();
    assert!(g.is_active(east));
    assert!(g.tile(east).mixture.total_moles() > 0);
    assert!(g.pressure_at(east) > 0);
    assert!(g.pressure_at(center) < center_pressure);
    assert_eq!(pair_total(&g), total);
    let mut ticks = 1;
    loop {
        for i in 0..g.len() {
            if i != center && i != east {
                assert!(!g.is_active(i));
                assert_eq!(g.pressure_at(i), 0);
            }
        }
        if g.active_count() == 0 {
            break;
        }
        g.step();
        ticks += 1;
        assert!(ticks < 200);
        assert_eq!(pair_total(&g), total);
    }
    assert!(g.pressure_at(center).abs_diff(g.pressure_at(east)) <= 100_000);
}
