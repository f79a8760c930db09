use potential_grid::Cell;
use potential_grid::ConductorShape;
use potential_grid::Grid;
use potential_grid::grid::place_conductors_on_grid;
use potential_grid::grid::place_conductors_on_grid_sized;
use potential_grid::solver::calculate_electric_potential;
use potential_grid::voltage::VoltageMap;
use potential_grid::voltage::apply_voltage_from_pins;

fn cells_equal(a: &Grid, b: &Grid) -> bool {
    if a.size != b.size {
        return false;
    }
    for x in 0..a.size {
        for y in 0..a.size {
            if a.cell_at(x, y) != b.cell_at(x, y) {
                return false;
            }
        }
    }
    true
}

/// The per-term truncated superposition, scanned in the order the caller
/// hands the indices in.
fn reference_potential(grid: &Grid, x: usize, y: usize, scan: &[(usize, usize)]) -> i64 {
    let mut sum: i64 = 0;
    for &(i, j) in scan {
        if let Cell::Metal { voltage, .. } = grid.cell_at(i, j) {
            let d2 = (x as i64 - i as i64).pow(2) + (y as i64 - j as i64).pow(2);
            if d2 != 0 {
                sum += voltage as i64 / ((d2 as f64).sqrt() as i64);
            }
        }
    }
    sum
}

fn row_major(size: usize) -> Vec<(usize, usize)> {
    let mut v = Vec::new();
    for i in 0..size {
        for j in 0..size {
            v.push((i, j));
        }
    }
    v
}

#[test]
fn voltage_map_lookup() {
    let mut vm = VoltageMap::new();
    assert_eq!(vm.get(0), None);
    vm.set_voltage(0, -80);
    vm.set_voltage(5, 80);
    vm.set_voltage(0, 40);
    assert_eq!(vm.get(0), Some(40));
    assert_eq!(vm.get(5), Some(80));
    assert_eq!(vm.get(3), None);
}

#[test]
fn voltage_assignment_sets_pinned_metal_only() {
    let shapes = vec![
        ConductorShape::Line { p1: (0, 0), p2: (0, 3) },
        ConductorShape::Line { p1: (5, 0), p2: (5, 3) },
    ];
    let mut grid = place_conductors_on_grid(&shapes).unwrap();
    let mut vm = VoltageMap::new();
    vm.set_voltage(0, -80);
    apply_voltage_from_pins(&mut grid, &vm);
    assert_eq!(grid.cell_at(0, 2), Cell::Metal { voltage: -80, pin: Some(0) });
    // Pin 1 has no entry: its voltage is left unchanged.
    assert_eq!(grid.cell_at(5, 2), Cell::Metal { voltage: 0, pin: Some(1) });
    // Air is untouched.
    assert_eq!(grid.cell_at(50, 50), Cell::Air { potential: 0 });
}

#[test]
fn voltage_assignment_is_idempotent() {
    let shapes = vec![
        ConductorShape::Line { p1: (0, 0), p2: (9, 9) },
        ConductorShape::Circle { origin: (5, 5), radius: 3 },
    ];
    let mut once = place_conductors_on_grid_sized(&shapes, 20).unwrap();
    let mut vm = VoltageMap::new();
    vm.set_voltage(0, -80);
    vm.set_voltage(1, 80);
    apply_voltage_from_pins(&mut once, &vm);
    let mut twice = once.clone();
    apply_voltage_from_pins(&mut twice, &vm);
    assert!(cells_equal(&once, &twice));
}

#[test]
fn solver_matches_reference_and_scan_order() {
    let shapes = vec![
        ConductorShape::Line { p1: (0, 0), p2: (9, 9) },
        ConductorShape::Circle { origin: (12, 6), radius: 4 },
    ];
    let mut grid = place_conductors_on_grid_sized(&shapes, 20).unwrap();
    let mut vm = VoltageMap::new();
    vm.set_voltage(0, -70);
    vm.set_voltage(1, 35);
    apply_voltage_from_pins(&mut grid, &vm);
    let snapshot = grid.clone();
    calculate_electric_potential(&mut grid);
    let forward = row_major(20);
    let mut backward = forward.clone();
    backward.reverse();
    for &(x, y) in &[(1usize, 2usize), (19, 19), (10, 10), (0, 19)] {
        if let Cell::Air { potential } = grid.cell_at(x, y) {
            assert_eq!(potential, reference_potential(&snapshot, x, y, &forward));
            assert_eq!(potential, reference_potential(&snapshot, x, y, &backward));
        } else {
            panic!("expected air at ({}, {})", x, y);
        }
    }
}

#[test]
fn solver_leaves_metal_untouched() {
    let shapes = vec![ConductorShape::Line { p1: (0, 0), p2: (0, 5) }];
    let mut grid = place_conductors_on_grid_sized(&shapes, 10).unwrap();
    let mut vm = VoltageMap::new();
    vm.set_voltage(0, 55);
    apply_voltage_from_pins(&mut grid, &vm);
    calculate_electric_potential(&mut grid);
    assert_eq!(grid.cell_at(0, 3), Cell::Metal { voltage: 55, pin: Some(0) });
}

#[test]
fn single_point_potentials_exact() {
    // One metal point at (0, 0) held at 100.
    let shapes = vec![ConductorShape::Line { p1: (0, 0), p2: (0, 0) }];
    let mut grid = place_conductors_on_grid_sized(&shapes, 10).unwrap();
    let mut vm = VoltageMap::new();
    vm.set_voltage(0, 100);
    apply_voltage_from_pins(&mut grid, &vm);
    calculate_electric_potential(&mut grid);
    // Distance 5 (3-4-5 triangle): 100 / 5.
    assert_eq!(grid.cell_at(3, 4), Cell::Air { potential: 20 });
    // Distance sqrt(2), integer square root 1: 100 / 1.
    assert_eq!(grid.cell_at(1, 1), Cell::Air { potential: 100 });
    // Distance sqrt(45), integer square root 6: 100 / 6 truncated.
    assert_eq!(grid.cell_at(3, 6), Cell::Air { potential: 16 });
}

#[test]
fn negating_voltages_negates_potentials() {
    let shapes = vec![
        ConductorShape::Line { p1: (0, 0), p2: (9, 9) },
        ConductorShape::Circle { origin: (12, 6), radius: 4 },
    ];
    let mut pos = place_conductors_on_grid_sized(&shapes, 20).unwrap();
    let mut neg = pos.clone();
    let mut vm_pos = VoltageMap::new();
    vm_pos.set_voltage(0, -70);
    vm_pos.set_voltage(1, 35);
    let mut vm_neg = VoltageMap::new();
    vm_neg.set_voltage(0, 70);
    vm_neg.set_voltage(1, -35);
    apply_voltage_from_pins(&mut pos, &vm_pos);
    apply_voltage_from_pins(&mut neg, &vm_neg);
    calculate_electric_potential(&mut pos);
    calculate_electric_potential(&mut neg);
    for x in 0..20 {
        for y in 0..20 {
            match (pos.cell_at(x, y), neg.cell_at(x, y)) {
                (Cell::Air { potential: p }, Cell::Air { potential: n }) => assert_eq!(p, -n),
                (Cell::Metal { .. }, Cell::Metal { .. }) => {}
                _ => panic!("cell kind changed at ({}, {})", x, y),
            }
        }
    }
}

#[test]
fn end_to_end_line_and_circle() {
    let shapes = vec![
        ConductorShape::Line { p1: (0, 0), p2: (99, 99) },
        ConductorShape::Circle { origin: (30, 10), radius: 5 },
    ];
    let mut grid = place_conductors_on_grid(&shapes).unwrap();
    assert_eq!(grid.get_conductor_count(), 2);
    let mut vm = VoltageMap::new();
    vm.set_voltage(0, 10);
    vm.set_voltage(1, 5);
    apply_voltage_from_pins(&mut grid, &vm);
    let snapshot = grid.clone();
    calculate_electric_potential(&mut grid);
    let expected = reference_potential(&snapshot, 1, 2, &row_major(100));
    assert_eq!(grid.cell_at(1, 2), Cell::Air { potential: expected });
}
