use potential_grid::Cell;
use potential_grid::ConductorShape;
use potential_grid::PlacementError;
use potential_grid::grid::place_conductors_on_grid;
use potential_grid::grid::place_conductors_on_grid_sized;
use potential_grid::pins::PinAllocator;

#[test]
fn pin_allocation_is_monotonic() {
    let mut pins = PinAllocator::new();
    for expected in 0..10u16 {
        assert_eq!(pins.allocate(), expected);
    }
}

#[test]
fn pins_assigned_in_placement_order() {
    let shapes = vec![
        ConductorShape::Line { p1: (0, 0), p2: (0, 5) },
        ConductorShape::Circle { origin: (50, 50), radius: 3 },
        ConductorShape::Line { p1: (90, 90), p2: (95, 90) },
    ];
    let grid = place_conductors_on_grid(&shapes).unwrap();
    assert_eq!(grid.cell_at(0, 3), Cell::Metal { voltage: 0, pin: Some(0) });
    assert_eq!(grid.cell_at(53, 50), Cell::Metal { voltage: 0, pin: Some(1) });
    assert_eq!(grid.cell_at(92, 90), Cell::Metal { voltage: 0, pin: Some(2) });
}

#[test]
fn overlap_last_write_wins() {
    // The circle around (2, 3) with radius 1 rasterizes (3, 3) and (2, 2),
    // both of which the diagonal line also covers.
    let shapes = vec![
        ConductorShape::Line { p1: (0, 0), p2: (5, 5) },
        ConductorShape::Circle { origin: (2, 3), radius: 1 },
    ];
    let grid = place_conductors_on_grid(&shapes).unwrap();
    assert_eq!(grid.cell_at(3, 3), Cell::Metal { voltage: 0, pin: Some(1) });
    assert_eq!(grid.cell_at(2, 2), Cell::Metal { voltage: 0, pin: Some(1) });
    // A point only the line covers keeps the line's pin.
    assert_eq!(grid.cell_at(5, 5), Cell::Metal { voltage: 0, pin: Some(0) });
    // A point no shape covers stays air.
    assert_eq!(grid.cell_at(9, 9), Cell::Air { potential: 0 });
}

#[test]
fn conductor_count_is_shape_count() {
    let shapes = vec![
        ConductorShape::Line { p1: (0, 0), p2: (9, 9) },
        ConductorShape::Line { p1: (0, 9), p2: (9, 0) },
        ConductorShape::Line { p1: (0, 0), p2: (9, 9) },
        ConductorShape::Circle { origin: (5, 5), radius: 2 },
        ConductorShape::Circle { origin: (5, 5), radius: 2 },
        ConductorShape::Line { p1: (2, 2), p2: (2, 2) },
    ];
    let grid = place_conductors_on_grid(&shapes).unwrap();
    assert_eq!(grid.get_conductor_count(), 6);
    assert_eq!(grid.conductor_count, 6);
}

#[test]
fn unsupported_square_fails_placement() {
    let shapes = vec![
        ConductorShape::Line { p1: (0, 0), p2: (5, 5) },
        ConductorShape::Square { p1: (1, 1), p2: (1, 4), p3: (4, 4), p4: (4, 1) },
    ];
    assert_eq!(place_conductors_on_grid(&shapes).err(), Some(PlacementError::UnsupportedShape));
}

#[test]
fn unsupported_half_circle_fails_placement() {
    let shapes = vec![
        ConductorShape::HalfCircle { origin: (10, 10), radius: 4, angle: 90 },
        ConductorShape::Line { p1: (0, 0), p2: (5, 5) },
    ];
    assert_eq!(place_conductors_on_grid(&shapes).err(), Some(PlacementError::UnsupportedShape));
}

#[test]
fn out_of_bounds_line_fails_placement() {
    let shapes = vec![ConductorShape::Line { p1: (2, 2), p2: (2, 200) }];
    assert_eq!(place_conductors_on_grid(&shapes).err(), Some(PlacementError::CoordinateOutOfBounds));
}

#[test]
fn out_of_bounds_circle_fails_placement() {
    // The circle pokes past the left edge: (1 - 3, 5) is off the grid.
    let shapes = vec![ConductorShape::Circle { origin: (1, 5), radius: 3 }];
    assert_eq!(place_conductors_on_grid(&shapes).err(), Some(PlacementError::CoordinateOutOfBounds));
    // A negative radius is rejected the same way.
    let shapes = vec![ConductorShape::Circle { origin: (50, 50), radius: -1 }];
    assert_eq!(place_conductors_on_grid(&shapes).err(), Some(PlacementError::CoordinateOutOfBounds));
}

#[test]
fn failing_shape_aborts_whole_placement() {
    // Fail-fast: the first bad shape decides the error even when a later
    // shape is bad in another way.
    let shapes = vec![
        ConductorShape::Line { p1: (0, 0), p2: (0, 300) },
        ConductorShape::Square { p1: (1, 1), p2: (1, 4), p3: (4, 4), p4: (4, 1) },
    ];
    assert_eq!(place_conductors_on_grid(&shapes).err(), Some(PlacementError::CoordinateOutOfBounds));
}

#[test]
fn placement_on_custom_grid_size() {
    let shapes = vec![ConductorShape::Line { p1: (0, 0), p2: (0, 9) }];
    let grid = place_conductors_on_grid_sized(&shapes, 10).unwrap();
    assert_eq!(grid.size, 10);
    assert_eq!(grid.cell_at(0, 9), Cell::Metal { voltage: 0, pin: Some(0) });
    let too_small = place_conductors_on_grid_sized(&shapes, 5);
    assert_eq!(too_small.err(), Some(PlacementError::CoordinateOutOfBounds));
}

#[test]
fn conductors_list_holds_every_rasterized_point() {
    let shapes = vec![
        ConductorShape::Line { p1: (0, 0), p2: (0, 2) },
        ConductorShape::Line { p1: (0, 2), p2: (0, 4) },
    ];
    let grid = place_conductors_on_grid(&shapes).unwrap();
    // Duplicates are kept: (0, 2) is rasterized by both lines.
    assert_eq!(grid.conductors, vec![(0, 0), (0, 1), (0, 2), (0, 2), (0, 3), (0, 4)]);
}
