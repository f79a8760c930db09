use potential_grid::raster::create_circle;
use potential_grid::raster::create_line;
use potential_grid::solver::isqrt;

#[test]
fn line_endpoints_and_connectivity() {
    let pts = create_line((2, 2), (2, 97));
    assert_eq!(pts.len(), 96);
    assert!(pts.contains(&(2, 2)));
    assert!(pts.contains(&(2, 97)));
    for w in pts.windows(2) {
        let (a, b) = (w[0], w[1]);
        assert!((b.0 - a.0).abs() <= 1 && (b.1 - a.1).abs() <= 1);
        assert!(a != b);
    }
}

#[test]
fn line_diagonal() {
    let pts = create_line((0, 0), (5, 5));
    assert_eq!(pts, vec![(0, 0), (1, 1), (2, 2), (3, 3), (4, 4), (5, 5)]);
}

#[test]
fn circle_octant_symmetry() {
    let (cx, cy) = (30, 10);
    let pts = create_circle((cx, cy), 5);
    for &(px, py) in pts.iter() {
        let (dx, dy) = (px - cx, py - cy);
        for &(rx, ry) in &[
            (dx, dy),
            (-dx, dy),
            (dx, -dy),
            (-dx, -dy),
            (dy, dx),
            (-dy, dx),
            (dy, -dx),
            (-dy, -dx),
        ] {
            assert!(
                pts.contains(&(cx + rx, cy + ry)),
                "missing reflection ({}, {}) of ({}, {})",
                rx,
                ry,
                dx,
                dy
            );
        }
    }
}

#[test]
fn circle_radius_zero_is_origin() {
    let pts = create_circle((7, 9), 0);
    assert_eq!(pts, vec![(7, 9)]);
}

#[test]
fn circle_contains_axis_extremes() {
    let pts = create_circle((50, 50), 4);
    assert!(pts.contains(&(54, 50)));
    assert!(pts.contains(&(46, 50)));
    assert!(pts.contains(&(50, 54)));
    assert!(pts.contains(&(50, 46)));
}

#[test]
fn isqrt_exact_values() {
    assert_eq!(isqrt(0), 0);
    assert_eq!(isqrt(1), 1);
    assert_eq!(isqrt(2), 1);
    assert_eq!(isqrt(3), 1);
    assert_eq!(isqrt(4), 2);
    assert_eq!(isqrt(99), 9);
    assert_eq!(isqrt(100), 10);
    assert_eq!(isqrt(19602), 140);
    assert_eq!(isqrt(u32::MAX), 65535);
}
