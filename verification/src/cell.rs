//! Grid cell states, conductor shape descriptions, and placement errors.

use vstd::prelude::*;

verus! {

/// One cell of the grid: either empty space carrying a computed potential, or
/// part of a conductor held at a voltage and identified by a pin.
#[derive(Clone, Copy, Debug, PartialEq, Eq)]
pub enum Cell {
    /// Empty space. `potential` starts at 0 and is overwritten by the solver.
    Air { potential: i64 },
    /// Conductor material. `pin` identifies the shape the cell belongs to; it
    /// is absent only transiently, before placement has assigned one.
    Metal { voltage: i32, pin: Option<u16> },
}

/// A geometric primitive to be rasterized onto the grid.
///
/// Only `Line` and `Circle` can be rasterized; `HalfCircle` and `Square` are
/// declared but not supported, and placing one fails with
/// [`PlacementError::UnsupportedShape`].
#[derive(Clone, Copy, Debug, PartialEq, Eq)]
pub enum ConductorShape {
    Line { p1: (i32, i32), p2: (i32, i32) },
    Circle { origin: (i32, i32), radius: i32 },
    /// Not supported. `angle` is the orientation of the flat edge, in degrees.
    HalfCircle { origin: (i32, i32), radius: i32, angle: i64 },
    /// Not supported.
    Square { p1: (i32, i32), p2: (i32, i32), p3: (i32, i32), p4: (i32, i32) },
}

/// Why a placement request was rejected. Placement is all-or-nothing: on any
/// error no grid is produced.
#[derive(Clone, Copy, Debug, PartialEq, Eq)]
pub enum PlacementError {
    /// A shape without a rasterization implementation was submitted.
    UnsupportedShape,
    /// A rasterized coordinate falls outside the grid.
    CoordinateOutOfBounds,
}

} // verus!
