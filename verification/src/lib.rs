//! Electrostatic potential approximation on a discrete 2D grid.
//!
//! Geometric shapes (line segments and circles) are rasterized onto a square
//! grid of cells, each placed shape receives a unique pin id, a caller-supplied
//! pin-to-voltage mapping is applied, and the potential of every air cell is
//! computed by brute-force superposition of per-conductor inverse-distance
//! contributions, truncated to an integer per term.

pub mod cell;
pub mod grid;
pub mod pins;
pub mod raster;
pub mod solver;
pub mod voltage;

pub use cell::Cell;
pub use grid::Grid;
pub use grid::GRID_SIZE;
pub use cell::ConductorShape;
pub use cell::PlacementError;
pub use pins::PinAllocator;
pub use voltage::VoltageMap;
