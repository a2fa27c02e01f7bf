//! Coordinates for hexagonal tile grids, and a sparse grid keyed by them.
//!
//! [`AxialCoordinate`] addresses a cell by two integers `(q, r)`. Its
//! neighbours, the distance between two cells and the cells within a radius
//! are computed through the cubic form `(x, y, z)` with `x + y + z == 0`.
//! [`HexGrid`] stores one payload per occupied cell.
//!
//! Every contract is stated over the mathematical plane of [`HexPoint`]s, on
//! unbounded integers. The executable types hold machine integers; an
//! operation whose result would leave the range of `isize` is excluded by
//! its precondition, so no coordinate ever wraps around.
pub mod grid;
pub mod hex;
pub mod laws;
pub mod plane;

pub use grid::HexGrid;
pub use hex::AxialCoordinate;
pub use hex::CubicCoordinate;
pub use plane::CubePoint;
pub use plane::HexPoint;
