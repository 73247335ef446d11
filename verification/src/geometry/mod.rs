/// The `Geometry` contract implemented by concrete geometries.
pub mod geometry_traits;

/// The simplex geometry and its face connectivity.
pub mod simplex;
