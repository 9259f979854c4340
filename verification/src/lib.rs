//! Incremental 2D Delaunay triangulation (Bowyer-Watson) over exact integer
//! coordinates, together with the run configuration it is driven by.
//!
//! The parts:
//! - [`geometry`]: points, triangles, and the exact vertex-membership and
//!   in-circumcircle predicates;
//! - [`triangulation`]: the functional model of the incremental algorithm
//!   and the executable engine proved equal to it;
//! - [`laws`]: the proved properties of the output (vertex closure,
//!   non-degeneracy, emptiness below three points, scale equivariance).
//!
//! Coordinates are plain `i64` values, read as half-units where the input
//! is fractional: the point (0.5, 1) is stored as `x = 1, y = 2`, and the
//! triangulation bound of one hundred thousand units is the stored
//! magnitude `COORD_BOUND` of two hundred thousand.

use vstd::prelude::*;

pub mod geometry;
pub mod laws;
pub mod triangulation;

verus! {

/// Options for one triangulation run: an optional dimension (only two
/// dimensions are supported), the number of vertices to generate, and the
/// number of timeslices.
#[derive(Clone, Copy, PartialEq, Eq, Debug)]
pub struct Config {
    /// Dimensionality of the triangulation.
    pub dimension: Option<u32>,
    /// Number of vertices.
    pub vertices: u32,
    /// Number of timeslices.
    pub timeslices: u32,
}

/// The reason a set of options was rejected.
#[derive(Clone, Copy, PartialEq, Eq, Structural, Debug)]
pub enum ConfigError {
    /// The dimension is outside the accepted range `2..4`.
    DimensionOutOfRange,
    /// Fewer than 3 vertices were requested.
    TooFewVertices,
    /// Fewer than 1 timeslices were requested.
    NoTimeslices,
}

impl Config {
    /// Builds a `Config` from raw option values, enforcing the documented
    /// ranges: the dimension, when given, lies in `2..4`, the vertex count
    /// in `3..`, and the timeslice count in `1..`.
    pub fn build(dimension: Option<u32>, vertices: u32, timeslices: u32) -> (r: Result<Config, ConfigError>)
        ensures
            (match dimension {
                Some(d) => !(2 <= d < 4),
                None => false,
            }) ==> r == Result::<Config, ConfigError>::Err(ConfigError::DimensionOutOfRange),
            (match dimension {
                Some(d) => 2 <= d < 4,
                None => true,
            }) && vertices < 3 ==> r == Result::<Config, ConfigError>::Err(ConfigError::TooFewVertices),
            (match dimension {
                Some(d) => 2 <= d < 4,
                None => true,
            }) && vertices >= 3 && timeslices < 1 ==> r == Result::<Config, ConfigError>::Err(ConfigError::NoTimeslices),
            (match dimension {
                Some(d) => 2 <= d < 4,
                None => true,
            }) && vertices >= 3 && timeslices >= 1 ==> (r matches Ok(c)
                && c.dimension == dimension
                && c.vertices == vertices
                && c.timeslices == timeslices),
    {
        match dimension {
            Some(d) => {
                if !(2 <= d && d < 4) {
                    return Err(ConfigError::DimensionOutOfRange);
                }
            }
            None => {}
        }
        if vertices < 3 {
            return Err(ConfigError::TooFewVertices);
        }
        if timeslices < 1 {
            return Err(ConfigError::NoTimeslices);
        }
        Ok(Config { dimension, vertices, timeslices })
    }

    /// True iff the configured dimension is two (the only supported one);
    /// an absent dimension defaults to two.
    pub fn is_two_dimensional(&self) -> (r: bool)
        ensures
            r == (match self.dimension {
                Some(d) => d == 2,
                None => true,
            }),
    {
        match self.dimension {
            Some(d) => d == 2,
            None => true,
        }
    }
}

} // verus!
