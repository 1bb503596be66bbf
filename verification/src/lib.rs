//! Two-dimensional unstructured mesh generation on an integer grid.
//!
//! Given a simple polygon and constraints on the size of the elements, the
//! library produces a conforming mesh of triangles, and of quads where the
//! paving strategy is chosen.  Its core is an incremental Delaunay
//! triangulation after Bowyer and Watson, with refinement of the boundary
//! and the interior and with optimisation by simulated annealing.
//!
//! Coordinates are whole grid units, so that every geometric predicate
//! (orientation, circumcircle containment, point in polygon) is decided
//! exactly, and every contract is stated over mathematical integers.  The
//! other quantities are whole numbers too:
//!
//! - areas are in half grid cells, which makes the area of a triangle the
//!   absolute value of its Jacobian;
//! - Jacobians of quads, and the Jacobian statistics of a mesh, are in
//!   sixteenths of a grid cell;
//! - temperatures, cooling rates, weights and the target aspect ratio are
//!   in thousandths;
//! - qualities, angles in degrees and aspect ratios are in millionths.
//!
//! What cannot be a whole number, the angles and the aspect ratio of a
//! triangle and the chance with which annealing keeps a worse mesh, comes
//! from the caller as a function.

pub mod arith;
pub mod outside;
pub mod geometry;
pub mod sizing;
pub mod elements;
pub mod mesh;
pub mod delaunay;
pub mod annealing;
pub mod paving;
pub mod generation;
pub mod mesher;
