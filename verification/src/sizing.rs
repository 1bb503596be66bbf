//! From target areas to lengths: the edge length and the lattice spacings
//! that go with an area.

use vstd::prelude::*;
use crate::arith::{isqrt, isqrt_spec};

verus! {

/// Target areas beyond this one are taken as this one: no triangle of input
/// points is larger.
pub const AREA_LIMIT: u64 = 8_000_000_000_000;

/// The edge length that goes with a target area: the side of the
/// equilateral triangle of that area, rounded down and one at least.  The
/// area is in half grid cells and capped at `AREA_LIMIT`.
pub open spec fn edge_length_for(area: u64) -> int {
    let a = if area > AREA_LIMIT {
        AREA_LIMIT as int
    } else {
        area as int
    };
    if isqrt_spec(isqrt_spec(4 * (a * a) / 3)) < 1 {
        1
    } else {
        isqrt_spec(isqrt_spec(4 * (a * a) / 3))
    }
}

/// Computes the edge length that goes with a target area.
pub fn target_edge_length(area: u64) -> (len: u64)
    ensures
        len as int == edge_length_for(area),
        1 <= len <= 82_000_000,
{
    let a: u128 = if area > AREA_LIMIT {
        AREA_LIMIT as u128
    } else {
        area as u128
    };
    assert(a * a <= 8_000_000_000_000 * 8_000_000_000_000) by (nonlinear_arith)
        requires
            a <= 8_000_000_000_000,
    ;
    let inner: u64 = isqrt(4 * (a * a) / 3);
    let root: u64 = isqrt(inner as u128);
    assert(root <= 82_000_000) by (nonlinear_arith)
        requires
            root * root <= inner,
            inner * inner <= 4 * (a * a) / 3,
            a * a <= 8_000_000_000_000 * 8_000_000_000_000,
    ;
    if root < 1 {
        1
    } else {
        root
    }
}

/// The spacing of the interior lattice that goes with a target area: the
/// square root of the area times a factor, rounded down and one at least.
/// The square of the factor is given in hundredths; the area is in half grid
/// cells and capped at `AREA_LIMIT`.
pub open spec fn lattice_spacing_for(area: u64, factor_squared: u64) -> int {
    let a = if area > AREA_LIMIT {
        AREA_LIMIT as int
    } else {
        area as int
    };
    if isqrt_spec(factor_squared * a / 200) < 1 {
        1
    } else {
        isqrt_spec(factor_squared * a / 200)
    }
}

/// Computes the spacing of the interior lattice for a target area.
pub fn lattice_spacing(area: u64, factor_squared: u64) -> (spacing: u64)
    requires
        factor_squared <= 100,
    ensures
        spacing as int == lattice_spacing_for(area, factor_squared),
        spacing >= 1,
{
    let a: u128 = if area > AREA_LIMIT {
        AREA_LIMIT as u128
    } else {
        area as u128
    };
    let k: u128 = factor_squared as u128;
    assert(k * a <= 100 * 8_000_000_000_000) by (nonlinear_arith)
        requires
            k <= 100,
            a <= 8_000_000_000_000,
    ;
    let root: u64 = isqrt(k * a / 200);
    if root < 1 {
        1
    } else {
        root
    }
}

/// The edge length of the coarse boundary sampling for a target area: twice
/// the square root of the area, rounded down and one at least.  The area is
/// in half grid cells and capped at `AREA_LIMIT`.
pub open spec fn coarse_edge_for(target_area: u64) -> int {
    let a = if target_area > AREA_LIMIT {
        AREA_LIMIT as int
    } else {
        target_area as int
    };
    if isqrt_spec(2 * a) < 1 {
        1
    } else {
        isqrt_spec(2 * a)
    }
}

/// Computes the edge length of the coarse boundary sampling for a target
/// area.
pub fn coarse_edge_length(target_area: u64) -> (len: u64)
    ensures
        len as int == coarse_edge_for(target_area),
        len >= 1,
{
    let capped: u128 = if target_area > AREA_LIMIT {
        AREA_LIMIT as u128
    } else {
        target_area as u128
    };
    let root: u64 = isqrt(2 * capped);
    if root < 1 {
        1
    } else {
        root
    }
}

} // verus!
