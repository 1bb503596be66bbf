//! What the library takes on trust from outside crates: random numbers
//! from `rand`, and a triangulation from `delaunator`.  Nothing in this file
//! is proved; every contract here restates what the crate documents.

use vstd::prelude::*;
use rand::rngs::ThreadRng;
use rand::Rng;
use crate::geometry::{all_within, Point, EXTENT};

verus! {

/// The random number generator of the `rand` crate that is local to the
/// thread; nothing is known of its state.
#[verifier::external_type_specification]
#[verifier::external_body]
pub struct ExThreadRng(ThreadRng);

/// `rand::thread_rng`: hands out the generator of the current thread.
#[verifier::external_body]
pub(crate) fn thread_generator() -> ThreadRng {
    rand::thread_rng()
}

/// `Rng::gen_range` on a half-open range of indices: some index from `low`
/// up to, and not including, `high`.
#[verifier::external_body]
pub(crate) fn random_index(rng: &mut ThreadRng, low: usize, high: usize) -> (r: usize)
    requires
        low < high,
    ensures
        low <= r < high,
{
    rng.gen_range(low..high)
}

/// `Rng::gen_range` on a closed range of integers: some integer from `low`
/// to `high`, both included.
#[verifier::external_body]
pub(crate) fn random_between(rng: &mut ThreadRng, low: i64, high: i64) -> (r: i64)
    requires
        low <= high,
    ensures
        low <= r <= high,
{
    rng.gen_range(low..=high)
}

/// What `delaunator::triangulate` returns for a point list: the corners of
/// its triangles as one flat list, three indices a triangle.
pub uninterp spec fn delaunator_triangles(points: Seq<Point>) -> Seq<usize>;

/// `delaunator::triangulate`: the triangulation of the points as a flat list
/// of indices into them, three a triangle.  The coordinates are handed over
/// as the crate takes them; every coordinate of the working range gets
/// there unchanged.
#[verifier::external_body]
pub(crate) fn outside_triangulation(points: &Vec<Point>) -> (triangles: Vec<usize>)
    requires
        all_within(points@, EXTENT as int),
    ensures
        triangles@ == delaunator_triangles(points@),
        triangles.len() % 3 == 0,
        forall|i: int| 0 <= i < triangles.len() ==> (#[trigger] triangles[i]) < points.len(),
{
    let given: Vec<delaunator::Point> =
        points.iter().map(|p| delaunator::Point { x: p.x as _, y: p.y as _ }).collect();
    delaunator::triangulate(&given).triangles
}

} // verus!
