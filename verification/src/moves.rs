//! Candidate moves for the local search.
//!
//! A move turns the current best route into a candidate. Whether the
//! candidate is feasible, and whether it is better, is for the optimizer
//! to find out: a move promises nothing of the kind.

use vstd::prelude::*;
use rand::rngs::SmallRng;
use rand::{Rng, SeedableRng};
use crate::geometry::Point;
use crate::route::Route;

verus! {

/// The small, fast generator of `rand`. Nothing of its state is visible
/// here; it is only handed on to the two functions below.
#[verifier::external_type_specification]
#[verifier::external_body]
pub struct ExSmallRng(rand::rngs::SmallRng);

/// Makes a generator from a seed, by `SeedableRng::seed_from_u64` of
/// `rand`. Nothing is claimed of the generator.
#[verifier::external_body]
fn seeded(seed: u64) -> SmallRng {
    SmallRng::seed_from_u64(seed)
}

/// Draws a number below `bound`, by `Rng::gen_range` of `rand` with the
/// range from zero to `bound`. `gen_range` panics on an empty range, so
/// the bound must be positive. Claimed of the result is only that it lies
/// in the range; which number it is depends on the generator's state.
#[verifier::external_body]
fn below(rng: &mut SmallRng, bound: usize) -> (r: usize)
    requires
        bound > 0,
    ensures
        r < bound,
{
    rng.gen_range(0, bound)
}

/// A source of candidates: the point at which another neighbourhood can be
/// put in.
pub trait Proposer {
    /// Offers a candidate in place of `current`.
    fn propose(&mut self, current: &Route) -> (candidate: Route);
}

/// The path with the stops at positions `i` and `j` exchanged; the path
/// itself where one of the two is no position of it.
pub open spec fn swapped(path: Seq<Point>, i: int, j: int) -> Seq<Point> {
    if 0 <= i < path.len() && 0 <= j < path.len() {
        path.update(i, path[j]).update(j, path[i])
    } else {
        path
    }
}

/// Both positions are stops between the two ends of a path of `n` points.
pub open spec fn inner_stops(n: nat, i: int, j: int) -> bool {
    1 <= i < n - 1 && 1 <= j < n - 1
}

/// A copy of the ids.
fn copy_ids(ids: &Vec<usize>) -> (copy: Vec<usize>)
    ensures
        copy@ == ids@,
{
    let mut copy: Vec<usize> = Vec::new();
    let mut k: usize = 0;
    while k < ids.len()
        invariant
            k <= ids.len(),
            copy@ =~= ids@.take(k as int),
        decreases ids.len() - k,
    {
        copy.push(ids[k]);
        k += 1;
    }
    assert(ids@.take(k as int) =~= ids@);
    copy
}

/// A copy of the path.
fn copy_path(path: &Vec<Point>) -> (copy: Vec<Point>)
    ensures
        copy@ == path@,
{
    let mut copy: Vec<Point> = Vec::new();
    let mut k: usize = 0;
    while k < path.len()
        invariant
            k <= path.len(),
            copy@ =~= path@.take(k as int),
        decreases path.len() - k,
    {
        copy.push(path[k]);
        k += 1;
    }
    assert(path@.take(k as int) =~= path@);
    copy
}

/// The route with the stops at positions `i` and `j` of its path
/// exchanged. The ids are kept; so is the whole route where one of the
/// two is no position of the path.
pub fn swap_stops(route: &Route, i: usize, j: usize) -> (candidate: Route)
    ensures
        candidate.0@ == route.0@,
        candidate.1@ == swapped(route.1@, i as int, j as int),
{
    let ids: Vec<usize> = copy_ids(&route.0);
    let mut path: Vec<Point> = copy_path(&route.1);
    if i < path.len() && j < path.len() {
        let at_i: Point = path[i];
        let at_j: Point = path[j];
        path.set(i, at_j);
        path.set(j, at_i);
    }
    (ids, path)
}

/// Exchanges two stops picked at random. The two ends of the path are
/// never touched, so the depot stays where it is.
pub struct RandomSwap {
    rng: SmallRng,
}

impl RandomSwap {
    /// A source of random swaps, its generator made from `seed`. Which
    /// numbers a seed leads to depends on the platform `rand` is built for,
    /// so nothing is promised of the generator: what `propose` promises, it
    /// promises whatever state the generator is in.
    pub fn new(seed: u64) -> RandomSwap {
        RandomSwap { rng: seeded(seed) }
    }
}

impl Proposer for RandomSwap {
    /// The current route with two of its inner stops exchanged. A path
    /// with fewer than two inner stops comes back as it is.
    fn propose(&mut self, current: &Route) -> (candidate: Route)
        ensures
            candidate.0@ == current.0@,
            candidate.1@.len() == current.1@.len(),
            current.1.len() > 0 ==> candidate.1@[0] == current.1@[0] && candidate.1@.last()
                == current.1@.last(),
            current.1.len() < 4 ==> candidate.1@ == current.1@,
            current.1.len() >= 4 ==> exists|i: int, j: int|
                inner_stops(current.1@.len(), i, j) && candidate.1@ == #[trigger] swapped(
                    current.1@,
                    i,
                    j,
                ),
    {
        let n: usize = current.1.len();
        if n < 4 {
            return (copy_ids(&current.0), copy_path(&current.1));
        }
        let i: usize = 1 + below(&mut self.rng, n - 2);
        let j: usize = 1 + below(&mut self.rng, n - 2);
        let candidate: Route = swap_stops(current, i, j);
        assert(inner_stops(current.1@.len(), i as int, j as int));
        candidate
    }
}

} // verus!
