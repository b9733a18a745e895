//! The nearest-neighbour tour: from where the vehicle stands, always on to
//! the nearest target it has not visited yet.
//!
//! Where several targets are equally near, the one that comes first in the
//! list is taken. With this rule there is exactly one such tour over any
//! list of targets.

use vstd::prelude::*;
use vstd::set_lib::{lemma_int_range, lemma_len_subset, lemma_subset_equality, set_int_range};
use crate::geometry::{get_dist, manhattan, Point};

verus! {

/// None of the first `t` stops of the tour is at target `i`.
pub open spec fn unvisited(tour: Seq<usize>, t: int, i: int) -> bool {
    forall|s: int| 0 <= s < t ==> #[trigger] tour[s] != i
}

/// Some stop of the tour is at target `i`.
pub open spec fn visits(tour: Seq<usize>, i: int) -> bool {
    exists|t: int| 0 <= t < tour.len() && #[trigger] tour[t] == i
}

/// Where the vehicle stands before stop `t` of the tour.
pub open spec fn position(targets: Seq<Point>, start: Point, tour: Seq<usize>, t: int) -> Point {
    if t <= 0 {
        start
    } else {
        targets[tour[t - 1] as int]
    }
}

/// Seen from `from`, target `j` is to be preferred to target `i`: it is
/// nearer, or as near and not later in the list.
pub open spec fn preferred(targets: Seq<Point>, from: Point, j: int, i: int) -> bool {
    manhattan(targets[j], from) < manhattan(targets[i], from) || (manhattan(targets[j], from)
        == manhattan(targets[i], from) && j <= i)
}

/// Stop `t` of the tour goes to the target that is nearest to the
/// vehicle's position among those it has not visited yet; among equally
/// near ones, to the first in the list.
pub open spec fn greedy_step(targets: Seq<Point>, start: Point, tour: Seq<usize>, t: int) -> bool {
    let j = tour[t] as int;
    let from = position(targets, start, tour, t);
    &&& 0 <= j < targets.len()
    &&& unvisited(tour, t, j)
    &&& forall|i: int|
        0 <= i < targets.len() && #[trigger] unvisited(tour, t, i) ==> preferred(
            targets,
            from,
            j,
            i,
        )
}

/// The tour visits every target once, each stop chosen greedily.
pub open spec fn is_greedy_tour(targets: Seq<Point>, start: Point, tour: Seq<usize>) -> bool {
    &&& tour.len() == targets.len()
    &&& forall|t: int| 0 <= t < tour.len() ==> #[trigger] greedy_step(targets, start, tour, t)
}

/// The nearest-neighbour tour over the targets that starts at `start`.
/// There is exactly one: see `lemma_greedy_tour_unique`.
pub open spec fn greedy_tour_of(targets: Seq<Point>, start: Point) -> Seq<usize> {
    choose|tour: Seq<usize>| is_greedy_tour(targets, start, tour)
}

/// Whether a stop is greedy depends on the tour up to that stop only.
pub proof fn lemma_greedy_step_prefix(
    targets: Seq<Point>,
    start: Point,
    one: Seq<usize>,
    other: Seq<usize>,
    t: int,
)
    requires
        0 <= t < one.len(),
        t < other.len(),
        forall|s: int| 0 <= s <= t ==> one[s] == other[s],
    ensures
        greedy_step(targets, start, one, t) == greedy_step(targets, start, other, t),
{
    assert forall|i: int| unvisited(one, t, i) == unvisited(other, t, i) by {
        assert forall|s: int| 0 <= s < t implies (one[s] != i) == (other[s] != i) by {
            assert(one[s] == other[s]);
        }
    }
    assert(position(targets, start, one, t) == position(targets, start, other, t)) by {
        if t > 0 {
            assert(one[t - 1] == other[t - 1]);
        }
    }
    assert(one[t] == other[t]);
}

/// Two tours that are greedy up to stop `t` agree up to stop `t`.
pub proof fn lemma_greedy_prefix_unique(
    targets: Seq<Point>,
    start: Point,
    one: Seq<usize>,
    other: Seq<usize>,
    t: int,
)
    requires
        0 <= t <= one.len(),
        t <= other.len(),
        forall|s: int| 0 <= s < t ==> #[trigger] greedy_step(targets, start, one, s),
        forall|s: int| 0 <= s < t ==> #[trigger] greedy_step(targets, start, other, s),
    ensures
        forall|s: int| 0 <= s < t ==> one[s] == other[s],
    decreases t,
{
    if t > 0 {
        lemma_greedy_prefix_unique(targets, start, one, other, t - 1);
        let last = t - 1;
        assert(greedy_step(targets, start, one, last));
        assert(greedy_step(targets, start, other, last));
        let a = one[last] as int;
        let b = other[last] as int;
        assert forall|i: int| unvisited(one, last, i) == unvisited(other, last, i) by {
            assert forall|s: int| 0 <= s < last implies (one[s] != i) == (other[s] != i) by {
                assert(one[s] == other[s]);
            }
        }
        assert(position(targets, start, one, last) == position(targets, start, other, last)) by {
            if last > 0 {
                assert(one[last - 1] == other[last - 1]);
            }
        }
        assert(unvisited(one, last, b));
        assert(unvisited(other, last, a));
        assert(a == b);
    }
}

/// There is at most one greedy tour.
pub proof fn lemma_greedy_tour_unique(
    targets: Seq<Point>,
    start: Point,
    one: Seq<usize>,
    other: Seq<usize>,
)
    requires
        is_greedy_tour(targets, start, one),
        is_greedy_tour(targets, start, other),
    ensures
        one == other,
{
    lemma_greedy_prefix_unique(targets, start, one, other, one.len() as int);
    assert(one =~= other);
}

/// A tour that visits only targets it has not visited before, and has not
/// yet made as many stops as there are targets, has left one out.
pub proof fn lemma_some_target_left(n: nat, tour: Seq<usize>)
    requires
        tour.len() < n,
        forall|t: int| 0 <= t < tour.len() ==> (#[trigger] tour[t]) < n,
        forall|t: int| 0 <= t < tour.len() ==> unvisited(tour, t, #[trigger] tour[t] as int),
    ensures
        exists|i: int| 0 <= i < n && unvisited(tour, tour.len() as int, i),
{
    let stops = Seq::new(tour.len(), |t: int| tour[t] as int);
    assert(stops.no_duplicates()) by {
        assert forall|a: int, b: int|
            0 <= a < stops.len() && 0 <= b < stops.len() && a != b implies stops[a]
            != stops[b] by {
            if a < b {
                assert(unvisited(tour, b, tour[b] as int));
                assert(tour[a] != tour[b]);
            } else {
                assert(unvisited(tour, a, tour[a] as int));
                assert(tour[b] != tour[a]);
            }
        }
    }
    stops.unique_seq_to_set();
    lemma_int_range(0, n as int);
    if forall|i: int| 0 <= i < n ==> !unvisited(tour, tour.len() as int, i) {
        assert(set_int_range(0, n as int).subset_of(stops.to_set())) by {
            assert forall|i: int| set_int_range(0, n as int).contains(i) implies stops.to_set()
                .contains(i) by {
                assert(!unvisited(tour, tour.len() as int, i));
                let s = choose|s: int| 0 <= s < tour.len() && tour[s] == i;
                assert(stops[s] == i);
                assert(stops.contains(i));
            }
        }
        lemma_len_subset(set_int_range(0, n as int), stops.to_set());
    }
}

/// A greedy tour visits every target exactly once.
pub proof fn lemma_greedy_tour_visits_all(targets: Seq<Point>, start: Point, tour: Seq<usize>)
    requires
        is_greedy_tour(targets, start, tour),
    ensures
        tour.no_duplicates(),
        forall|t: int| 0 <= t < tour.len() ==> (#[trigger] tour[t]) < targets.len(),
        forall|i: int| 0 <= i < targets.len() ==> #[trigger] visits(tour, i),
{
    let n = targets.len();
    assert forall|t: int| 0 <= t < tour.len() implies (#[trigger] tour[t]) < n && unvisited(
        tour,
        t,
        tour[t] as int,
    ) by {
        assert(greedy_step(targets, start, tour, t));
    }
    let stops = Seq::new(tour.len(), |t: int| tour[t] as int);
    assert(stops.no_duplicates() && tour.no_duplicates()) by {
        assert forall|a: int, b: int| 0 <= a < tour.len() && 0 <= b < tour.len() && a != b implies tour[a]
            != tour[b] && stops[a] != stops[b] by {
            if a < b {
                assert(unvisited(tour, b, tour[b] as int));
                assert(tour[a] != tour[b]);
            } else {
                assert(unvisited(tour, a, tour[a] as int));
                assert(tour[b] != tour[a]);
            }
        }
    }
    stops.unique_seq_to_set();
    lemma_int_range(0, n as int);
    assert(stops.to_set().subset_of(set_int_range(0, n as int))) by {
        assert forall|v: int| stops.to_set().contains(v) implies set_int_range(0, n as int)
            .contains(v) by {
            let s = choose|s: int| 0 <= s < stops.len() && stops[s] == v;
            assert(tour[s] < n);
        }
    }
    lemma_subset_equality(stops.to_set(), set_int_range(0, n as int));
    assert forall|i: int| 0 <= i < n implies #[trigger] visits(tour, i) by {
        assert(set_int_range(0, n as int).contains(i));
        assert(stops.to_set().contains(i));
        let s = choose|s: int| 0 <= s < stops.len() && stops[s] == i;
        assert(tour[s] == i);
    }
}

/// Among the first `m` targets, if one is left unvisited, one of those left
/// is preferred to all the others.
pub proof fn lemma_nearest_exists(
    targets: Seq<Point>,
    from: Point,
    tour: Seq<usize>,
    t: int,
    m: int,
) -> (j: int)
    requires
        0 <= m <= targets.len(),
        exists|i: int| 0 <= i < m && unvisited(tour, t, i),
    ensures
        0 <= j < m,
        unvisited(tour, t, j),
        forall|i: int| 0 <= i < m && #[trigger] unvisited(tour, t, i) ==> preferred(targets, from, j, i),
    decreases m,
{
    let last = m - 1;
    if exists|i: int| 0 <= i < last && unvisited(tour, t, i) {
        let b = lemma_nearest_exists(targets, from, tour, t, last);
        if unvisited(tour, t, last) && manhattan(targets[last], from) < manhattan(
            targets[b],
            from,
        ) {
            assert forall|i: int| 0 <= i < m && #[trigger] unvisited(tour, t, i) implies preferred(
                targets,
                from,
                last,
                i,
            ) by {
                if i < last {
                    assert(preferred(targets, from, b, i));
                }
            }
            last
        } else {
            b
        }
    } else {
        let w = choose|i: int| 0 <= i < m && unvisited(tour, t, i);
        assert(w == last);
        last
    }
}

/// A tour can be greedy for any number of stops up to the number of
/// targets.
pub proof fn lemma_greedy_prefix_exists(targets: Seq<Point>, start: Point, t: nat) -> (tour: Seq<
    usize,
>)
    requires
        t <= targets.len() <= usize::MAX,
    ensures
        tour.len() == t,
        forall|s: int| 0 <= s < t ==> #[trigger] greedy_step(targets, start, tour, s),
    decreases t,
{
    if t == 0 {
        Seq::empty()
    } else {
        let n = targets.len();
        let last = (t - 1) as int;
        let prev = lemma_greedy_prefix_exists(targets, start, last as nat);
        assert forall|s: int| 0 <= s < last implies (#[trigger] prev[s]) < n && unvisited(
            prev,
            s,
            prev[s] as int,
        ) by {
            assert(greedy_step(targets, start, prev, s));
        }
        lemma_some_target_left(n, prev);
        let from = position(targets, start, prev, last);
        let j = lemma_nearest_exists(targets, from, prev, last, n as int);
        let tour = prev.push(j as usize);
        assert forall|s: int| 0 <= s < t implies #[trigger] greedy_step(targets, start, tour, s) by {
            if s < last {
                assert(greedy_step(targets, start, prev, s));
                lemma_greedy_step_prefix(targets, start, prev, tour, s);
            } else {
                assert forall|a: int| unvisited(tour, last, a) == unvisited(prev, last, a) by {
                    assert forall|s2: int| 0 <= s2 < last implies (tour[s2] != a) == (prev[s2]
                        != a) by {
                        assert(tour[s2] == prev[s2]);
                    }
                }
                assert(position(targets, start, tour, last) == from);
                assert(tour[last] == j);
                assert forall|a: int|
                    0 <= a < targets.len() && #[trigger] unvisited(tour, last, a) implies preferred(
                    targets,
                    from,
                    j,
                    a,
                ) by {
                    assert(unvisited(prev, last, a));
                }
            }
        }
        tour
    }
}

/// Over any list of targets there is a greedy tour, and `greedy_tour_of`
/// names it.
pub proof fn lemma_greedy_tour_exists(targets: Seq<Point>, start: Point)
    requires
        targets.len() <= usize::MAX,
    ensures
        is_greedy_tour(targets, start, greedy_tour_of(targets, start)),
{
    let tour = lemma_greedy_prefix_exists(targets, start, targets.len());
    assert(is_greedy_tour(targets, start, tour));
}

/// Finds the target to go to next: the nearest one not yet visited, the
/// first of them where several are equally near.
fn pick_nearest(targets: &Vec<Point>, visited: &Vec<bool>, from: Point) -> (j: usize)
    requires
        visited.len() == targets.len(),
        exists|i: int| 0 <= i < visited.len() && !visited[i],
    ensures
        j < targets.len(),
        !visited[j as int],
        forall|i: int|
            0 <= i < targets.len() && !(#[trigger] visited[i]) ==> preferred(
                targets@,
                from,
                j as int,
                i,
            ),
{
    let mut best: Option<usize> = None;
    let mut best_dist: u64 = 0;
    let mut i: usize = 0;
    while i < targets.len()
        invariant
            i <= targets.len(),
            visited.len() == targets.len(),
            best is None ==> forall|a: int| 0 <= a < i ==> #[trigger] visited[a],
            best matches Some(b) ==> {
                &&& b < i
                &&& !visited[b as int]
                &&& best_dist == manhattan(targets[b as int], from)
                &&& forall|a: int|
                    0 <= a < i && !(#[trigger] visited[a]) ==> preferred(
                        targets@,
                        from,
                        b as int,
                        a,
                    )
            },
        decreases targets.len() - i,
    {
        if !visited[i] {
            let d: u64 = get_dist(targets[i], from);
            let better: bool = match best {
                Some(_) => d < best_dist,
                None => true,
            };
            if better {
                best = Some(i);
                best_dist = d;
            }
        }
        i += 1;
    }
    match best {
        Some(b) => b,
        None => {
            // Not reached: the caller has shown that a target is left.
            proof {
                let w = choose|w: int| 0 <= w < visited.len() && !visited[w];
                assert(visited[w]);
            }
            0
        },
    }
}

/// Walks the nearest-neighbour tour over the targets, starting at `start`.
/// The result lists the targets by their position in `targets`, in the
/// order in which they are visited.
pub fn greedy_tour(targets: &Vec<Point>, start: Point) -> (tour: Vec<usize>)
    ensures
        is_greedy_tour(targets@, start, tour@),
        tour@ == greedy_tour_of(targets@, start),
{
    let n: usize = targets.len();
    let mut visited: Vec<bool> = Vec::new();
    let mut i: usize = 0;
    while i < n
        invariant
            i <= n,
            visited.len() == i,
            forall|a: int| 0 <= a < i ==> !(#[trigger] visited[a]),
        decreases n - i,
    {
        visited.push(false);
        i += 1;
    }
    let mut tour: Vec<usize> = Vec::new();
    let mut cur: Point = start;
    while tour.len() < n
        invariant
            n == targets.len(),
            visited.len() == n,
            tour.len() <= n,
            cur == position(targets@, start, tour@, tour.len() as int),
            forall|a: int|
                0 <= a < n ==> ((#[trigger] visited[a]) <==> !unvisited(
                    tour@,
                    tour.len() as int,
                    a,
                )),
            forall|t: int| 0 <= t < tour.len() ==> #[trigger] greedy_step(targets@, start, tour@, t),
        decreases n - tour.len(),
    {
        let ghost before = tour@;
        let ghost seen = visited@;
        let ghost from = cur;
        let ghost t = tour.len() as int;
        proof {
            assert forall|s: int| 0 <= s < t implies (#[trigger] before[s]) < n && unvisited(
                before,
                s,
                before[s] as int,
            ) by {
                assert(greedy_step(targets@, start, before, s));
            }
            lemma_some_target_left(n as nat, before);
            let w = choose|w: int| 0 <= w < n && unvisited(before, t, w);
            assert(!visited[w]);
        }
        let j: usize = pick_nearest(targets, &visited, cur);
        visited.set(j, true);
        tour.push(j);
        cur = targets[j];
        proof {
            let after = tour@;
            assert(after[t] == j);
            assert forall|s: int| 0 <= s <= t implies #[trigger] greedy_step(
                targets@,
                start,
                after,
                s,
            ) by {
                if s < t {
                    assert(greedy_step(targets@, start, before, s));
                    lemma_greedy_step_prefix(targets@, start, before, after, s);
                } else {
                    assert forall|a: int| unvisited(after, t, a) == unvisited(before, t, a) by {
                        assert forall|s2: int| 0 <= s2 < t implies (after[s2] != a) == (before[s2]
                            != a) by {
                            assert(after[s2] == before[s2]);
                        }
                    }
                    assert(position(targets@, start, after, t) == position(
                        targets@,
                        start,
                        before,
                        t,
                    ));
                    assert forall|a: int|
                        0 <= a < targets.len() && #[trigger] unvisited(after, t, a) implies preferred(
                        targets@,
                        position(targets@, start, after, t),
                        j as int,
                        a,
                    ) by {
                        assert(unvisited(before, t, a));
                        assert(!seen[a]);
                        assert(preferred(targets@, from, j as int, a));
                    }
                }
            }
            assert forall|a: int| 0 <= a < n implies ((#[trigger] visited[a]) <==> !unvisited(
                after,
                t + 1,
                a,
            )) by {
                if unvisited(after, t + 1, a) {
                    assert(after[t] != a);
                    assert forall|s2: int| 0 <= s2 < t implies #[trigger] before[s2] != a by {
                        assert(after[s2] != a);
                    }
                } else {
                    let s2 = choose|s2: int| 0 <= s2 < t + 1 && after[s2] == a;
                    if s2 < t {
                        assert(before[s2] == a);
                    }
                }
            }
        }
    }
    proof {
        assert(is_greedy_tour(targets@, start, tour@));
        lemma_greedy_tour_unique(targets@, start, tour@, greedy_tour_of(targets@, start));
    }
    tour
}

} // verus!
