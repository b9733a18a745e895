//! Replaying a route against the order list: is it feasible, and what is it
//! worth.

use vstd::prelude::*;
use vstd::arithmetic::div_mod::{lemma_basic_div, lemma_div_is_ordered_by_denominator};
use std::collections::HashMap;
use crate::geometry::{get_dist, manhattan, max_distance, Point};
use crate::order::{indexed, Order, TargetKind};
use crate::route::{default_depot, default_depot_point, has_bookends};

verus! {

broadcast use vstd::std_specs::hash::group_hash_axioms;

/// How far one order has come while the vehicle follows a path.
#[derive(Debug, Clone, Copy, PartialEq, Eq, Structural)]
pub enum Progress {
    Pending,
    PickedUp,
    Completed,
}

/// Why a route is rejected as malformed.
#[derive(Debug, Clone, Copy, PartialEq, Eq, Structural)]
pub enum Rejection {
    /// The path has no point at all.
    EmptyPath,
    /// The path does not both start and end at the depot.
    DepotMissing,
    /// An order id is listed more than once.
    DuplicateIds,
    /// Some listed order was not picked up and then delivered.
    Unfinished,
}

/// What the validator found out about a route.
#[derive(Debug, Clone, Copy)]
pub struct Assessment {
    /// Zero for a rejected route, otherwise the score of its length.
    pub score: u32,
    /// The reason, where the route is rejected.
    pub rejection: Option<Rejection>,
    /// The route is accepted, but does not serve as many orders as a batch
    /// is expected to hold.
    pub batch_mismatch: bool,
}

/// The one guarded step of an order's life: a pickup counts only while the
/// order is pending, a delivery only once it has been picked up. Everything
/// else leaves the order where it is.
pub open spec fn advance(s: Progress, kind: TargetKind) -> Progress {
    match (s, kind) {
        (Progress::Pending, TargetKind::Pickup) => Progress::PickedUp,
        (Progress::PickedUp, TargetKind::Delivery) => Progress::Completed,
        _ => s,
    }
}

/// What a stop at `p` does to order `id`, as far as the entry `o` of the
/// order list is concerned: its pickup is looked at first, then its
/// delivery.
pub open spec fn stop_at_order(o: Order, p: Point, id: usize, s: Progress) -> Progress {
    if o.id != id {
        s
    } else {
        let s1 = if o.pickup.point == p {
            advance(s, TargetKind::Pickup)
        } else {
            s
        };
        if o.delivery.point == p {
            advance(s1, TargetKind::Delivery)
        } else {
            s1
        }
    }
}

/// What a stop at `p` does to order `id`: the entries of the order list are
/// looked at in list order.
pub open spec fn stop_at(orders: Seq<Order>, p: Point, id: usize, s: Progress) -> Progress
    decreases orders.len(),
{
    if orders.len() == 0 {
        s
    } else {
        stop_at_order(orders.last(), p, id, stop_at(orders.drop_last(), p, id, s))
    }
}

/// How far order `id` has come after the vehicle has followed `path`.
pub open spec fn progress_along(orders: Seq<Order>, path: Seq<Point>, id: usize) -> Progress
    decreases path.len(),
{
    if path.len() == 0 {
        Progress::Pending
    } else {
        stop_at(orders, path.last(), id, progress_along(orders, path.drop_last(), id))
    }
}

/// Every listed order has been picked up and delivered along the path.
pub open spec fn all_completed(orders: Seq<Order>, path: Seq<Point>, ids: Seq<usize>) -> bool {
    forall|k: int|
        0 <= k < ids.len() ==> progress_along(orders, path, #[trigger] ids[k])
            == Progress::Completed
}

/// The sum of the distances between consecutive points of the path.
pub open spec fn path_length(path: Seq<Point>) -> nat
    decreases path.len(),
{
    if path.len() <= 1 {
        0
    } else {
        path_length(path.drop_last()) + manhattan(path[path.len() - 2], path.last())
    }
}

/// The score of an accepted route of the given length:
/// `floor(100000000 / (1000 + length))`.
pub open spec fn score_for_length(length: nat) -> nat {
    100_000_000nat / (1000 + length)
}

/// The first reason, if any, for which the route is rejected. The checks
/// are made in this order: the path is empty; the depot is missing at one
/// end; an id is repeated; an order is left unfinished.
pub open spec fn rejection(
    orders: Seq<Order>,
    ids: Seq<usize>,
    path: Seq<Point>,
    depot: Point,
) -> Option<Rejection> {
    if path.len() == 0 {
        Some(Rejection::EmptyPath)
    } else if !has_bookends(path, depot) {
        Some(Rejection::DepotMissing)
    } else if !ids.no_duplicates() {
        Some(Rejection::DuplicateIds)
    } else if !all_completed(orders, path, ids) {
        Some(Rejection::Unfinished)
    } else {
        None
    }
}

/// The score of a route: zero where it is rejected, otherwise the score of
/// its length.
pub open spec fn route_score(
    orders: Seq<Order>,
    ids: Seq<usize>,
    path: Seq<Point>,
    depot: Point,
) -> nat {
    if rejection(orders, ids, path, depot) is Some {
        0
    } else {
        score_for_length(path_length(path))
    }
}

/// Everything the validator reports about a route.
pub open spec fn assess(
    orders: Seq<Order>,
    ids: Seq<usize>,
    path: Seq<Point>,
    depot: Point,
    batch_size: usize,
) -> Assessment {
    Assessment {
        score: route_score(orders, ids, path, depot) as u32,
        rejection: rejection(orders, ids, path, depot),
        batch_mismatch: rejection(orders, ids, path, depot) is None && ids.len() != batch_size,
    }
}

/// No score exceeds the score of a path of length zero.
pub proof fn lemma_score_bounded(length: nat)
    ensures
        score_for_length(length) <= 100_000,
{
    lemma_div_is_ordered_by_denominator(100_000_000, 1000, (1000 + length) as int);
}

/// A shorter path never scores lower.
pub proof fn lemma_score_monotone(shorter: nat, longer: nat)
    requires
        shorter <= longer,
    ensures
        score_for_length(shorter) >= score_for_length(longer),
{
    lemma_div_is_ordered_by_denominator(
        100_000_000,
        (1000 + shorter) as int,
        (1000 + longer) as int,
    );
}

/// The score of a length is positive exactly up to length 99999000.
pub proof fn lemma_score_positive(length: nat)
    ensures
        score_for_length(length) > 0 <==> length <= 99_999_000,
{
    if length <= 99_999_000 {
        lemma_div_is_ordered_by_denominator(100_000_000, (1000 + length) as int, 100_000_000);
    } else {
        lemma_basic_div(100_000_000, (1000 + length) as int);
    }
}

/// Extending a path by one point adds the distance of the last hop.
pub proof fn lemma_path_length_step(path: Seq<Point>, n: int)
    requires
        1 <= n < path.len(),
    ensures
        path_length(path.take(n + 1)) == path_length(path.take(n)) + manhattan(
            path[n - 1],
            path[n],
        ),
{
    assert(path.take(n + 1).drop_last() =~= path.take(n));
}

/// Following one more point of a path is one more stop.
pub proof fn lemma_progress_step(orders: Seq<Order>, path: Seq<Point>, n: int, id: usize)
    requires
        0 <= n < path.len(),
    ensures
        progress_along(orders, path.take(n + 1), id) == stop_at(
            orders,
            path[n],
            id,
            progress_along(orders, path.take(n), id),
        ),
{
    assert(path.take(n + 1).drop_last() =~= path.take(n));
}

/// Looking at one more entry of the order list during a stop.
pub proof fn lemma_stop_step(orders: Seq<Order>, n: int, p: Point, id: usize, s: Progress)
    requires
        0 <= n < orders.len(),
    ensures
        stop_at(orders.take(n + 1), p, id, s) == stop_at_order(
            orders[n],
            p,
            id,
            stop_at(orders.take(n), p, id, s),
        ),
{
    assert(orders.take(n + 1).drop_last() =~= orders.take(n));
}

/// Orders only move forward: pending, then picked up, then completed.
pub open spec fn rank(s: Progress) -> nat {
    match s {
        Progress::Pending => 0,
        Progress::PickedUp => 1,
        Progress::Completed => 2,
    }
}

/// A stop never sets an order back.
pub proof fn lemma_stop_monotone(orders: Seq<Order>, p: Point, id: usize, s: Progress)
    ensures
        rank(stop_at(orders, p, id, s)) >= rank(s),
    decreases orders.len(),
{
    if orders.len() > 0 {
        lemma_stop_monotone(orders.drop_last(), p, id, s);
    }
}

/// A stop at the pickup point of an entry for order `id` leaves the order
/// picked up at least.
pub proof fn lemma_stop_picks_up(orders: Seq<Order>, j: int, p: Point, id: usize, s: Progress)
    requires
        0 <= j < orders.len(),
        orders[j].id == id,
        orders[j].pickup.point == p,
    ensures
        rank(stop_at(orders, p, id, s)) >= 1,
    decreases orders.len(),
{
    if j < orders.len() - 1 {
        lemma_stop_picks_up(orders.drop_last(), j, p, id, s);
    }
}

/// A stop at the delivery point of an entry for order `id` completes the
/// order once it has been picked up.
pub proof fn lemma_stop_delivers(orders: Seq<Order>, j: int, p: Point, id: usize, s: Progress)
    requires
        0 <= j < orders.len(),
        orders[j].id == id,
        orders[j].delivery.point == p,
        rank(s) >= 1,
    ensures
        stop_at(orders, p, id, s) == Progress::Completed,
    decreases orders.len(),
{
    lemma_stop_monotone(orders.drop_last(), p, id, s);
    if j < orders.len() - 1 {
        lemma_stop_delivers(orders.drop_last(), j, p, id, s);
    }
}

/// Along a path an order never falls back.
pub proof fn lemma_progress_monotone(
    orders: Seq<Order>,
    path: Seq<Point>,
    a: int,
    b: int,
    id: usize,
)
    requires
        0 <= a <= b <= path.len(),
    ensures
        rank(progress_along(orders, path.take(b), id)) >= rank(
            progress_along(orders, path.take(a), id),
        ),
    decreases b - a,
{
    if a < b {
        lemma_progress_monotone(orders, path, a, b - 1, id);
        lemma_progress_step(orders, path, b - 1, id);
        lemma_stop_monotone(orders, path[b - 1], id, progress_along(orders, path.take(b - 1), id));
    }
}

/// An order whose pickup point is on the path before its delivery point is
/// completed along the path.
pub proof fn lemma_pickup_then_delivery_completes(
    orders: Seq<Order>,
    path: Seq<Point>,
    j: int,
    a: int,
    b: int,
)
    requires
        0 <= j < orders.len(),
        0 <= a < b < path.len(),
        path[a] == orders[j].pickup.point,
        path[b] == orders[j].delivery.point,
    ensures
        progress_along(orders, path, orders[j].id) == Progress::Completed,
{
    let id = orders[j].id;
    lemma_progress_step(orders, path, a, id);
    lemma_stop_picks_up(orders, j, path[a], id, progress_along(orders, path.take(a), id));
    lemma_progress_monotone(orders, path, a + 1, b, id);
    lemma_progress_step(orders, path, b, id);
    lemma_stop_delivers(orders, j, path[b], id, progress_along(orders, path.take(b), id));
    lemma_progress_monotone(orders, path, b + 1, path.len() as int, id);
    assert(path.take(path.len() as int) =~= path);
}

/// Where the orders carry their position as their id, a stop concerns
/// order `id` through the one entry at position `id`, if there is one.
pub proof fn lemma_stop_at_indexed(orders: Seq<Order>, n: int, p: Point, id: usize, s: Progress)
    requires
        indexed(orders),
        0 <= n <= orders.len(),
    ensures
        stop_at(orders.take(n), p, id, s) == if id < n {
            stop_at_order(orders[id as int], p, id, s)
        } else {
            s
        },
    decreases n,
{
    if n > 0 {
        lemma_stop_at_indexed(orders, n - 1, p, id, s);
        lemma_stop_step(orders, n - 1, p, id, s);
        assert(orders[n - 1].id == n - 1);
        if id < n - 1 {
            assert(orders[id as int].id == id);
        }
    }
}

fn step(s: Progress, kind: TargetKind) -> (r: Progress)
    ensures
        r == advance(s, kind),
{
    match (s, kind) {
        (Progress::Pending, TargetKind::Pickup) => Progress::PickedUp,
        (Progress::PickedUp, TargetKind::Delivery) => Progress::Completed,
        _ => s,
    }
}

/// Starts the bookkeeping: every listed id pending. `None` where an id is
/// listed twice.
fn track(ids: &Vec<usize>) -> (r: Option<HashMap<usize, Progress>>)
    ensures
        r is Some <==> ids@.no_duplicates(),
        r matches Some(m) ==> {
            &&& forall|id: usize| m@.contains_key(id) <==> ids@.contains(id)
            &&& forall|id: usize| m@.contains_key(id) ==> m@[id] == Progress::Pending
        },
{
    let mut m: HashMap<usize, Progress> = HashMap::new();
    let mut i: usize = 0;
    while i < ids.len()
        invariant
            i <= ids.len(),
            forall|a: int, b: int| 0 <= a < b < i ==> ids[a] != ids[b],
            forall|id: usize| m@.contains_key(id) <==> ids@.take(i as int).contains(id),
            forall|id: usize| m@.contains_key(id) ==> m@[id] == Progress::Pending,
        decreases ids.len() - i,
    {
        let id: usize = ids[i];
        if m.contains_key(&id) {
            proof {
                let a = choose|a: int| 0 <= a < i && ids@.take(i as int)[a] == id;
                assert(ids@[a] == ids@[i as int]);
            }
            return None;
        }
        m.insert(id, Progress::Pending);
        proof {
            let before = ids@.take(i as int);
            let after = ids@.take(i + 1);
            assert(after =~= before.push(id));
            assert forall|x: usize| m@.contains_key(x) <==> after.contains(x) by {
                if before.contains(x) {
                    let a = choose|a: int| 0 <= a < before.len() && before[a] == x;
                    assert(after[a] == x);
                }
                if x == id {
                    assert(after[i as int] == x);
                }
            }
            assert forall|a: int, b: int| 0 <= a < b < i + 1 implies ids[a] != ids[b] by {
                if b == i {
                    assert(before[a] == ids[a]);
                    assert(before.contains(ids[a]));
                }
            }
        }
        i += 1;
    }
    proof {
        assert(ids@.take(i as int) =~= ids@);
    }
    Some(m)
}

/// Replays one stop at `p` on the bookkeeping.
fn visit(orders: &Vec<Order>, p: Point, m: &mut HashMap<usize, Progress>)
    ensures
        final(m)@.dom() =~= old(m)@.dom(),
        forall|id: usize| #[trigger]
            old(m)@.contains_key(id) ==> final(m)@[id] == stop_at(orders@, p, id, old(m)@[id]),
{
    let ghost start = m@;
    let mut j: usize = 0;
    while j < orders.len()
        invariant
            j <= orders.len(),
            m@.dom() =~= start.dom(),
            forall|id: usize| #[trigger]
                start.contains_key(id) ==> m@[id] == stop_at(
                    orders@.take(j as int),
                    p,
                    id,
                    start[id],
                ),
        decreases orders.len() - j,
    {
        let o: Order = orders[j];
        let at_pickup: bool = o.pickup.point == p;
        let at_delivery: bool = o.delivery.point == p;
        let ghost before = m@;
        if at_pickup || at_delivery {
            let found: Option<Progress> = match m.get(&o.id) {
                Some(s) => Some(*s),
                None => None,
            };
            if let Some(s) = found {
                let s1: Progress = if at_pickup {
                    step(s, TargetKind::Pickup)
                } else {
                    s
                };
                let s2: Progress = if at_delivery {
                    step(s1, TargetKind::Delivery)
                } else {
                    s1
                };
                m.insert(o.id, s2);
            }
        }
        proof {
            assert forall|id: usize| #[trigger] start.contains_key(id) implies m@[id] == stop_at(
                orders@.take(j + 1),
                p,
                id,
                start[id],
            ) by {
                lemma_stop_step(orders@, j as int, p, id, start[id]);
                assert(before.contains_key(id));
            }
        }
        j += 1;
    }
    proof {
        assert(orders@.take(j as int) =~= orders@);
    }
}

/// Replays the whole path on the bookkeeping.
fn replay(orders: &Vec<Order>, path: &Vec<Point>, m: &mut HashMap<usize, Progress>)
    requires
        forall|id: usize| old(m)@.contains_key(id) ==> old(m)@[id] == Progress::Pending,
    ensures
        final(m)@.dom() =~= old(m)@.dom(),
        forall|id: usize| #[trigger]
            old(m)@.contains_key(id) ==> final(m)@[id] == progress_along(orders@, path@, id),
{
    let ghost start = m@;
    let mut i: usize = 0;
    while i < path.len()
        invariant
            i <= path.len(),
            m@.dom() =~= start.dom(),
            forall|id: usize| #[trigger]
                start.contains_key(id) ==> m@[id] == progress_along(
                    orders@,
                    path@.take(i as int),
                    id,
                ),
        decreases path.len() - i,
    {
        let ghost before = m@;
        visit(orders, path[i], m);
        proof {
            assert forall|id: usize| #[trigger] start.contains_key(id) implies m@[id]
                == progress_along(orders@, path@.take(i + 1), id) by {
                lemma_progress_step(orders@, path@, i as int, id);
                assert(before.contains_key(id));
            }
        }
        i += 1;
    }
    proof {
        assert(path@.take(i as int) =~= path@);
    }
}

/// Whether the bookkeeping shows every listed order completed.
fn finished(
    ids: &Vec<usize>,
    m: &HashMap<usize, Progress>,
    Ghost(orders): Ghost<Seq<Order>>,
    Ghost(path): Ghost<Seq<Point>>,
) -> (done: bool)
    requires
        forall|id: usize| ids@.contains(id) ==> m@.contains_key(id),
        forall|id: usize| #[trigger]
            m@.contains_key(id) ==> m@[id] == progress_along(orders, path, id),
    ensures
        done == all_completed(orders, path, ids@),
{
    let mut k: usize = 0;
    while k < ids.len()
        invariant
            k <= ids.len(),
            forall|id: usize| ids@.contains(id) ==> m@.contains_key(id),
            forall|id: usize| #[trigger]
                m@.contains_key(id) ==> m@[id] == progress_along(orders, path, id),
            forall|a: int|
                0 <= a < k ==> progress_along(orders, path, #[trigger] ids[a])
                    == Progress::Completed,
        decreases ids.len() - k,
    {
        let id: usize = ids[k];
        assert(ids@.contains(id));
        let completed: bool = match m.get(&id) {
            Some(s) => *s == Progress::Completed,
            None => false,
        };
        if !completed {
            return false;
        }
        k += 1;
    }
    true
}

/// Adds up the hops of the path.
pub fn total_length(path: &Vec<Point>) -> (total: u128)
    ensures
        total == path_length(path@),
        total <= path.len() * max_distance(),
{
    if path.len() < 2 {
        return 0;
    }
    let mut total: u128 = 0;
    let mut i: usize = 1;
    while i < path.len()
        invariant
            1 <= i <= path.len(),
            total == path_length(path@.take(i as int)),
            total <= (i - 1) * max_distance(),
        decreases path.len() - i,
    {
        proof {
            lemma_path_length_step(path@, i as int);
        }
        let hop: u64 = get_dist(path[i - 1], path[i]);
        total = total + hop as u128;
        i += 1;
    }
    proof {
        assert(path@.take(i as int) =~= path@);
    }
    total
}

/// The score of an accepted route of the given length.
pub fn score_of_length(length: u128) -> (score: u32)
    ensures
        score == score_for_length(length as nat),
        score <= 100_000,
{
    proof {
        lemma_score_bounded(length as nat);
        lemma_score_positive(length as nat);
    }
    if length > 99_999_000 {
        0
    } else {
        let score: u128 = 100_000_000u128 / (1000u128 + length);
        score as u32
    }
}

/// Checks a route against the order list and scores it. The inputs are
/// only read. A malformed route is never an error: it is reported with its
/// reason and a score of zero.
pub fn validate(
    orders: &Vec<Order>,
    ids: &Vec<usize>,
    path: &Vec<Point>,
    depot: Point,
    batch_size: usize,
) -> (found: Assessment)
    ensures
        found == assess(orders@, ids@, path@, depot, batch_size),
{
    if path.len() == 0 {
        return reject(Rejection::EmptyPath);
    }
    if path[0] != depot || path[path.len() - 1] != depot {
        return reject(Rejection::DepotMissing);
    }
    let mut m: HashMap<usize, Progress> = match track(ids) {
        Some(m) => m,
        None => {
            return reject(Rejection::DuplicateIds);
        },
    };
    replay(orders, path, &mut m);
    if !finished(ids, &m, Ghost(orders@), Ghost(path@)) {
        return reject(Rejection::Unfinished);
    }
    let score: u32 = score_of_length(total_length(path));
    Assessment { score, rejection: None, batch_mismatch: ids.len() != batch_size }
}

/// The score of a route: zero where it is malformed, otherwise
/// `floor(100000000 / (1000 + length))` for the length of its path.
pub fn score_route(orders: &Vec<Order>, ids: &Vec<usize>, path: &Vec<Point>, depot: Point) -> (score:
    u32)
    ensures
        score == route_score(orders@, ids@, path@, depot),
        score <= 100_000,
{
    proof {
        lemma_score_bounded(path_length(path@));
    }
    validate(orders, ids, path, depot, ids.len()).score
}

fn reject(reason: Rejection) -> (found: Assessment)
    ensures
        found == (Assessment { score: 0, rejection: Some(reason), batch_mismatch: false }),
{
    Assessment { score: 0, rejection: Some(reason), batch_mismatch: false }
}

/// The score of a route in the default setting: the depot at (400, 400).
pub fn calc_score(orders: &Vec<Order>, ids: &Vec<usize>, path: &Vec<Point>) -> (score: u32)
    ensures
        score == route_score(orders@, ids@, path@, default_depot_point()),
{
    score_route(orders, ids, path, default_depot())
}

} // verus!
