//! What holds between the constructors, the route invariants and the
//! validator.

use vstd::prelude::*;
use crate::construct::{
    delivery_points, first_ids, fixed_order_path, greedy_path, pickup_points, tour_points,
};
use crate::geometry::Point;
use crate::order::{indexed, Order};
use crate::route::{
    has_bookends, pickup_not_after_delivery, pickup_precedes_delivery, route_invariants,
};
use crate::score::{
    all_completed, assess, lemma_pickup_then_delivery_completes, lemma_progress_step,
    lemma_score_monotone, lemma_score_positive, lemma_stop_at_indexed, path_length,
    progress_along, rank, rejection, route_score, score_for_length, Progress,
};
use crate::tour::{
    greedy_tour_of, lemma_greedy_tour_exists, lemma_greedy_tour_visits_all, position, visits,
};

verus! {

/// A route that the validator accepts has a positive score, as long as its
/// path is no longer than 99999000.
pub proof fn lemma_accepted_route_scores(
    orders: Seq<Order>,
    ids: Seq<usize>,
    path: Seq<Point>,
    depot: Point,
)
    requires
        rejection(orders, ids, path, depot) is None,
        path_length(path) <= 99_999_000,
    ensures
        route_score(orders, ids, path, depot) > 0,
{
    lemma_score_positive(path_length(path));
}

/// Of two accepted routes, the one with the shorter path never scores
/// lower.
pub proof fn lemma_shorter_route_scores_no_lower(
    orders: Seq<Order>,
    ids: Seq<usize>,
    shorter: Seq<Point>,
    longer: Seq<Point>,
    depot: Point,
)
    requires
        rejection(orders, ids, shorter, depot) is None,
        rejection(orders, ids, longer, depot) is None,
        path_length(shorter) <= path_length(longer),
    ensures
        route_score(orders, ids, shorter, depot) >= route_score(orders, ids, longer, depot),
{
    lemma_score_monotone(path_length(shorter), path_length(longer));
}

/// Validating is a function of what is validated: equal order lists, ids,
/// paths, depots and batch sizes get equal assessments, however often and
/// whenever they are validated.
pub proof fn lemma_validation_repeatable(
    orders: Seq<Order>,
    ids: Seq<usize>,
    path: Seq<Point>,
    depot: Point,
    batch_size: usize,
    orders_again: Seq<Order>,
    ids_again: Seq<usize>,
    path_again: Seq<Point>,
)
    requires
        orders_again =~= orders,
        ids_again =~= ids,
        path_again =~= path,
    ensures
        assess(orders_again, ids_again, path_again, depot, batch_size) == assess(
            orders,
            ids,
            path,
            depot,
            batch_size,
        ),
        route_score(orders_again, ids_again, path_again, depot) == route_score(
            orders,
            ids,
            path,
            depot,
        ),
{
}

/// The fixed-order route keeps the route invariants: the depot at both
/// ends, no id twice, every pickup before its delivery.
pub proof fn lemma_fixed_order_route_invariants(orders: Seq<Order>, depot: Point, k: usize)
    requires
        k <= orders.len(),
    ensures
        route_invariants(orders, depot, first_ids(k as nat), fixed_order_path(orders, depot, k as nat)),
{
    let ids = first_ids(k as nat);
    let path = fixed_order_path(orders, depot, k as nat);
    assert(path.len() == 2 * k + 2);
    assert(path[0] == depot);
    assert(path.last() == depot);
    assert forall|i: int| 0 <= i < ids.len() implies (#[trigger] ids[i]) < orders.len()
        && pickup_precedes_delivery(path, orders[ids[i] as int]) by {
        let a = 1 + i;
        let b = 1 + k + i;
        assert(path[a] == orders[i].pickup.point);
        assert(path[b] == orders[i].delivery.point);
    }
}

/// The greedy route keeps the route invariants: the depot at both ends, no
/// id twice, every pickup before its delivery.
pub proof fn lemma_greedy_route_invariants(orders: Seq<Order>, depot: Point, k: usize)
    requires
        k <= orders.len(),
    ensures
        route_invariants(orders, depot, first_ids(k as nat), greedy_path(orders, depot, k as nat)),
{
    let ids = first_ids(k as nat);
    let path = greedy_path(orders, depot, k as nat);
    let pickups = pickup_points(orders, k as nat);
    let deliveries = delivery_points(orders, k as nat);
    let first = greedy_tour_of(pickups, depot);
    let turn = position(pickups, depot, first, k as int);
    let second = greedy_tour_of(deliveries, turn);
    lemma_greedy_tour_exists(pickups, depot);
    lemma_greedy_tour_exists(deliveries, turn);
    lemma_greedy_tour_visits_all(pickups, depot, first);
    lemma_greedy_tour_visits_all(deliveries, turn, second);
    assert(path.len() == 2 * k + 2);
    assert(path[0] == depot);
    assert(path.last() == depot);
    assert forall|i: int| 0 <= i < ids.len() implies (#[trigger] ids[i]) < orders.len()
        && pickup_precedes_delivery(path, orders[ids[i] as int]) by {
        assert(visits(first, i));
        assert(visits(second, i));
        let s = choose|s: int| 0 <= s < first.len() && first[s] == i;
        let t = choose|t: int| 0 <= t < second.len() && second[t] == i;
        let a = 1 + s;
        let b = 1 + k + t;
        assert(tour_points(pickups, first)[s] == orders[i].pickup.point);
        assert(tour_points(deliveries, second)[t] == orders[i].delivery.point);
        assert(path[a] == orders[i].pickup.point);
        assert(path[b] == orders[i].delivery.point);
    }
}

/// A route that keeps the route invariants is never rejected, where the
/// orders carry their position in the list as their id.
pub proof fn lemma_invariants_imply_accepted(
    orders: Seq<Order>,
    depot: Point,
    ids: Seq<usize>,
    path: Seq<Point>,
)
    requires
        indexed(orders),
        route_invariants(orders, depot, ids, path),
    ensures
        rejection(orders, ids, path, depot) is None,
{
    assert forall|k: int| 0 <= k < ids.len() implies progress_along(orders, path, #[trigger] ids[k])
        == Progress::Completed by {
        let j = ids[k] as int;
        assert(orders[j].id == j);
        let order = orders[j];
        assert(pickup_precedes_delivery(path, order));
        let (a, b) = choose|a: int, b: int|
            0 <= a < b < path.len() && #[trigger] path[a] == order.pickup.point
                && #[trigger] path[b] == order.delivery.point;
        lemma_pickup_then_delivery_completes(orders, path, j, a, b);
    }
    assert(all_completed(orders, path, ids));
}

/// An order that has been picked up along the first `n` points of a path
/// is an order of the list, and one of those points is its pickup point.
pub proof fn lemma_picked_up_was_visited(orders: Seq<Order>, path: Seq<Point>, n: int, id: usize)
    requires
        indexed(orders),
        0 <= n <= path.len(),
        rank(progress_along(orders, path.take(n), id)) >= 1,
    ensures
        id < orders.len(),
        exists|a: int| 0 <= a < n && #[trigger] path[a] == orders[id as int].pickup.point,
    decreases n,
{
    if n > 0 {
        let before = progress_along(orders, path.take(n - 1), id);
        lemma_progress_step(orders, path, n - 1, id);
        lemma_stop_at_indexed(orders, orders.len() as int, path[n - 1], id, before);
        assert(orders.take(orders.len() as int) =~= orders);
        if rank(before) >= 1 {
            lemma_picked_up_was_visited(orders, path, n - 1, id);
        } else {
            assert(path[n - 1] == orders[id as int].pickup.point);
        }
    }
}

/// An order that has been completed along the first `n` points of a path
/// is an order of the list, and among those points its pickup point comes
/// no later than its delivery point.
pub proof fn lemma_completed_was_served(orders: Seq<Order>, path: Seq<Point>, n: int, id: usize)
    requires
        indexed(orders),
        0 <= n <= path.len(),
        progress_along(orders, path.take(n), id) == Progress::Completed,
    ensures
        id < orders.len(),
        exists|a: int, b: int|
            0 <= a <= b < n && #[trigger] path[a] == orders[id as int].pickup.point
                && #[trigger] path[b] == orders[id as int].delivery.point,
    decreases n,
{
    if n > 0 {
        let before = progress_along(orders, path.take(n - 1), id);
        lemma_progress_step(orders, path, n - 1, id);
        lemma_stop_at_indexed(orders, orders.len() as int, path[n - 1], id, before);
        assert(orders.take(orders.len() as int) =~= orders);
        if before == Progress::Completed {
            lemma_completed_was_served(orders, path, n - 1, id);
            let (a, b) = choose|a: int, b: int|
                0 <= a <= b < n - 1 && #[trigger] path[a] == orders[id as int].pickup.point
                    && #[trigger] path[b] == orders[id as int].delivery.point;
            assert(0 <= a <= b < n && path[a] == orders[id as int].pickup.point && path[b]
                == orders[id as int].delivery.point);
        } else if before == Progress::PickedUp {
            lemma_picked_up_was_visited(orders, path, n - 1, id);
            let a = choose|a: int|
                0 <= a < n - 1 && #[trigger] path[a] == orders[id as int].pickup.point;
            let b = n - 1;
            assert(0 <= a <= b < n && path[a] == orders[id as int].pickup.point && path[b]
                == orders[id as int].delivery.point);
        } else {
            let a = n - 1;
            let b = n - 1;
            assert(0 <= a <= b < n && path[a] == orders[id as int].pickup.point && path[b]
                == orders[id as int].delivery.point);
        }
    }
}

/// The validator enforces precedence: in a route that it accepts, every
/// listed id names an order of the list, and the path reaches that order's
/// pickup point no later than its delivery point. Stated the other way
/// round: a path on which the last stop at an order's delivery point comes
/// before the first stop at its pickup point is rejected.
pub proof fn lemma_accepted_route_is_feasible(
    orders: Seq<Order>,
    ids: Seq<usize>,
    path: Seq<Point>,
    depot: Point,
)
    requires
        indexed(orders),
        rejection(orders, ids, path, depot) is None,
    ensures
        has_bookends(path, depot),
        ids.no_duplicates(),
        forall|k: int|
            0 <= k < ids.len() ==> (#[trigger] ids[k]) < orders.len() && pickup_not_after_delivery(
                path,
                orders[ids[k] as int],
            ),
{
    assert forall|k: int| 0 <= k < ids.len() implies (#[trigger] ids[k]) < orders.len()
        && pickup_not_after_delivery(path, orders[ids[k] as int]) by {
        assert(progress_along(orders, path, ids[k]) == Progress::Completed);
        assert(path.take(path.len() as int) =~= path);
        lemma_completed_was_served(orders, path, path.len() as int, ids[k]);
    }
}

/// A route is rejected, and scores zero, where for one of its listed
/// orders every stop at the delivery point comes before every stop at the
/// pickup point. That each point is on the path does not help.
pub proof fn lemma_delivery_before_pickup_rejected(
    orders: Seq<Order>,
    ids: Seq<usize>,
    path: Seq<Point>,
    depot: Point,
    k: int,
)
    requires
        indexed(orders),
        0 <= k < ids.len(),
        ids[k] < orders.len(),
        forall|a: int, b: int|
            0 <= a < path.len() && 0 <= b < path.len() && #[trigger] path[a]
                == orders[ids[k] as int].pickup.point && #[trigger] path[b]
                == orders[ids[k] as int].delivery.point ==> b < a,
    ensures
        rejection(orders, ids, path, depot) is Some,
        route_score(orders, ids, path, depot) == 0,
{
    if rejection(orders, ids, path, depot) is None {
        lemma_accepted_route_is_feasible(orders, ids, path, depot);
        assert(pickup_not_after_delivery(path, orders[ids[k] as int]));
    }
}

/// What the fixed-order constructor builds, the validator accepts.
pub proof fn lemma_fixed_order_route_accepted(orders: Seq<Order>, depot: Point, k: usize)
    requires
        indexed(orders),
        k <= orders.len(),
    ensures
        rejection(orders, first_ids(k as nat), fixed_order_path(orders, depot, k as nat), depot)
            is None,
{
    lemma_fixed_order_route_invariants(orders, depot, k);
    lemma_invariants_imply_accepted(
        orders,
        depot,
        first_ids(k as nat),
        fixed_order_path(orders, depot, k as nat),
    );
}

/// What the greedy constructor builds, the validator accepts.
pub proof fn lemma_greedy_route_accepted(orders: Seq<Order>, depot: Point, k: usize)
    requires
        indexed(orders),
        k <= orders.len(),
    ensures
        rejection(orders, first_ids(k as nat), greedy_path(orders, depot, k as nat), depot)
            is None,
{
    lemma_greedy_route_invariants(orders, depot, k);
    lemma_invariants_imply_accepted(
        orders,
        depot,
        first_ids(k as nat),
        greedy_path(orders, depot, k as nat),
    );
}

/// With no order to serve both constructors build the depot twice, which
/// scores 100000.
pub proof fn lemma_empty_batch(orders: Seq<Order>, depot: Point)
    ensures
        fixed_order_path(orders, depot, 0) == seq![depot, depot],
        greedy_path(orders, depot, 0) == seq![depot, depot],
        route_score(orders, first_ids(0), seq![depot, depot], depot) == 100_000,
{
    let path = seq![depot, depot];
    assert(fixed_order_path(orders, depot, 0) =~= path);
    let pickups = pickup_points(orders, 0);
    let deliveries = delivery_points(orders, 0);
    lemma_greedy_tour_exists(pickups, depot);
    let first = greedy_tour_of(pickups, depot);
    let turn = position(pickups, depot, first, 0);
    lemma_greedy_tour_exists(deliveries, turn);
    assert(greedy_path(orders, depot, 0) =~= path);
    assert(has_bookends(path, depot));
    assert(first_ids(0).no_duplicates());
    assert(path.drop_last() =~= seq![depot]);
    assert(path_length(path.drop_last()) == 0);
    assert(path_length(path) == 0);
    assert(all_completed(orders, path, first_ids(0)));
    assert(rejection(orders, first_ids(0), path, depot) is None);
    assert(100_000_000nat / 1000 == 100_000);
}

} // verus!
