//! Building an initial route: in list order, or greedily by distance.
//!
//! Both constructors serve the first `batch_size` orders of the list. They
//! visit every pickup before any delivery, so each order's pickup comes
//! before its delivery whatever the coordinates are.

use vstd::prelude::*;
use crate::geometry::Point;
use crate::laws::{
    lemma_fixed_order_route_accepted, lemma_fixed_order_route_invariants,
    lemma_greedy_route_accepted, lemma_greedy_route_invariants,
};
use crate::order::{indexed, Order};
use crate::route::{
    default_depot, default_depot_point, route_invariants, PlanError, Route, DEFAULT_BATCH_SIZE,
};
use crate::score::rejection;
use crate::tour::{greedy_step, greedy_tour, greedy_tour_of, is_greedy_tour, position};

verus! {

/// The ids `0, 1, .., k - 1`.
pub open spec fn first_ids(k: nat) -> Seq<usize> {
    Seq::new(k, |i: int| i as usize)
}

/// The pickup points of the first `k` orders, in list order.
pub open spec fn pickup_points(orders: Seq<Order>, k: nat) -> Seq<Point> {
    Seq::new(k, |i: int| orders[i].pickup.point)
}

/// The delivery points of the first `k` orders, in list order.
pub open spec fn delivery_points(orders: Seq<Order>, k: nat) -> Seq<Point> {
    Seq::new(k, |i: int| orders[i].delivery.point)
}

/// The path of the fixed-order route: the depot, the pickups of the first
/// `k` orders in list order, their deliveries in list order, the depot.
pub open spec fn fixed_order_path(orders: Seq<Order>, depot: Point, k: nat) -> Seq<Point> {
    seq![depot] + pickup_points(orders, k) + delivery_points(orders, k) + seq![depot]
}

/// The points of a tour, in the order in which it visits them.
pub open spec fn tour_points(targets: Seq<Point>, tour: Seq<usize>) -> Seq<Point> {
    Seq::new(tour.len(), |t: int| targets[tour[t] as int])
}

/// The path of the greedy route over the first `k` orders: from the depot
/// through all pickups, each time to the nearest one left, then from the
/// last pickup through all deliveries in the same manner, and back to the
/// depot.
pub open spec fn greedy_path(orders: Seq<Order>, depot: Point, k: nat) -> Seq<Point> {
    let pickups = pickup_points(orders, k);
    let deliveries = delivery_points(orders, k);
    let first = greedy_tour_of(pickups, depot);
    let turn = position(pickups, depot, first, k as int);
    let second = greedy_tour_of(deliveries, turn);
    seq![depot] + tour_points(pickups, first) + tour_points(deliveries, second) + seq![depot]
}

/// Builds the fixed-order route over the first `batch_size` orders.
///
/// Fails where the list holds fewer orders than that. With a batch size of
/// zero the route is the depot twice, and serves nothing.
pub fn fixed_order_route(orders: &Vec<Order>, depot: Point, batch_size: usize) -> (r: Result<
    Route,
    PlanError,
>)
    ensures
        batch_size > orders.len() ==> r == Err::<Route, PlanError>(
            PlanError::ConfigOutOfRange { batch_size, available: orders.len() },
        ),
        batch_size <= orders.len() ==> (r matches Ok(route) && route.0@ == first_ids(
            batch_size as nat,
        ) && route.1@ == fixed_order_path(orders@, depot, batch_size as nat)),
        r matches Ok(route) ==> route_invariants(orders@, depot, route.0@, route.1@),
        r matches Ok(route) ==> (indexed(orders@) ==> rejection(
            orders@,
            route.0@,
            route.1@,
            depot,
        ) is None),
{
    if batch_size > orders.len() {
        return Err(PlanError::ConfigOutOfRange { batch_size, available: orders.len() });
    }
    proof {
        lemma_fixed_order_route_invariants(orders@, depot, batch_size);
        if indexed(orders@) {
            lemma_fixed_order_route_accepted(orders@, depot, batch_size);
        }
    }
    let ids: Vec<usize> = leading_ids(batch_size);
    let mut path: Vec<Point> = Vec::new();
    path.push(depot);
    let mut i: usize = 0;
    while i < batch_size
        invariant
            i <= batch_size <= orders.len(),
            path@ =~= seq![depot] + pickup_points(orders@, i as nat),
        decreases batch_size - i,
    {
        path.push(orders[i].pickup.point);
        i += 1;
    }
    let mut i: usize = 0;
    while i < batch_size
        invariant
            i <= batch_size <= orders.len(),
            path@ =~= seq![depot] + pickup_points(orders@, batch_size as nat) + delivery_points(
                orders@,
                i as nat,
            ),
        decreases batch_size - i,
    {
        path.push(orders[i].delivery.point);
        i += 1;
    }
    path.push(depot);
    Ok((ids, path))
}

/// The ids `0, 1, .., k - 1` as a vector.
fn leading_ids(k: usize) -> (ids: Vec<usize>)
    ensures
        ids@ == first_ids(k as nat),
{
    let mut ids: Vec<usize> = Vec::new();
    let mut i: usize = 0;
    while i < k
        invariant
            i <= k,
            ids@ =~= first_ids(i as nat),
        decreases k - i,
    {
        ids.push(i);
        i += 1;
    }
    ids
}

/// Builds the greedy nearest-neighbour route over the first `batch_size`
/// orders.
///
/// Fails where the list holds fewer orders than that. The ids are listed
/// in list order, whatever order the path serves them in.
pub fn greedy_route(orders: &Vec<Order>, depot: Point, batch_size: usize) -> (r: Result<
    Route,
    PlanError,
>)
    ensures
        batch_size > orders.len() ==> r == Err::<Route, PlanError>(
            PlanError::ConfigOutOfRange { batch_size, available: orders.len() },
        ),
        batch_size <= orders.len() ==> (r matches Ok(route) && route.0@ == first_ids(
            batch_size as nat,
        ) && route.1@ == greedy_path(orders@, depot, batch_size as nat)),
        r matches Ok(route) ==> route_invariants(orders@, depot, route.0@, route.1@),
        r matches Ok(route) ==> (indexed(orders@) ==> rejection(
            orders@,
            route.0@,
            route.1@,
            depot,
        ) is None),
{
    if batch_size > orders.len() {
        return Err(PlanError::ConfigOutOfRange { batch_size, available: orders.len() });
    }
    proof {
        lemma_greedy_route_invariants(orders@, depot, batch_size);
        if indexed(orders@) {
            lemma_greedy_route_accepted(orders@, depot, batch_size);
        }
    }
    let ids: Vec<usize> = leading_ids(batch_size);
    let mut pickups: Vec<Point> = Vec::new();
    let mut deliveries: Vec<Point> = Vec::new();
    let mut i: usize = 0;
    while i < batch_size
        invariant
            i <= batch_size <= orders.len(),
            pickups@ =~= pickup_points(orders@, i as nat),
            deliveries@ =~= delivery_points(orders@, i as nat),
        decreases batch_size - i,
    {
        pickups.push(orders[i].pickup.point);
        deliveries.push(orders[i].delivery.point);
        i += 1;
    }
    let first: Vec<usize> = greedy_tour(&pickups, depot);
    let mut path: Vec<Point> = Vec::new();
    path.push(depot);
    let mut cur: Point = depot;
    let mut t: usize = 0;
    while t < batch_size
        invariant
            t <= batch_size,
            first.len() == batch_size,
            pickups.len() == batch_size,
            is_greedy_tour(pickups@, depot, first@),
            cur == position(pickups@, depot, first@, t as int),
            path@ =~= seq![depot] + tour_points(pickups@, first@).take(t as int),
        decreases batch_size - t,
    {
        assert(greedy_step(pickups@, depot, first@, t as int));
        cur = pickups[first[t]];
        path.push(cur);
        t += 1;
    }
    let second: Vec<usize> = greedy_tour(&deliveries, cur);
    let mut t: usize = 0;
    while t < batch_size
        invariant
            t <= batch_size,
            second.len() == batch_size,
            deliveries.len() == batch_size,
            is_greedy_tour(deliveries@, cur, second@),
            path@ =~= seq![depot] + tour_points(pickups@, first@) + tour_points(
                deliveries@,
                second@,
            ).take(t as int),
        decreases batch_size - t,
    {
        assert(greedy_step(deliveries@, cur, second@, t as int));
        path.push(deliveries[second[t]]);
        t += 1;
    }
    path.push(depot);
    Ok((ids, path))
}

/// The fixed-order route in the default setting: the first 50 orders, from
/// and to the depot at (400, 400).
pub fn make_0_49_simple_ans(orders: &Vec<Order>) -> (r: Result<Route, PlanError>)
    ensures
        50 > orders.len() ==> r == Err::<Route, PlanError>(
            PlanError::ConfigOutOfRange { batch_size: 50, available: orders.len() },
        ),
        50 <= orders.len() ==> (r matches Ok(route) && route.0@ == first_ids(50) && route.1@
            == fixed_order_path(orders@, default_depot_point(), 50)),
        r matches Ok(route) ==> route_invariants(
            orders@,
            default_depot_point(),
            route.0@,
            route.1@,
        ),
        r matches Ok(route) ==> (indexed(orders@) ==> rejection(
            orders@,
            route.0@,
            route.1@,
            default_depot_point(),
        ) is None),
{
    fixed_order_route(orders, default_depot(), DEFAULT_BATCH_SIZE)
}

/// The greedy route in the default setting: the first 50 orders, from and
/// to the depot at (400, 400).
pub fn make_0_49_greedy_ans(orders: &Vec<Order>) -> (r: Result<Route, PlanError>)
    ensures
        50 > orders.len() ==> r == Err::<Route, PlanError>(
            PlanError::ConfigOutOfRange { batch_size: 50, available: orders.len() },
        ),
        50 <= orders.len() ==> (r matches Ok(route) && route.0@ == first_ids(50) && route.1@
            == greedy_path(orders@, default_depot_point(), 50)),
        r matches Ok(route) ==> route_invariants(
            orders@,
            default_depot_point(),
            route.0@,
            route.1@,
        ),
        r matches Ok(route) ==> (indexed(orders@) ==> rejection(
            orders@,
            route.0@,
            route.1@,
            default_depot_point(),
        ) is None),
{
    greedy_route(orders, default_depot(), DEFAULT_BATCH_SIZE)
}

} // verus!
