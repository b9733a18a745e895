//! Routes, the settings a run is made with, and the way a construction fails.

use vstd::prelude::*;
use crate::geometry::Point;
use crate::order::Order;

verus! {

/// A candidate solution: the ids of the orders it serves, and the points
/// the vehicle visits in order.
pub type Route = (Vec<usize>, Vec<Point>);

/// Why no route was built.
#[derive(Debug, Clone, Copy, PartialEq, Eq, Structural)]
pub enum PlanError {
    /// More orders were asked for than the order list holds.
    ConfigOutOfRange { batch_size: usize, available: usize },
}

/// The x coordinate of the depot in the default setting.
pub const DEFAULT_DEPOT_X: i32 = 400;

/// The y coordinate of the depot in the default setting.
pub const DEFAULT_DEPOT_Y: i32 = 400;

/// The number of orders that one route serves in the default setting.
pub const DEFAULT_BATCH_SIZE: usize = 50;

/// The time budget of the default setting, in milliseconds.
pub const DEFAULT_TIME_LIMIT_MS: u128 = 1900;

/// The depot of the default setting, as a value for contracts.
pub open spec fn default_depot_point() -> Point {
    Point { x: 400, y: 400 }
}

/// The depot of the default setting.
pub fn default_depot() -> (depot: Point)
    ensures
        depot == default_depot_point(),
{
    Point::new(DEFAULT_DEPOT_X, DEFAULT_DEPOT_Y)
}

/// The path starts and ends at the depot.
pub open spec fn has_bookends(path: Seq<Point>, depot: Point) -> bool {
    path.len() > 0 && path[0] == depot && path.last() == depot
}

/// The path stops at the pickup point of `order` strictly before some stop
/// at its delivery point.
pub open spec fn pickup_precedes_delivery(path: Seq<Point>, order: Order) -> bool {
    exists|a: int, b: int|
        0 <= a < b < path.len() && #[trigger] path[a] == order.pickup.point
            && #[trigger] path[b] == order.delivery.point
}

/// The path stops at the pickup point of `order` no later than at some stop
/// at its delivery point. One stop serves for both where the two points are
/// the same.
pub open spec fn pickup_not_after_delivery(path: Seq<Point>, order: Order) -> bool {
    exists|a: int, b: int|
        0 <= a <= b < path.len() && #[trigger] path[a] == order.pickup.point
            && #[trigger] path[b] == order.delivery.point
}

/// What every route must satisfy: the depot at both ends, no order id
/// listed twice, and for every listed order its pickup before its delivery.
/// An id names the order at that position of the list.
pub open spec fn route_invariants(
    orders: Seq<Order>,
    depot: Point,
    ids: Seq<usize>,
    path: Seq<Point>,
) -> bool {
    &&& has_bookends(path, depot)
    &&& ids.no_duplicates()
    &&& forall|k: int|
        0 <= k < ids.len() ==> (#[trigger] ids[k]) < orders.len() && pickup_precedes_delivery(
            path,
            orders[ids[k] as int],
        )
}

} // verus!
