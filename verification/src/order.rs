//! Orders and the two locations each of them names.

use vstd::prelude::*;
use crate::geometry::Point;

verus! {

/// What the vehicle does at a location.
#[derive(Debug, Clone, Copy, PartialEq, Eq, Structural)]
pub enum TargetKind {
    Pickup,
    Delivery,
}

/// One location the vehicle can visit on behalf of one order.
#[derive(Debug, Clone, Copy, PartialEq, Eq, Structural)]
pub struct Target {
    pub point: Point,
    pub id: usize,
    pub kind: TargetKind,
}

/// A pickup and a delivery that belong together.
#[derive(Debug, Clone, Copy, PartialEq, Eq, Structural)]
pub struct Order {
    pub pickup: Target,
    pub delivery: Target,
    pub id: usize,
}

/// The order with the given id, picked up at `from` and delivered at `to`.
pub open spec fn order_between(id: usize, from: Point, to: Point) -> Order {
    Order {
        pickup: Target { point: from, id, kind: TargetKind::Pickup },
        delivery: Target { point: to, id, kind: TargetKind::Delivery },
        id,
    }
}

/// The order that the raw tuple `(pickup x, pickup y, delivery x, delivery y)`
/// stands for when it is read at position `id`.
pub open spec fn order_from_raw(id: usize, raw: (i32, i32, i32, i32)) -> Order {
    order_between(id, Point { x: raw.0, y: raw.1 }, Point { x: raw.2, y: raw.3 })
}

impl Order {
    /// Both targets carry the order's id, and each has the kind of its role.
    pub open spec fn wf(self) -> bool {
        &&& self.pickup.id == self.id
        &&& self.delivery.id == self.id
        &&& self.pickup.kind == TargetKind::Pickup
        &&& self.delivery.kind == TargetKind::Delivery
    }

    pub fn new(id: usize, from: Point, to: Point) -> (o: Order)
        ensures
            o == order_between(id, from, to),
            o.wf(),
    {
        Order {
            pickup: Target { point: from, id, kind: TargetKind::Pickup },
            delivery: Target { point: to, id, kind: TargetKind::Delivery },
            id,
        }
    }
}

/// An order list as `make_orders` produces it: every order is well formed
/// and its id is its position in the list.
pub open spec fn indexed(orders: Seq<Order>) -> bool {
    forall|i: int| 0 <= i < orders.len() ==> (#[trigger] orders[i]).wf() && orders[i].id == i
}

/// Builds the order list from raw tuples, numbering the orders from zero in
/// input order. Coordinates are taken as they come: any values, repeated or
/// not, are accepted.
pub fn make_orders(raw: &Vec<(i32, i32, i32, i32)>) -> (orders: Vec<Order>)
    ensures
        orders.len() == raw.len(),
        forall|i: int|
            0 <= i < raw.len() ==> #[trigger] orders[i] == order_from_raw(i as usize, raw[i]),
        indexed(orders@),
{
    let mut orders: Vec<Order> = Vec::new();
    let mut i: usize = 0;
    while i < raw.len()
        invariant
            i <= raw.len(),
            orders.len() == i,
            forall|j: int| 0 <= j < i ==> #[trigger] orders[j] == order_from_raw(j as usize, raw[j]),
        decreases raw.len() - i,
    {
        let (a, b, c, d) = raw[i];
        orders.push(Order::new(i, Point::new(a, b), Point::new(c, d)));
        i += 1;
    }
    orders
}

} // verus!
