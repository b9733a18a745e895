use route_planner::geometry::{get_dist, Point};
use route_planner::order::{make_orders, Order, Target, TargetKind};
use route_planner::route::{
    default_depot, DEFAULT_BATCH_SIZE, DEFAULT_DEPOT_X, DEFAULT_DEPOT_Y, DEFAULT_TIME_LIMIT_MS,
};

#[test]
fn point_new_keeps_coordinates() {
    let p = Point::new(3, -7);
    assert_eq!(p.x, 3);
    assert_eq!(p.y, -7);
    assert_eq!(p, Point { x: 3, y: -7 });
    assert_ne!(p, Point { x: -7, y: 3 });
}

#[test]
fn distance_is_manhattan() {
    assert_eq!(get_dist(Point::new(0, 0), Point::new(0, 0)), 0);
    assert_eq!(get_dist(Point::new(0, 0), Point::new(3, 4)), 7);
    assert_eq!(get_dist(Point::new(3, 4), Point::new(0, 0)), 7);
    assert_eq!(get_dist(Point::new(-2, 5), Point::new(4, -1)), 12);
    assert_eq!(get_dist(Point::new(400, 400), Point::new(0, 800)), 800);
}

#[test]
fn distance_is_symmetric() {
    let a = Point::new(17, -230);
    let b = Point::new(-99, 41);
    assert_eq!(get_dist(a, b), get_dist(b, a));
    assert_eq!(get_dist(a, b), 116 + 271);
}

#[test]
fn distance_of_extreme_points_does_not_wrap() {
    let low = Point::new(i32::MIN, i32::MIN);
    let high = Point::new(i32::MAX, i32::MAX);
    assert_eq!(get_dist(low, high), 8_589_934_590);
    assert_eq!(get_dist(high, low), 8_589_934_590);
    assert_eq!(get_dist(Point::new(i32::MIN, 0), Point::new(0, 0)), 2_147_483_648);
}

#[test]
fn order_new_tags_both_targets() {
    let o = Order::new(4, Point::new(1, 2), Point::new(3, 4));
    assert_eq!(o.id, 4);
    assert_eq!(o.pickup, Target { point: Point::new(1, 2), id: 4, kind: TargetKind::Pickup });
    assert_eq!(o.delivery, Target { point: Point::new(3, 4), id: 4, kind: TargetKind::Delivery });
}

#[test]
fn make_orders_numbers_from_zero_in_input_order() {
    let raw = vec![(1, 2, 3, 4), (5, 6, 7, 8), (1, 2, 3, 4)];
    let orders = make_orders(&raw);
    assert_eq!(orders.len(), 3);
    for (i, o) in orders.iter().enumerate() {
        assert_eq!(o.id, i);
        assert_eq!(o.pickup.id, i);
        assert_eq!(o.delivery.id, i);
        assert_eq!(o.pickup.kind, TargetKind::Pickup);
        assert_eq!(o.delivery.kind, TargetKind::Delivery);
    }
    assert_eq!(orders[1].pickup.point, Point::new(5, 6));
    assert_eq!(orders[1].delivery.point, Point::new(7, 8));
    assert_eq!(orders[0].pickup.point, orders[2].pickup.point);
}

#[test]
fn make_orders_accepts_any_coordinates() {
    let raw = vec![(i32::MIN, i32::MAX, -1, 0), (0, 0, 0, 0)];
    let orders = make_orders(&raw);
    assert_eq!(orders[0], Order::new(0, Point::new(i32::MIN, i32::MAX), Point::new(-1, 0)));
    assert_eq!(orders[1], Order::new(1, Point::new(0, 0), Point::new(0, 0)));
}

#[test]
fn make_orders_of_nothing_is_empty() {
    let raw: Vec<(i32, i32, i32, i32)> = Vec::new();
    assert!(make_orders(&raw).is_empty());
}

#[test]
fn default_setting() {
    assert_eq!(default_depot(), Point::new(400, 400));
    assert_eq!(DEFAULT_DEPOT_X, 400);
    assert_eq!(DEFAULT_DEPOT_Y, 400);
    assert_eq!(DEFAULT_BATCH_SIZE, 50);
    assert_eq!(DEFAULT_TIME_LIMIT_MS, 1900);
}
