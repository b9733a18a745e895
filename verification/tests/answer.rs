use route_planner::answer::{id_line, point_line};
use route_planner::construct::fixed_order_route;
use route_planner::geometry::Point;
use route_planner::order::make_orders;

#[test]
fn id_line_counts_and_numbers_from_one() {
    assert_eq!(id_line(&vec![0, 4, 49]), vec![3, 1, 5, 50]);
    assert_eq!(id_line(&vec![7]), vec![1, 8]);
    assert_eq!(id_line(&Vec::new()), vec![0]);
}

#[test]
fn id_line_does_not_wrap_at_the_largest_id() {
    assert_eq!(id_line(&vec![usize::MAX]), vec![1, usize::MAX as u128 + 1]);
}

#[test]
fn point_line_counts_and_flattens() {
    let path = vec![Point::new(400, 400), Point::new(-1, 7), Point::new(400, 400)];
    assert_eq!(point_line(&path), vec![3, 400, 400, -1, 7, 400, 400]);
    assert_eq!(point_line(&Vec::new()), vec![0]);
    assert_eq!(
        point_line(&vec![Point::new(i32::MIN, i32::MAX)]),
        vec![1, i32::MIN as i128, i32::MAX as i128]
    );
}

#[test]
fn answer_of_the_one_order_route() {
    let orders = make_orders(&vec![(1, 0, 1, 1)]);
    let (ids, path) = fixed_order_route(&orders, Point::new(0, 0), 1).unwrap();
    assert_eq!(id_line(&ids), vec![1, 1]);
    assert_eq!(point_line(&path), vec![4, 0, 0, 1, 0, 1, 1, 0, 0]);
}
