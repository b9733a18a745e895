use route_planner::geometry::Point;
use route_planner::order::{make_orders, Order};
use route_planner::score::{
    calc_score, score_of_length, score_route, total_length, validate, Rejection,
};

fn pt(x: i32, y: i32) -> Point {
    Point::new(x, y)
}

fn one_order() -> Vec<Order> {
    make_orders(&vec![(1, 0, 1, 1)])
}

#[test]
fn score_formula_exact_values() {
    assert_eq!(score_of_length(0), 100_000);
    assert_eq!(score_of_length(4), 99_601);
    assert_eq!(score_of_length(1), 99_900);
    assert_eq!(score_of_length(1000), 50_000);
    assert_eq!(score_of_length(99_000), 1000);
    assert_eq!(score_of_length(99_998_999), 1);
    assert_eq!(score_of_length(99_999_000), 1);
    assert_eq!(score_of_length(99_999_001), 0);
    assert_eq!(score_of_length(u128::MAX), 0);
}

#[test]
fn shorter_paths_never_score_lower() {
    let mut last = score_of_length(0);
    for length in 1..5000u128 {
        let score = score_of_length(length);
        assert!(score <= last);
        last = score;
    }
}

#[test]
fn total_length_sums_the_hops() {
    assert_eq!(total_length(&Vec::new()), 0);
    assert_eq!(total_length(&vec![pt(5, 5)]), 0);
    assert_eq!(total_length(&vec![pt(0, 0), pt(1, 0), pt(1, 1), pt(0, 0)]), 4);
    assert_eq!(total_length(&vec![pt(0, 0), pt(0, 0)]), 0);
    assert_eq!(
        total_length(&vec![pt(i32::MIN, i32::MIN), pt(i32::MAX, i32::MAX), pt(i32::MIN, i32::MIN)]),
        17_179_869_180
    );
}

#[test]
fn accepted_route_scores_its_length() {
    let orders = one_order();
    let path = vec![pt(0, 0), pt(1, 0), pt(1, 1), pt(0, 0)];
    let found = validate(&orders, &vec![0], &path, pt(0, 0), 1);
    assert_eq!(found.rejection, None);
    assert_eq!(found.score, 99_601);
    assert!(!found.batch_mismatch);
}

#[test]
fn delivery_before_pickup_is_rejected() {
    let orders = one_order();
    let path = vec![pt(0, 0), pt(1, 1), pt(1, 0), pt(0, 0)];
    let found = validate(&orders, &vec![0], &path, pt(0, 0), 1);
    assert_eq!(found.rejection, Some(Rejection::Unfinished));
    assert_eq!(found.score, 0);
    assert_eq!(score_route(&orders, &vec![0], &path, pt(0, 0)), 0);
}

#[test]
fn delivery_counts_once_it_follows_the_pickup() {
    let orders = one_order();
    let path = vec![pt(0, 0), pt(1, 1), pt(1, 0), pt(1, 1), pt(0, 0)];
    let found = validate(&orders, &vec![0], &path, pt(0, 0), 1);
    assert_eq!(found.rejection, None);
    assert_eq!(found.score, 99_403);
}

#[test]
fn empty_path_is_rejected() {
    let orders = one_order();
    let found = validate(&orders, &Vec::new(), &Vec::new(), pt(0, 0), 0);
    assert_eq!(found.rejection, Some(Rejection::EmptyPath));
    assert_eq!(found.score, 0);
    assert!(!found.batch_mismatch);
}

#[test]
fn missing_depot_is_rejected() {
    let orders = one_order();
    let ids = vec![0];
    let wrong_start = vec![pt(9, 9), pt(1, 0), pt(1, 1), pt(0, 0)];
    let wrong_end = vec![pt(0, 0), pt(1, 0), pt(1, 1), pt(9, 9)];
    for path in [wrong_start, wrong_end] {
        let found = validate(&orders, &ids, &path, pt(0, 0), 1);
        assert_eq!(found.rejection, Some(Rejection::DepotMissing));
        assert_eq!(found.score, 0);
    }
}

#[test]
fn duplicate_ids_are_rejected() {
    let orders = one_order();
    let path = vec![pt(0, 0), pt(1, 0), pt(1, 1), pt(0, 0)];
    let found = validate(&orders, &vec![0, 0], &path, pt(0, 0), 2);
    assert_eq!(found.rejection, Some(Rejection::DuplicateIds));
    assert_eq!(found.score, 0);
    let orders = make_orders(&vec![(1, 0, 1, 1), (1, 0, 1, 1), (1, 0, 1, 1)]);
    let found = validate(&orders, &vec![2, 0, 1, 2], &path, pt(0, 0), 4);
    assert_eq!(found.rejection, Some(Rejection::DuplicateIds));
}

#[test]
fn rejections_are_checked_in_a_fixed_order() {
    let orders = one_order();
    let empty: Vec<Point> = Vec::new();
    let found = validate(&orders, &vec![0, 0], &empty, pt(0, 0), 1);
    assert_eq!(found.rejection, Some(Rejection::EmptyPath));
    let found = validate(&orders, &vec![0, 0], &vec![pt(0, 0), pt(5, 5)], pt(0, 0), 1);
    assert_eq!(found.rejection, Some(Rejection::DepotMissing));
    let found = validate(&orders, &vec![0, 0], &vec![pt(0, 0), pt(0, 0)], pt(0, 0), 1);
    assert_eq!(found.rejection, Some(Rejection::DuplicateIds));
}

#[test]
fn order_left_out_of_the_path_is_rejected() {
    let orders = make_orders(&vec![(1, 0, 1, 1), (2, 0, 2, 2)]);
    let path = vec![pt(0, 0), pt(1, 0), pt(1, 1), pt(0, 0)];
    let found = validate(&orders, &vec![0, 1], &path, pt(0, 0), 2);
    assert_eq!(found.rejection, Some(Rejection::Unfinished));
    let picked_only = vec![pt(0, 0), pt(1, 0), pt(2, 0), pt(1, 1), pt(0, 0)];
    let found = validate(&orders, &vec![0, 1], &picked_only, pt(0, 0), 2);
    assert_eq!(found.rejection, Some(Rejection::Unfinished));
}

#[test]
fn unknown_id_is_rejected() {
    let orders = one_order();
    let path = vec![pt(0, 0), pt(1, 0), pt(1, 1), pt(0, 0)];
    let found = validate(&orders, &vec![7], &path, pt(0, 0), 1);
    assert_eq!(found.rejection, Some(Rejection::Unfinished));
    assert_eq!(found.score, 0);
}

#[test]
fn points_of_unlisted_orders_are_passed_freely() {
    let orders = make_orders(&vec![(1, 0, 1, 1), (2, 0, 2, 2)]);
    let path = vec![pt(0, 0), pt(2, 2), pt(2, 0), pt(1, 0), pt(1, 1), pt(0, 0)];
    let found = validate(&orders, &vec![0], &path, pt(0, 0), 1);
    assert_eq!(found.rejection, None);
    assert_eq!(found.score, 100_000_000 / (1000 + 4 + 2 + 1 + 1 + 2));
}

#[test]
fn pickup_and_delivery_at_one_point() {
    let orders = make_orders(&vec![(2, 2, 2, 2)]);
    let path = vec![pt(0, 0), pt(2, 2), pt(0, 0)];
    let found = validate(&orders, &vec![0], &path, pt(0, 0), 1);
    assert_eq!(found.rejection, None);
    assert_eq!(found.score, 99_206);
}

#[test]
fn pickup_at_the_depot() {
    let orders = make_orders(&vec![(0, 0, 1, 0)]);
    let path = vec![pt(0, 0), pt(1, 0), pt(0, 0)];
    let found = validate(&orders, &vec![0], &path, pt(0, 0), 1);
    assert_eq!(found.rejection, None);
    assert_eq!(found.score, 99_800);
}

#[test]
fn delivery_at_the_depot_needs_a_later_stop() {
    // The delivery point is the depot: the first stop there comes before
    // the pickup and does not count, the last one does.
    let orders = make_orders(&vec![(1, 0, 0, 0)]);
    let path = vec![pt(0, 0), pt(1, 0), pt(0, 0)];
    assert_eq!(validate(&orders, &vec![0], &path, pt(0, 0), 1).rejection, None);
}

#[test]
fn orders_sharing_points_are_all_served_by_one_stop() {
    let orders = make_orders(&vec![(3, 0, 3, 3), (3, 0, 3, 3), (3, 0, 3, 3)]);
    let path = vec![pt(0, 0), pt(3, 0), pt(3, 3), pt(0, 0)];
    let found = validate(&orders, &vec![2, 0, 1], &path, pt(0, 0), 3);
    assert_eq!(found.rejection, None);
    assert_eq!(found.score, 100_000_000 / 1012);
}

#[test]
fn at_one_stop_orders_are_looked_at_in_list_order() {
    // Order 1 is delivered where order 0 is picked up, and picked up where
    // order 0 is delivered.
    let orders = make_orders(&vec![(1, 0, 2, 0), (2, 0, 1, 0)]);
    let path = vec![pt(0, 0), pt(1, 0), pt(2, 0), pt(0, 0)];
    assert_eq!(validate(&orders, &vec![0], &path, pt(0, 0), 1).rejection, None);
    assert_eq!(
        validate(&orders, &vec![0, 1], &path, pt(0, 0), 2).rejection,
        Some(Rejection::Unfinished)
    );
    let back = vec![pt(0, 0), pt(1, 0), pt(2, 0), pt(1, 0), pt(0, 0)];
    assert_eq!(validate(&orders, &vec![0, 1], &back, pt(0, 0), 2).rejection, None);
}

#[test]
fn repeated_entries_for_one_id_are_replayed_in_turn() {
    // Two entries carry id 0. The second is picked up and delivered at
    // (5, 5); the first alone would leave the order pending there.
    let orders = vec![
        Order::new(0, pt(1, 0), pt(1, 1)),
        Order::new(0, pt(5, 5), pt(5, 5)),
    ];
    let path = vec![pt(0, 0), pt(5, 5), pt(0, 0)];
    assert_eq!(validate(&orders, &vec![0], &path, pt(0, 0), 1).rejection, None);
    let path = vec![pt(0, 0), pt(1, 1), pt(0, 0)];
    assert_eq!(
        validate(&orders, &vec![0], &path, pt(0, 0), 1).rejection,
        Some(Rejection::Unfinished)
    );
}

#[test]
fn batch_mismatch_is_a_warning_only() {
    let orders = one_order();
    let path = vec![pt(0, 0), pt(1, 0), pt(1, 1), pt(0, 0)];
    let found = validate(&orders, &vec![0], &path, pt(0, 0), 50);
    assert_eq!(found.rejection, None);
    assert_eq!(found.score, 99_601);
    assert!(found.batch_mismatch);
    let rejected = validate(&orders, &vec![0], &vec![pt(0, 0), pt(0, 0)], pt(0, 0), 50);
    assert_eq!(rejected.rejection, Some(Rejection::Unfinished));
    assert!(!rejected.batch_mismatch);
}

#[test]
fn validating_twice_gives_the_same_result() {
    let orders = make_orders(&vec![(1, 0, 1, 1), (2, 0, 2, 2)]);
    let ids = vec![1, 0];
    let path = vec![pt(0, 0), pt(2, 0), pt(1, 0), pt(1, 1), pt(2, 2), pt(0, 0)];
    let first = validate(&orders, &ids, &path, pt(0, 0), 2);
    let second = validate(&orders, &ids, &path, pt(0, 0), 2);
    assert_eq!(first.score, second.score);
    assert_eq!(first.rejection, second.rejection);
    assert_eq!(first.batch_mismatch, second.batch_mismatch);
    assert_eq!(first.score, 100_000_000 / 1010);
    assert_eq!(ids, vec![1, 0]);
    assert_eq!(path.len(), 6);
    assert_eq!(orders, make_orders(&vec![(1, 0, 1, 1), (2, 0, 2, 2)]));
}

#[test]
fn accepted_route_can_score_zero_when_very_long() {
    let orders: Vec<Order> = Vec::new();
    let path = vec![pt(0, 0), pt(50_000_000, 0), pt(0, 0)];
    let found = validate(&orders, &Vec::new(), &path, pt(0, 0), 0);
    assert_eq!(found.rejection, None);
    assert_eq!(found.score, 0);
    let path = vec![pt(0, 0), pt(49_999_500, 0), pt(0, 0)];
    let found = validate(&orders, &Vec::new(), &path, pt(0, 0), 0);
    assert_eq!(found.rejection, None);
    assert_eq!(found.score, 1);
}

#[test]
fn single_point_path_at_the_depot() {
    let orders = one_order();
    let found = validate(&orders, &Vec::new(), &vec![pt(4, 4)], pt(4, 4), 0);
    assert_eq!(found.rejection, None);
    assert_eq!(found.score, 100_000);
}

#[test]
fn calc_score_uses_the_default_depot() {
    let orders = make_orders(&vec![(401, 400, 401, 401)]);
    let path = vec![pt(400, 400), pt(401, 400), pt(401, 401), pt(400, 400)];
    assert_eq!(calc_score(&orders, &vec![0], &path), 99_601);
    let elsewhere = vec![pt(0, 0), pt(401, 400), pt(401, 401), pt(0, 0)];
    assert_eq!(calc_score(&orders, &vec![0], &elsewhere), 0);
    assert_eq!(calc_score(&orders, &Vec::new(), &vec![pt(400, 400), pt(400, 400)]), 100_000);
    assert_eq!(calc_score(&orders, &vec![0], &Vec::new()), 0);
}
