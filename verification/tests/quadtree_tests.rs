use boid_arena::quadtree::{distance_squared, Bounds, Point, QuadTree};

fn square(lo: i64, hi: i64) -> Bounds {
    Bounds { x_min: lo, x_max: hi, y_min: lo, y_max: hi }
}

/// A small linear congruential generator, so that the point sets are the
/// same on every run.
fn scatter(count: usize, seed: u64, span: i32) -> Vec<[i32; 2]> {
    let mut state = seed;
    let mut points = Vec::new();
    for _ in 0..count {
        state = state.wrapping_mul(6364136223846793005).wrapping_add(1442695040888963407);
        let x = ((state >> 33) % (span as u64)) as i32;
        state = state.wrapping_mul(6364136223846793005).wrapping_add(1442695040888963407);
        let y = ((state >> 33) % (span as u64)) as i32;
        points.push([x - span / 2, y - span / 2]);
    }
    points
}

fn sorted_ids(found: Vec<&([i32; 2], usize)>) -> Vec<usize> {
    let mut ids: Vec<usize> = found.iter().map(|e| e.1).collect();
    ids.sort();
    ids
}

#[test]
fn test_overlaps() {
    let b1 = Bounds { x_min: 0, x_max: 100, y_min: 0, y_max: 100 };
    let b2 = Bounds { x_min: 50, x_max: 150, y_min: 50, y_max: 150 };
    let b3 = Bounds { x_min: 150, x_max: 250, y_min: 150, y_max: 250 };
    let b4 = Bounds { x_min: -100, x_max: -10, y_min: -100, y_max: -10 };
    assert!(b1.overlaps(b2));
    assert!(b2.overlaps(b3));
    assert!(!b1.overlaps(b3));
    assert!(!b1.overlaps(b4));
}

#[test]
fn test_contains() {
    let b1 = Bounds { x_min: 0, x_max: 100, y_min: 0, y_max: 100 };

    assert!(b1.contains([50, 50]));
    assert!(!b1.contains([150, 150]));
    assert!(!b1.contains([-10, -10]));
}

#[test]
fn contains_is_half_open() {
    let b = Bounds { x_min: 0, x_max: 100, y_min: 0, y_max: 100 };
    assert!(b.contains([0, 0]));
    assert!(b.contains([0, 99]));
    assert!(b.contains([99, 0]));
    assert!(!b.contains([100, 50]));
    assert!(!b.contains([50, 100]));
    assert!(!b.contains([-1, 50]));
}

#[test]
fn point_of_an_array_is_the_array() {
    let p: [i32; 2] = [3, -4];
    assert_eq!(*p.xy(), [3, -4]);
}

#[test]
fn distance_squared_is_exact() {
    assert_eq!(distance_squared([0, 0], [3, 4]), 25);
    assert_eq!(distance_squared([-1, -1], [2, 3]), 25);
    assert_eq!(
        distance_squared([i32::MIN, i32::MIN], [i32::MAX, i32::MAX]),
        2 * (u32::MAX as i128) * (u32::MAX as i128)
    );
}

#[test]
fn empty_index_answers_nothing() {
    let tree: QuadTree<usize, 4> = QuadTree::new(square(-100, 100));
    assert!(tree.query(square(-100, 100)).is_empty());
    assert!(tree.query(square(-1000, 1000)).is_empty());
    assert!(tree.query_distance([0, 0], 50).is_empty());
    assert!(tree.contains_point([0, 0]));
    assert!(!tree.contains_point([100, 0]));
}

fn whole_bounds_returns_all<const MAX: usize>() {
    let points = scatter(300, 7, 2000);
    let bounds = square(-1001, 1001);
    let mut tree: QuadTree<usize, MAX> = QuadTree::new(bounds);
    for (id, p) in points.iter().enumerate() {
        tree.insert(*p, id);
    }
    let found = tree.query(bounds);
    for e in found.iter() {
        assert_eq!(e.0, points[e.1]);
    }
    let ids = sorted_ids(found);
    let expected: Vec<usize> = (0..points.len()).collect();
    assert_eq!(ids, expected);
}

#[test]
fn whole_bounds_returns_all_with_capacity_1() {
    whole_bounds_returns_all::<1>();
}

#[test]
fn whole_bounds_returns_all_with_capacity_4() {
    whole_bounds_returns_all::<4>();
}

#[test]
fn whole_bounds_returns_all_with_capacity_64() {
    whole_bounds_returns_all::<64>();
}

#[test]
fn rectangle_query_matches_a_scan() {
    let points = scatter(200, 11, 400);
    let mut tree: QuadTree<usize, 4> = QuadTree::new(square(-200, 200));
    for (id, p) in points.iter().enumerate() {
        tree.insert(*p, id);
    }
    let rect = Bounds { x_min: -50, x_max: 70, y_min: -120, y_max: 10 };
    let expected: Vec<usize> =
        (0..points.len()).filter(|&i| rect.contains(points[i])).collect();
    assert_eq!(sorted_ids(tree.query(rect)), expected);
}

#[test]
fn radius_query_matches_brute_force() {
    let points = scatter(250, 3, 600);
    let mut tree: QuadTree<usize, 4> = QuadTree::new(square(-300, 300));
    for (id, p) in points.iter().enumerate() {
        tree.insert(*p, id);
    }
    for (center, radius) in [([0, 0], 100u32), ([250, -250], 75), ([-10, 40], 0), ([5, 5], 1000)] {
        let limit = (radius as i128) * (radius as i128);
        let expected: Vec<usize> = (0..points.len())
            .filter(|&i| distance_squared(points[i], center) < limit)
            .collect();
        assert_eq!(sorted_ids(tree.query_distance(center, radius)), expected);
    }
}

#[test]
fn radius_is_strict() {
    let mut tree: QuadTree<usize, 4> = QuadTree::new(square(-10, 10));
    tree.insert([3, 4], 0);
    tree.insert([0, 4], 1);
    tree.insert([0, -5], 2);
    assert_eq!(sorted_ids(tree.query_distance([0, 0], 5)), vec![1]);
    assert_eq!(sorted_ids(tree.query_distance([0, 0], 6)), vec![0, 1, 2]);
}

#[test]
fn point_outside_the_bounds_is_not_stored() {
    let bounds = square(0, 10);
    let mut tree: QuadTree<usize, 4> = QuadTree::new(bounds);
    tree.insert([10, 5], 0);
    tree.insert([-1, 5], 1);
    tree.insert([5, 5], 2);
    assert_eq!(sorted_ids(tree.query(square(-100, 100))), vec![2]);
}

#[test]
fn point_on_a_dividing_line_has_one_owner() {
    let bounds = square(0, 8);
    let mut tree: QuadTree<usize, 1> = QuadTree::new(bounds);
    tree.insert([4, 4], 0);
    tree.insert([4, 0], 1);
    tree.insert([0, 4], 2);
    tree.insert([3, 3], 3);
    tree.insert([4, 4], 4);
    assert_eq!(sorted_ids(tree.query(bounds)), vec![0, 1, 2, 3, 4]);
    let at_centre = Bounds { x_min: 4, x_max: 5, y_min: 4, y_max: 5 };
    assert_eq!(sorted_ids(tree.query(at_centre)), vec![0, 4]);
}

#[test]
fn many_entries_at_one_point_are_all_kept() {
    let bounds = square(-1000, 1000);
    let mut tree: QuadTree<usize, 2> = QuadTree::new(bounds);
    for id in 0..20 {
        tree.insert([17, -3], id);
    }
    let expected: Vec<usize> = (0..20).collect();
    assert_eq!(sorted_ids(tree.query(bounds)), expected);
    assert_eq!(sorted_ids(tree.query_distance([17, -3], 1)), expected);
}

#[test]
fn capacity_zero_still_stores_everything() {
    let bounds = square(0, 16);
    let mut tree: QuadTree<usize, 0> = QuadTree::new(bounds);
    for id in 0..16usize {
        tree.insert([id as i32, 15 - id as i32], id);
    }
    let expected: Vec<usize> = (0..16).collect();
    assert_eq!(sorted_ids(tree.query(bounds)), expected);
}
