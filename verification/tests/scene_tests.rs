use skateboard_slope::scene::draw_order;

#[test]
fn farthest_first_ties_latest_first() {
    assert_eq!(draw_order(&vec![3, 7, 3, -1]), vec![1, 2, 0, 3]);
}

#[test]
fn empty_scene_draws_nothing() {
    assert_eq!(draw_order(&vec![]), Vec::<usize>::new());
}

#[test]
fn every_triangle_once() {
    let keys: Vec<i64> = vec![5, 5, 5, 1, 9, i64::MIN, i64::MAX, 0];
    let mut order = draw_order(&keys);
    assert_eq!(order, vec![6, 4, 2, 1, 0, 3, 7, 5]);
    order.sort();
    assert_eq!(order, (0..keys.len()).collect::<Vec<_>>());
}

#[test]
fn float_total_order_keys() {
    // Keys taken from scores the way the game does: the total order of f64.
    fn key(f: f64) -> i64 {
        let b = f.to_bits() as i64;
        b ^ ((((b >> 63) as u64) >> 1) as i64)
    }
    let scores = [0.5f64, 2.25, -1.0, 2.25];
    let keys: Vec<i64> = scores.iter().map(|s| key(*s)).collect();
    assert_eq!(draw_order(&keys), vec![3, 1, 0, 2]);
}
