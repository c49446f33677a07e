use skateboard_slope::segments::{kind_for_draw, new_random_segment_kind, slalom_gate_is_left, SegmentKind, SLALOM_GATES};

#[test]
fn draws_map_to_kinds() {
    assert_eq!(kind_for_draw(0), SegmentKind::RandomObstacles);
    assert_eq!(kind_for_draw(1), SegmentKind::SlalomObstacles);
}

#[test]
fn moving_obstacles_are_never_drawn() {
    for _ in 0..200 {
        assert_ne!(new_random_segment_kind(), SegmentKind::MovingObstacles);
    }
}

#[test]
fn slalom_gates_alternate() {
    let sides: Vec<bool> = (0..SLALOM_GATES).map(slalom_gate_is_left).collect();
    assert_eq!(sides, vec![true, false, true]);
}
