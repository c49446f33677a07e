use skateboard_slope::motion::MotionDevice;

#[test]
fn fires_due_entries_in_order() {
    let mut dev = MotionDevice::new(vec![10, 20]);
    assert_eq!(dev.current(), 0);
    assert_eq!(dev.update(25), vec![0]);
    assert_eq!(dev.current(), 1);
    assert_eq!(dev.update(30), vec![1, 0]);
    assert_eq!(dev.current(), 1);
}

#[test]
fn nothing_due_nothing_fired() {
    let mut dev = MotionDevice::new(vec![100]);
    assert_eq!(dev.update(0), Vec::<usize>::new());
    assert_eq!(dev.update(99), Vec::<usize>::new());
    assert_eq!(dev.update(1), vec![0]);
    assert_eq!(dev.current(), 0);
}

#[test]
fn splitting_time_fires_the_same() {
    let mut a = MotionDevice::new(vec![10, 20, 5]);
    let mut b = MotionDevice::new(vec![10, 20, 5]);
    let mut fired = a.update(17);
    fired.extend(a.update(41));
    assert_eq!(fired, b.update(58));
    assert_eq!(fired, vec![0, 1, 2, 0]);
    assert_eq!(a.current(), b.current());
}

#[test]
fn log_wraps_around() {
    let mut dev = MotionDevice::new(vec![1, 1, 1]);
    assert_eq!(dev.update(7), vec![0, 1, 2, 0, 1, 2, 0]);
    assert_eq!(dev.current(), 1);
}

#[test]
fn negative_steps_take_time_off() {
    let mut dev = MotionDevice::new(vec![10]);
    assert_eq!(dev.update(-5), Vec::<usize>::new());
    assert_eq!(dev.update(14), Vec::<usize>::new());
    assert_eq!(dev.update(1), vec![0]);
    assert_eq!(dev.update(3), Vec::<usize>::new());
    assert!(dev.ready_for(-3));
    assert!(!dev.ready_for(i64::MAX));
    assert!(dev.ready_for(i64::MAX - 3));
}
