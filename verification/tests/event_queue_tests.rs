use skateboard_slope::event_queue::EventQueue;

#[test]
fn first_in_first_out() {
    let mut q = EventQueue::new();
    assert_eq!(q.poll(), None);
    q.push(1);
    q.push(2);
    assert_eq!(q.poll(), Some(1));
    q.push(3);
    assert_eq!(q.poll(), Some(2));
    assert_eq!(q.poll(), Some(3));
    assert_eq!(q.poll(), None);
}

#[test]
fn drain_keeps_the_latest() {
    let mut q = EventQueue::new();
    assert_eq!(q.drain_latest(), None);
    q.push(0.5f64);
    q.push(-1.25);
    q.push(3.0);
    assert_eq!(q.drain_latest(), Some(3.0));
    assert_eq!(q.poll(), None);
}
