use conway::channel::ThreadChannel;

#[test]
fn receive_drains_in_fifo_order() {
    let (a, b) = ThreadChannel::new_pair();
    assert!(a.send(1));
    assert!(a.send(2));
    assert!(a.send(3));
    assert_eq!(b.receive(), vec![1, 2, 3]);
    assert!(b.receive().is_empty());
}

#[test]
fn receive_without_sends_is_empty() {
    let (_a, b) = ThreadChannel::<u32>::new_pair();
    assert!(b.receive().is_empty());
}

#[test]
fn endpoints_are_full_duplex_and_independent() {
    let (a, b) = ThreadChannel::new_pair();
    assert!(a.send(10));
    assert!(b.send(20));
    assert!(b.send(21));
    assert_eq!(b.receive(), vec![10]);
    assert_eq!(a.receive(), vec![20, 21]);
    // Nothing loops back to its own sender.
    assert!(a.receive().is_empty());
    assert!(b.receive().is_empty());
}

#[test]
fn send_reports_failure_once_the_peer_is_gone() {
    let (a, b) = ThreadChannel::new_pair();
    drop(b);
    assert!(!a.send(1));
}

#[test]
fn drains_are_cumulative_across_polls() {
    let (a, b) = ThreadChannel::new_pair();
    assert!(a.send(1));
    assert_eq!(b.receive(), vec![1]);
    assert!(a.send(2));
    assert!(a.send(3));
    assert_eq!(b.receive(), vec![2, 3]);
}
