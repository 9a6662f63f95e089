use practice::channel::{bounded, RecvError, SendError};

#[test]
fn receiver_drop_should_error_when_send() {
    let (mut shared, s, r) = bounded::<i32>(100);
    let s1 = s.duplicate(&mut shared);
    let s2 = s.duplicate(&mut shared);
    // the only receiver goes away
    r.close(&mut shared);

    assert!(s1.send(&mut shared, 1).is_err());
    assert!(s2.send(&mut shared, 1).is_err());
}

#[test]
fn channel_fast_path_should_work() {
    let (mut shared, s, mut r) = bounded(100);
    for i in 0..10usize {
        s.send(&mut shared, i).unwrap();
    }

    assert_eq!(r.local_len(), 0);
    // the first receive moves everything queued into the cache
    assert_eq!(0, r.recv(&mut shared).unwrap());
    // nine values wait in the cache
    assert_eq!(r.local_len(), 9);
    // nothing is left in the queue
    assert_eq!(s.total_queued_items(&shared), 0);

    // the rest come from the cache
    for idx in 0..9usize {
        assert_eq!(idx + 1, r.recv(&mut shared).unwrap());
    }
}

#[test]
fn full_queue_hands_the_value_back() {
    let (mut shared, s, mut r) = bounded(2);
    s.send(&mut shared, 1).unwrap();
    s.send(&mut shared, 2).unwrap();
    assert!(matches!(s.send(&mut shared, 3), Err(SendError::Full(3))));
    assert_eq!(r.recv(&mut shared), Ok(1));
    s.send(&mut shared, 3).unwrap();
    assert_eq!(r.recv(&mut shared), Ok(2));
    assert_eq!(r.recv(&mut shared), Ok(3));
    assert_eq!(r.recv(&mut shared), Err(RecvError::Empty));
}

#[test]
fn last_sender_drop_should_error_when_receive() {
    let (mut shared, s, mut r) = bounded(100);
    let s1 = s.duplicate(&mut shared);
    let senders = [s, s1];
    let total = senders.len();
    for sender in senders {
        sender.send(&mut shared, "hello").unwrap();
        sender.close(&mut shared);
    }
    // with no sender left, what is queued can still be received
    for _ in 0..total {
        r.recv(&mut shared).unwrap();
    }
    // but nothing more
    assert_eq!(r.recv(&mut shared), Err(RecvError::NoSenders));
}

#[test]
fn closing_the_last_sender_is_reported() {
    let (mut shared, s, _r) = bounded::<u8>(1);
    let s1 = s.duplicate(&mut shared);
    assert!(!s.close(&mut shared));
    assert!(s1.close(&mut shared));
}

#[test]
fn no_receivers_hands_the_value_back() {
    let (mut shared, s, _r) = bounded(10);
    let r2 = _r.duplicate(&mut shared);
    _r.close(&mut shared);
    assert!(s.send(&mut shared, 5).is_ok());
    r2.close(&mut shared);
    assert!(matches!(s.send(&mut shared, 7), Err(SendError::NoReceivers(7))));
    assert_eq!(s.total_queued_items(&shared), 1);
}

#[test]
fn interleaved_ends_lose_nothing_and_keep_order() {
    let (mut shared, s, mut r1) = bounded::<i32>(3);
    let mut r2 = r1.duplicate(&mut shared);
    let mut got1 = Vec::new();
    let mut got2 = Vec::new();
    s.send(&mut shared, 1).unwrap();
    s.send(&mut shared, 2).unwrap();
    got1.push(r1.recv(&mut shared).unwrap());
    s.send(&mut shared, 3).unwrap();
    s.send(&mut shared, 4).unwrap();
    s.send(&mut shared, 5).unwrap();
    assert!(matches!(s.send(&mut shared, 6), Err(SendError::Full(6))));
    got2.push(r2.recv(&mut shared).unwrap());
    got1.push(r1.recv(&mut shared).unwrap());
    got2.push(r2.recv(&mut shared).unwrap());
    got2.push(r2.recv(&mut shared).unwrap());
    assert!(matches!(r1.recv(&mut shared), Err(RecvError::Empty)));
    // each receiver gets its values in the order they were sent
    assert_eq!(got1, vec![1, 2]);
    assert_eq!(got2, vec![3, 4, 5]);
    // every value sent was received exactly once
    let mut all: Vec<i32> = got1.iter().chain(got2.iter()).copied().collect();
    all.sort();
    assert_eq!(all, vec![1, 2, 3, 4, 5]);
}
