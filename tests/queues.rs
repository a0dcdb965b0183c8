use bratishka_core::{FifoDropOldestQueue, IsolatedForwarder, Latest1Queue, INBOX_CAPACITY};

#[test]
fn drop_oldest_keeps_last_capacity_items_in_order() {
    let mut q = FifoDropOldestQueue::new(3);
    for v in 1..=5u32 {
        q.push_overwrite(v);
    }
    assert_eq!(q.len(), 3);
    assert_eq!(q.try_recv(), Some(3));
    assert_eq!(q.try_recv(), Some(4));
    assert_eq!(q.try_recv(), Some(5));
    assert_eq!(q.try_recv(), None);
}

#[test]
fn drop_oldest_below_capacity_keeps_everything() {
    let mut q = FifoDropOldestQueue::new(4);
    q.push_overwrite("a");
    q.push_overwrite("b");
    assert_eq!(q.capacity(), 4);
    assert_eq!(q.try_recv(), Some("a"));
    assert_eq!(q.try_recv(), Some("b"));
    assert_eq!(q.try_recv(), None);
}

#[test]
fn drop_oldest_capacity_one_keeps_newest() {
    let mut q = FifoDropOldestQueue::new(1);
    q.push_overwrite(10u8);
    q.push_overwrite(20u8);
    q.push_overwrite(30u8);
    assert_eq!(q.try_recv(), Some(30));
    assert_eq!(q.try_recv(), None);
}

#[test]
fn latest_slot_yields_only_last_value_once() {
    let mut q = Latest1Queue::new();
    assert!(!q.has_value());
    for v in 1..=7u32 {
        q.set(v);
    }
    assert_eq!(q.try_recv(), Some(7));
    assert_eq!(q.try_recv(), None);
}

#[test]
fn isolated_inbox_refuses_when_full_and_hands_value_back() {
    let mut f = IsolatedForwarder::new(2);
    for v in 0..INBOX_CAPACITY {
        assert_eq!(f.try_send(v), Ok(()));
    }
    assert_eq!(f.try_send(99), Err(99));
    assert_eq!(f.inbox_len(), 16);
    assert_eq!(f.output_len(), 0);
}

#[test]
fn isolated_drain_moves_oldest_until_output_is_full() {
    let mut f = IsolatedForwarder::new(2);
    f.try_send(1u32).unwrap();
    f.try_send(2u32).unwrap();
    f.try_send(3u32).unwrap();
    assert!(f.drain_step());
    assert!(f.drain_step());
    assert!(!f.drain_step());
    assert_eq!(f.inbox_len(), 1);
    assert_eq!(f.output_len(), 2);
    assert_eq!(f.try_recv(), Some(1));
    assert!(f.drain_step());
    assert_eq!(f.try_recv(), Some(2));
    assert_eq!(f.try_recv(), Some(3));
    assert_eq!(f.try_recv(), None);
    assert!(!f.drain_step());
}
