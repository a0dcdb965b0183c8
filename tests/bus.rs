use bratishka_core::{
    BuildError, BusConfig, Event, EventBus, EventBusBuilder, InputSpec, QueueKind, RouteInbox,
    StartupTasks, SubscriptionSpec, WorkerWiring,
};

fn declare(id: &str, inputs: &[(&str, QueueKind)]) -> SubscriptionSpec {
    SubscriptionSpec {
        subscriber_id: id.to_string(),
        inputs: inputs
            .iter()
            .map(|(t, k)| InputSpec { event_type: t.to_string(), queue_kind: *k })
            .collect(),
    }
}

fn builder(strict: bool, subs: Vec<SubscriptionSpec>) -> EventBusBuilder {
    let mut b = EventBusBuilder::new(BusConfig { session_id: 7, strict_routing: strict });
    for s in subs {
        b = b.subscribe(s);
    }
    b
}

fn build(strict: bool, subs: Vec<SubscriptionSpec>) -> (EventBus<u32>, WorkerWiring, StartupTasks) {
    builder(strict, subs).build::<u32>().unwrap()
}

fn ev(tag: &str, v: u32) -> Event<u32> {
    Event::new(tag, Vec::new(), v)
}

fn payload_of(bus: &mut EventBus<u32>, inbox: usize) -> Option<u32> {
    bus.try_recv(inbox).map(|e| *e.event.payload().unwrap())
}

fn build_error(subs: Vec<SubscriptionSpec>) -> Option<BuildError> {
    builder(false, subs).build::<u32>().err()
}

#[test]
fn unrouted_publish_is_counted_when_not_strict() {
    let (mut bus, _, _) = build(false, vec![declare("a", &[("t", QueueKind::Latest1)])]);
    assert_eq!(bus.unrouted_total(), 0);
    let r = bus.publish(ev("nobody", 1));
    assert!(matches!(r, Ok(0)));
    assert_eq!(bus.unrouted_total(), 1);
    assert_eq!(bus.next_seq(), 1);
    assert_eq!(payload_of(&mut bus, 0), None);
}

#[test]
fn unrouted_publish_is_fatal_when_strict() {
    let (mut bus, _, _) = build(true, vec![declare("a", &[("t", QueueKind::Latest1)])]);
    let r = bus.publish(ev("nobody", 1));
    match r {
        Err(u) => assert_eq!(u.event_type, "nobody"),
        Ok(_) => panic!("strict routing accepted an unrouted event"),
    }
    assert_eq!(bus.unrouted_total(), 1);
}

#[test]
fn fifo_and_isolated_subscriptions_of_one_type() {
    let (mut bus, _, tasks) = build(
        false,
        vec![
            declare("a", &[("t", QueueKind::FifoDropOldest { capacity: 1 })]),
            declare("b", &[("t", QueueKind::Isolated { output_buffer: 1 })]),
        ],
    );
    assert_eq!(tasks.drains, vec![1]);
    for v in 1..=3 {
        assert!(bus.publish(ev("t", v)).is_ok());
    }
    match bus.inbox(1) {
        Some(RouteInbox::Isolated(f)) => {
            assert!(f.output_len() <= 1);
            assert_eq!(f.inbox_len(), 3);
        }
        _ => panic!("inbox 1 is not isolated"),
    }
    assert_eq!(bus.drops_total(0), Some(0));
    assert_eq!(bus.drops_total(1), Some(0));
    assert_eq!(payload_of(&mut bus, 0), Some(3));
    assert_eq!(payload_of(&mut bus, 0), None);
    assert!(bus.drain(1));
    assert!(!bus.drain(1));
    match bus.inbox(1) {
        Some(RouteInbox::Isolated(f)) => {
            assert_eq!(f.output_len(), 1);
            assert_eq!(f.inbox_len(), 2);
        }
        _ => panic!("inbox 1 is not isolated"),
    }
    assert_eq!(payload_of(&mut bus, 1), Some(1));
}

#[test]
fn isolated_publishes_return_while_reader_is_paused() {
    let (mut bus, _, _) =
        build(false, vec![declare("b", &[("t", QueueKind::Isolated { output_buffer: 1 })])]);
    for v in 0..50 {
        assert!(bus.publish(ev("t", v)).is_ok());
    }
    assert_eq!(bus.next_seq(), 50);
    assert_eq!(bus.drops_total(0), Some(34));
    assert_eq!(bus.drops_total(1), None);
    assert!(bus.drain(0));
    assert_eq!(payload_of(&mut bus, 0), Some(0));
}

#[test]
fn publish_numbers_events_in_order() {
    let (mut bus, _, _) =
        build(false, vec![declare("a", &[("t", QueueKind::FifoDropOldest { capacity: 8 })])]);
    assert_eq!(bus.session_id(), 7);
    assert!(!bus.strict_routing());
    for want in 0..3u64 {
        assert!(matches!(bus.publish(ev("t", 0)), Ok(s) if s == want));
    }
    for want in 0..3u64 {
        let e = bus.try_recv(0).unwrap();
        assert_eq!(e.ingest_seq, want);
        assert_eq!(e.session_id, 7);
        assert_eq!(e.event.event_type(), "t");
    }
}

#[test]
fn latest_slot_subscription_keeps_last_publish() {
    let (mut bus, _, _) = build(false, vec![declare("a", &[("t", QueueKind::Latest1)])]);
    for v in 1..=4 {
        assert!(bus.publish(ev("t", v)).is_ok());
    }
    assert_eq!(payload_of(&mut bus, 0), Some(4));
    assert_eq!(payload_of(&mut bus, 0), None);
}

#[test]
fn build_routes_each_input_to_its_own_inbox() {
    let (bus, _, _) = build(
        false,
        vec![
            declare("a", &[("x", QueueKind::Latest1), ("y", QueueKind::FifoDropOldest { capacity: 2 })]),
            declare("b", &[("y", QueueKind::Isolated { output_buffer: 3 })]),
        ],
    );
    assert_eq!(bus.inbox_count(), 3);
    let table = &bus.routes().table;
    assert_eq!(table.len(), 2);
    assert_eq!(table[0].event_type, "x");
    assert_eq!(table[0].routes.len(), 1);
    assert_eq!(table[0].routes[0].inbox, 0);
    assert_eq!(table[1].event_type, "y");
    assert_eq!(table[1].routes.len(), 2);
    assert_eq!(table[1].routes[0].subscriber_id, "a");
    assert_eq!(table[1].routes[0].inbox, 1);
    assert_eq!(table[1].routes[1].subscriber_id, "b");
    assert_eq!(table[1].routes[1].inbox, 2);
    match bus.inbox(2) {
        Some(RouteInbox::Isolated(f)) => assert_eq!(f.output_buffer(), 3),
        _ => panic!("inbox 2 is not isolated"),
    }
}

#[test]
fn wiring_hands_out_inputs_once() {
    let (_, mut wiring, _) = build(
        false,
        vec![declare("a", &[("x", QueueKind::Latest1)]), declare("b", &[("x", QueueKind::Latest1)])],
    );
    let a = wiring.take("a").unwrap();
    assert_eq!(a.latest().len(), 1);
    assert_eq!(a.latest()[0].inbox, 0);
    assert!(wiring.take("a").is_none());
    assert!(wiring.take("zzz").is_none());
    let b = wiring.take("b").unwrap();
    assert_eq!(b.latest()[0].inbox, 1);
}

#[test]
fn build_refuses_blank_subscriber() {
    let e = build_error(vec![declare("  ", &[("x", QueueKind::Latest1)])]);
    assert_eq!(e, Some(BuildError::EmptySubscriberId { subscriber: 0 }));
}

#[test]
fn build_refuses_duplicate_subscriber() {
    let e = build_error(vec![
        declare("a", &[("x", QueueKind::Latest1)]),
        declare("a", &[("y", QueueKind::Latest1)]),
    ]);
    assert_eq!(e, Some(BuildError::DuplicateSubscriberId { subscriber: 1 }));
}

#[test]
fn build_refuses_subscriber_without_inputs() {
    let e = build_error(vec![declare("a", &[])]);
    assert_eq!(e, Some(BuildError::NoInputs { subscriber: 0 }));
}

#[test]
fn build_refuses_blank_event_type() {
    let e = build_error(vec![declare("a", &[("x", QueueKind::Latest1), ("\t", QueueKind::Latest1)])]);
    assert_eq!(e, Some(BuildError::EmptyEventType { subscriber: 0, input: 1 }));
}

#[test]
fn build_refuses_duplicate_input() {
    let e = build_error(vec![declare(
        "a",
        &[("x", QueueKind::Latest1), ("x", QueueKind::FifoDropOldest { capacity: 1 })],
    )]);
    assert_eq!(e, Some(BuildError::DuplicateInput { subscriber: 0, input: 1 }));
}

#[test]
fn build_refuses_zero_capacity() {
    let e = build_error(vec![declare("a", &[("x", QueueKind::FifoDropOldest { capacity: 0 })])]);
    assert_eq!(e, Some(BuildError::ZeroCapacity { subscriber: 0, input: 0 }));
    let e = build_error(vec![declare("a", &[("x", QueueKind::Isolated { output_buffer: 0 })])]);
    assert_eq!(e, Some(BuildError::ZeroCapacity { subscriber: 0, input: 0 }));
    let e = build_error(vec![declare("a", &[("x", QueueKind::BoundedDropNewest { capacity: 0 })])]);
    assert_eq!(e, Some(BuildError::ZeroCapacity { subscriber: 0, input: 0 }));
}

#[test]
fn build_refuses_drop_newest_policy() {
    let e = build_error(vec![
        declare("a", &[("x", QueueKind::Latest1)]),
        declare("b", &[("y", QueueKind::BoundedDropNewest { capacity: 3 })]),
    ]);
    assert_eq!(e, Some(BuildError::UnsupportedQueueKind { subscriber: 1, input: 0 }));
}

#[test]
fn build_reports_first_fault_only() {
    let e = build_error(vec![
        declare("a", &[("x", QueueKind::FifoDropOldest { capacity: 0 })]),
        declare("", &[]),
    ]);
    assert_eq!(e, Some(BuildError::ZeroCapacity { subscriber: 0, input: 0 }));
}
