use bratishka_core::{
    BusConfig, Event, EventBus, EventBusBuilder, InputSpec, QueueKind, SubscriptionSpec,
    WorkerBatch, WorkerInputs,
};

fn setup(inputs: &[(&str, QueueKind)]) -> (EventBus<u32>, WorkerInputs) {
    let spec = SubscriptionSpec {
        subscriber_id: "w".to_string(),
        inputs: inputs
            .iter()
            .map(|(t, k)| InputSpec { event_type: t.to_string(), queue_kind: *k })
            .collect(),
    };
    let (bus, mut wiring, _) = EventBusBuilder::new(BusConfig { session_id: 1, strict_routing: false })
        .subscribe(spec)
        .build::<u32>()
        .unwrap();
    let inputs = wiring.take("w").unwrap();
    (bus, inputs)
}

fn publish(bus: &mut EventBus<u32>, tag: &str, v: u32) {
    assert!(bus.publish(Event::new(tag, Vec::new(), v)).is_ok());
}

fn fifo(capacity: usize) -> QueueKind {
    QueueKind::FifoDropOldest { capacity }
}

/// Position and payload of a FIFO item, or `None` for anything else.
fn served(batch: Option<WorkerBatch<u32>>) -> Option<(usize, u32)> {
    match batch {
        Some(WorkerBatch::FifoItem { input, event, .. }) => Some((input, *event.event.payload().unwrap())),
        _ => None,
    }
}

#[test]
fn fifo_inputs_are_served_round_robin() {
    let (mut bus, mut inputs) = setup(&[("a", fifo(4)), ("b", fifo(4)), ("c", fifo(4))]);
    for round in 0..2 {
        publish(&mut bus, "a", 10 + round);
        publish(&mut bus, "b", 20 + round);
        publish(&mut bus, "c", 30 + round);
    }
    let order: Vec<(usize, u32)> = (0..6).map(|_| served(inputs.next(&mut bus)).unwrap()).collect();
    assert_eq!(order, vec![(0, 10), (1, 20), (2, 30), (0, 11), (1, 21), (2, 31)]);
    assert!(inputs.next(&mut bus).is_none());
}

#[test]
fn busy_input_does_not_starve_another() {
    let (mut bus, mut inputs) = setup(&[("a", fifo(8)), ("b", fifo(8))]);
    for v in 0..6 {
        publish(&mut bus, "a", v);
    }
    publish(&mut bus, "b", 100);
    let first = served(inputs.next(&mut bus)).unwrap();
    let second = served(inputs.next(&mut bus)).unwrap();
    assert_eq!(first, (0, 0));
    assert_eq!(second, (1, 100));
    assert_eq!(inputs.fifo_index(), 0);
}

#[test]
fn scan_wraps_around_from_the_cursor() {
    let (mut bus, mut inputs) = setup(&[("a", fifo(2)), ("b", fifo(2)), ("c", fifo(2))]);
    publish(&mut bus, "b", 1);
    assert_eq!(served(inputs.next(&mut bus)), Some((1, 1)));
    assert_eq!(inputs.fifo_index(), 2);
    publish(&mut bus, "a", 2);
    assert_eq!(served(inputs.next(&mut bus)), Some((0, 2)));
    assert_eq!(inputs.fifo_index(), 1);
}

#[test]
fn nothing_pending_leaves_cursor_in_place() {
    let (mut bus, mut inputs) = setup(&[("a", fifo(2)), ("b", fifo(2))]);
    publish(&mut bus, "b", 5);
    assert_eq!(served(inputs.next(&mut bus)), Some((1, 5)));
    assert!(inputs.next(&mut bus).is_none());
    assert_eq!(inputs.fifo_index(), 0);
}

#[test]
fn latest_slots_come_first_as_one_batch() {
    let (mut bus, mut inputs) =
        setup(&[("s1", QueueKind::Latest1), ("s2", QueueKind::Latest1), ("f", fifo(2))]);
    publish(&mut bus, "f", 1);
    publish(&mut bus, "s2", 2);
    publish(&mut bus, "s2", 3);
    match inputs.next(&mut bus) {
        Some(WorkerBatch::Snapshots(b)) => {
            assert_eq!(b.len(), 1);
            assert_eq!(b[0].event_type, "s2");
            assert_eq!(*b[0].event.event.payload().unwrap(), 3);
        }
        _ => panic!("expected a snapshot batch"),
    }
    assert_eq!(served(inputs.next(&mut bus)), Some((0, 1)));
    assert!(inputs.next(&mut bus).is_none());
}

#[test]
fn no_item_is_served_twice() {
    let (mut bus, mut inputs) = setup(&[("a", fifo(8)), ("b", QueueKind::Isolated { output_buffer: 8 })]);
    for v in 0..5 {
        publish(&mut bus, "a", v);
        publish(&mut bus, "b", v);
    }
    for _ in 0..5 {
        assert!(bus.drain(1));
    }
    let mut seqs = Vec::new();
    while let Some(batch) = inputs.next(&mut bus) {
        match batch {
            WorkerBatch::FifoItem { event, .. } => seqs.push(event.ingest_seq),
            WorkerBatch::Snapshots(_) => panic!("no latest-slot input was declared"),
        }
    }
    seqs.sort();
    assert_eq!(seqs, (0..10).collect::<Vec<u64>>());
}
