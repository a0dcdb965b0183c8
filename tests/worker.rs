use bratishka_core::{
    handle_outcome, BusConfig, Event, EventBus, EventBusBuilder, InputSpec, QueueKind,
    SubscriptionSpec, WorkerBatch, WorkerInputs, PIPELINE_FAILED,
};

fn setup() -> (EventBus<u32>, WorkerInputs, WorkerInputs) {
    let sink = SubscriptionSpec {
        subscriber_id: "sink".to_string(),
        inputs: vec![InputSpec {
            event_type: PIPELINE_FAILED.to_string(),
            queue_kind: QueueKind::FifoDropOldest { capacity: 4 },
        }],
    };
    let stage = SubscriptionSpec {
        subscriber_id: "stage".to_string(),
        inputs: vec![InputSpec {
            event_type: "job".to_string(),
            queue_kind: QueueKind::FifoDropOldest { capacity: 4 },
        }],
    };
    let (bus, mut wiring, _) = EventBusBuilder::new(BusConfig { session_id: 3, strict_routing: true })
        .subscribe(sink)
        .subscribe(stage)
        .build::<u32>()
        .unwrap();
    let sink_inputs = wiring.take("sink").unwrap();
    let stage_inputs = wiring.take("stage").unwrap();
    (bus, sink_inputs, stage_inputs)
}

#[test]
fn handler_error_publishes_one_failure_event() {
    let (mut bus, mut sink, mut stage) = setup();
    assert!(bus.publish(Event::new("job", Vec::new(), 42)).is_ok());
    let item = match stage.next(&mut bus) {
        Some(WorkerBatch::FifoItem { event, .. }) => event,
        _ => panic!("the stage got nothing"),
    };
    let job_id = item.event.event_id();
    let r = handle_outcome(&mut bus, "stage", &item, Err("download failed".to_string()));
    assert!(r.is_ok());
    assert_eq!(bus.next_seq(), 2);
    let failure = match sink.next(&mut bus) {
        Some(WorkerBatch::FifoItem { event, .. }) => event,
        _ => panic!("the sink got nothing"),
    };
    assert_eq!(failure.event.event_type(), "pipeline.failed");
    assert_eq!(failure.event.parent_ids, vec![job_id]);
    assert_ne!(failure.event.event_id(), job_id);
    let f = failure.event.as_failure().unwrap();
    assert_eq!(f.stage, "stage");
    assert_eq!(f.message, "download failed");
    assert!(failure.event.payload().is_none());
    assert!(sink.next(&mut bus).is_none());
}

#[test]
fn handler_success_publishes_nothing() {
    let (mut bus, mut sink, mut stage) = setup();
    assert!(bus.publish(Event::new("job", Vec::new(), 1)).is_ok());
    let item = match stage.next(&mut bus) {
        Some(WorkerBatch::FifoItem { event, .. }) => event,
        _ => panic!("the stage got nothing"),
    };
    assert!(handle_outcome(&mut bus, "stage", &item, Ok(())).is_ok());
    assert_eq!(bus.next_seq(), 1);
    assert!(sink.next(&mut bus).is_none());
}

#[test]
fn failure_without_subscriber_under_strict_routing_is_reported() {
    let spec = SubscriptionSpec {
        subscriber_id: "only".to_string(),
        inputs: vec![InputSpec { event_type: "job".to_string(), queue_kind: QueueKind::Latest1 }],
    };
    let (mut strict_bus, mut wiring, _) =
        EventBusBuilder::new(BusConfig { session_id: 4, strict_routing: true })
            .subscribe(spec)
            .build::<u32>()
            .unwrap();
    let mut only = wiring.take("only").unwrap();
    assert!(strict_bus.publish(Event::new("job", Vec::new(), 9)).is_ok());
    let item = match only.next(&mut strict_bus) {
        Some(WorkerBatch::Snapshots(mut b)) => b.remove(0).event,
        _ => panic!("nothing delivered"),
    };
    assert!(handle_outcome(&mut strict_bus, "only", &item, Err("x".to_string())).is_err());
    assert_eq!(strict_bus.unrouted_total(), 1);
}
