use bratishka_core::{Event, HotStorageClass, Persistence, PipelineFailed};

#[test]
fn new_event_carries_tag_parents_and_payload() {
    let root: Event<&str> = Event::new("job", Vec::new(), "payload");
    let child = Event::new("step", vec![root.event_id()], "next");
    assert_eq!(root.event_type(), "job");
    assert!(root.parent_ids.is_empty());
    assert_eq!(child.parent_ids, vec![root.event_id()]);
    assert_ne!(child.event_id(), root.event_id());
    assert_eq!(child.payload(), Some(&"next"));
    assert!(child.as_failure().is_none());
}

#[test]
fn event_storage_defaults() {
    let e = Event::new("job", Vec::new(), 0u8);
    assert_eq!(e.schema_version(), 1);
    assert_eq!(e.persistence(), Persistence::Warm);
    assert!(!e.must_persist());
    assert_eq!(e.hot_storage_class(), HotStorageClass::Full);
}

#[test]
fn failure_event_names_stage_and_parent() {
    let e = Event::new("job", Vec::new(), 0u8);
    let f = PipelineFailed::new(&e, "stage.x", "went wrong".to_string());
    assert_eq!(f.event_type(), "pipeline.failed");
    assert_eq!(f.parent_ids, vec![e.event_id()]);
    let failure = f.as_failure().unwrap();
    assert_eq!(failure.stage, "stage.x");
    assert_eq!(failure.message, "went wrong");
}
