//! Events, their bus-assigned envelope, and the failure event.
use vstd::prelude::*;

verus! {

/// Identity of an event: the 128 bits of a random (version 4) UUID.
#[derive(Clone, Copy, Debug, PartialEq, Eq, Structural, Hash)]
pub struct EventId(pub u128);

#[verifier::external_type_specification]
#[verifier::external_body]
pub struct ExSystemTime(std::time::SystemTime);

#[verifier::external_type_specification]
#[verifier::external_body]
pub struct ExInstant(tokio::time::Instant);

/// Relies on std::time::SystemTime::now: the wall-clock time of creation.
pub assume_specification[ std::time::SystemTime::now ]() -> std::time::SystemTime;

/// Relies on tokio::time::Instant::now: the monotonic instant of ingestion.
pub assume_specification[ tokio::time::Instant::now ]() -> tokio::time::Instant;

/// Relies on uuid::Uuid::new_v4: a fresh random identifier, taken as its 128 bits.
#[verifier::external_body]
fn fresh_event_id() -> EventId {
    EventId(uuid::Uuid::new_v4().as_u128())
}

/// Routing tag of the failure event.
pub const PIPELINE_FAILED: &'static str = "pipeline.failed";

pub open spec fn pipeline_failed_tag() -> Seq<char> {
    PIPELINE_FAILED@
}

#[derive(Clone, Copy, Debug, PartialEq, Eq, Structural)]
pub enum Persistence {
    /// Never persisted.
    Never,
    Warm,
    /// Must be persisted (best effort).
    Cold,
}

#[derive(Clone, Copy, Debug, PartialEq, Eq, Structural)]
pub enum HotStorageClass {
    Full,
    MetadataOnly,
    Skip,
}

/// A handler failure, turned into data: the stage that failed and why.
#[derive(Debug)]
pub struct PipelineFailed {
    pub stage: String,
    pub message: String,
}

/// What an event carries: a failure reported by the run loop, or a payload
/// of the application's own.
pub enum EventBody<P> {
    Failed(PipelineFailed),
    Data(P),
}

/// An immutable event: identity, causal parents, routing tag, creation time
/// and body.
pub struct Event<P> {
    pub event_id: EventId,
    pub parent_ids: Vec<EventId>,
    pub event_type: String,
    pub timestamp: std::time::SystemTime,
    pub body: EventBody<P>,
}

impl<P> Event<P> {
    /// A new application event with a fresh identity, created now.
    pub fn new(event_type: &str, parent_ids: Vec<EventId>, payload: P) -> (r: Self)
        requires
            event_type@ != pipeline_failed_tag(),
        ensures
            r.event_type@ == event_type@,
            r.parent_ids@ == parent_ids@,
            r.body == EventBody::<P>::Data(payload),
    {
        Event {
            event_id: fresh_event_id(),
            parent_ids,
            event_type: event_type.to_owned(),
            timestamp: std::time::SystemTime::now(),
            body: EventBody::Data(payload),
        }
    }

    pub fn event_id(&self) -> (r: EventId)
        ensures
            r == self.event_id,
    {
        self.event_id
    }

    pub fn event_type(&self) -> (r: &str)
        ensures
            r@ == self.event_type@,
    {
        self.event_type.as_str()
    }

    pub fn schema_version(&self) -> (r: u32)
        ensures
            r == 1,
    {
        1
    }

    pub fn persistence(&self) -> (r: Persistence)
        ensures
            r == Persistence::Warm,
    {
        Persistence::Warm
    }

    pub fn must_persist(&self) -> (r: bool)
        ensures
            r == (self.persistence_spec() == Persistence::Cold),
    {
        match self.persistence() {
            Persistence::Cold => true,
            _ => false,
        }
    }

    pub open spec fn persistence_spec(&self) -> Persistence {
        Persistence::Warm
    }

    pub fn hot_storage_class(&self) -> (r: HotStorageClass)
        ensures
            r == HotStorageClass::Full,
    {
        HotStorageClass::Full
    }

    /// The failure this event reports, if it is a failure event.
    pub fn as_failure(&self) -> (r: Option<&PipelineFailed>)
        ensures
            r == match self.body {
                EventBody::Failed(f) => Some(&f),
                EventBody::Data(_) => None::<&PipelineFailed>,
            },
    {
        match &self.body {
            EventBody::Failed(f) => Some(f),
            EventBody::Data(_) => None,
        }
    }

    /// The application payload, unless this is a failure event.
    pub fn payload(&self) -> (r: Option<&P>)
        ensures
            r == match self.body {
                EventBody::Data(p) => Some(&p),
                EventBody::Failed(_) => None::<&P>,
            },
    {
        match &self.body {
            EventBody::Data(p) => Some(p),
            EventBody::Failed(_) => None,
        }
    }
}

/// Whether `e` reports the failure of `stage` while handling the event
/// identified by `parent`, with the given message.
pub open spec fn reports_failure<P>(e: Event<P>, parent: EventId, stage: Seq<char>, message: Seq<char>) -> bool {
    &&& e.event_type@ == pipeline_failed_tag()
    &&& e.parent_ids@ == seq![parent]
    &&& e.body matches EventBody::Failed(f)
    &&& f.stage@ == stage
    &&& f.message@ == message
}

impl PipelineFailed {
    /// The failure event for a handler of `subscriber_id` that failed on
    /// `event` with `message`: its one parent is that event.
    pub fn new<P>(event: &Event<P>, subscriber_id: &str, message: String) -> (r: Event<P>)
        ensures
            reports_failure(r, event.event_id, subscriber_id@, message@),
    {
        let mut parent_ids: Vec<EventId> = Vec::new();
        parent_ids.push(event.event_id);
        Event {
            event_id: fresh_event_id(),
            parent_ids,
            event_type: PIPELINE_FAILED.to_owned(),
            timestamp: std::time::SystemTime::now(),
            body: EventBody::Failed(PipelineFailed { stage: subscriber_id.to_owned(), message }),
        }
    }
}

/// An event as the bus delivered it: its publish sequence number, the bus
/// session, and the instant it was taken in.
pub struct EnrichedEvent<P> {
    pub event: Event<P>,
    pub ingest_seq: u64,
    pub session_id: u128,
    pub ingested_at: tokio::time::Instant,
}

/// A flat record of an event's routing metadata, for storage: at most four
/// parents are kept, `parent_count` of them in use.
pub struct EventMetadata {
    pub event_id: EventId,
    pub event_type: String,
    pub timestamp_micros: i64,
    pub ingest_seq: u64,
    pub session_id: u128,
    pub parent_ids: [Option<EventId>; 4],
    pub parent_count: u8,
}

} // verus!
