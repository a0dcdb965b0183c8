//! An in-process, typed event bus for pipeline stages: per-subscription
//! queues with their own delivery policy, a routing table keyed by event
//! type, a fair input multiplexer per subscriber, and the translation of
//! handler failures into events.
pub mod builder;
pub mod bus;
pub mod event;
pub mod inputs;
pub mod provider;
pub mod queues;
pub mod routes;
pub mod stages;
pub mod worker;

pub use builder::{
    validate, BuildError, EventBusBuilder, InputSpec, QueueKind, StartupTasks, SubscriptionSpec,
    WiringEntry, WorkerWiring,
};
pub use bus::{BusConfig, BusMetrics, EventBus, UnroutedEvent};
pub use event::{
    EnrichedEvent, Event, EventBody, EventId, EventMetadata, HotStorageClass, Persistence, PipelineFailed,
    PIPELINE_FAILED,
};
pub use inputs::{FifoInput, Latest1Input, SnapshotUpdate, WorkerBatch, WorkerInputs};
pub use provider::{Provider, ProviderConfig, ProviderError};
pub use queues::{FifoDropOldestQueue, IsolatedForwarder, Latest1Queue, INBOX_CAPACITY};
pub use routes::{Route, RouteEntry, RouteInbox, Routes};
pub use worker::handle_outcome;
