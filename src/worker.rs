//! The decision the generic worker run loop makes after each handled item.
use crate::bus::{fanned_out, EventBus, UnroutedEvent};
use crate::event::{pipeline_failed_tag, reports_failure, EnrichedEvent, PipelineFailed};
use std::sync::Arc;
use vstd::prelude::*;

verus! {

/// After the handler of `subscriber_id` ran on `event`: a success publishes
/// nothing; a failure publishes exactly one failure event, whose one parent
/// is the triggering event and whose stage is the subscriber. The loop never
/// stops on a handler failure; an error comes back only when the failure
/// event itself is unrouted under strict routing.
pub fn handle_outcome<P>(
    bus: &mut EventBus<P>,
    subscriber_id: &str,
    event: &EnrichedEvent<P>,
    outcome: Result<(), String>,
) -> (r: Result<(), UnroutedEvent>)
    requires
        old(bus).wf(),
        old(bus).spec_next_seq() < u64::MAX,
    ensures
        final(bus).wf(),
        outcome is Ok ==> *final(bus) == *old(bus) && r is Ok,
        outcome matches Err(message) ==> {
            &&& final(bus).same_wiring(old(bus))
            &&& final(bus).spec_next_seq() == old(bus).spec_next_seq() + 1
            &&& old(bus).spec_routes().has_tag(pipeline_failed_tag()) ==> {
                &&& r is Ok
                &&& final(bus).spec_unrouted() == old(bus).spec_unrouted()
                &&& forall|k: int|
                    0 <= k < old(bus).spec_routes().table@.len()
                        && old(bus).spec_routes().table@[k].event_type@ == pipeline_failed_tag()
                        ==> exists|e: Arc<EnrichedEvent<P>>|
                        reports_failure(e.event, event.event.event_id, subscriber_id@, message@)
                            && e.ingest_seq == old(bus).spec_next_seq()
                            && #[trigger] fanned_out(
                            old(bus).spec_routes(),
                            old(bus).spec_inboxes(),
                            old(bus).spec_drops(),
                            final(bus).spec_inboxes(),
                            final(bus).spec_drops(),
                            k,
                            e,
                        )
            }
            &&& !old(bus).spec_routes().has_tag(pipeline_failed_tag()) ==> {
                &&& final(bus).spec_unrouted() == old(bus).spec_unrouted() + 1
                &&& final(bus).spec_inboxes() == old(bus).spec_inboxes()
                &&& (r is Err <==> old(bus).spec_strict())
            }
        },
{
    match outcome {
        Ok(()) => Ok(()),
        Err(message) => {
            let failed = PipelineFailed::new(&event.event, subscriber_id, message);
            match bus.publish(failed) {
                Ok(_) => Ok(()),
                Err(u) => Err(u),
            }
        },
    }
}

} // verus!
