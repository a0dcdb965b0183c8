//! The event bus: sequence numbering and non-blocking fan-out.
use crate::event::{EnrichedEvent, Event};
use crate::routes::{RouteInbox, Routes};
use std::sync::Arc;
use vstd::prelude::*;

verus! {

/// Relies on Arc::clone: a second handle to the same shared value.
#[verifier::external_body]
fn share<T>(a: &Arc<T>) -> (r: Arc<T>)
    ensures
        r == *a,
{
    Arc::clone(a)
}

/// `(inboxes1, drops1)` are `(inboxes0, drops0)` after `item` was offered to
/// every inbox routed from entry `k` of `routes`: each such inbox took the
/// attempt, and its drop counter went up when it refused; the other inboxes
/// and counters are untouched.
pub open spec fn fanned_out<T>(
    routes: Routes,
    inboxes0: Seq<RouteInbox<T>>,
    drops0: Seq<u64>,
    inboxes1: Seq<RouteInbox<T>>,
    drops1: Seq<u64>,
    k: int,
    item: T,
) -> bool {
    forall|i: int|
        0 <= i < inboxes0.len() ==> if routes.targets(k, i) {
            &&& inboxes0[i].delivered(&inboxes1[i], item)
            &&& drops1[i] == drops0[i] + if inboxes0[i].accepts() {
                0int
            } else {
                1int
            }
        } else {
            &&& inboxes0[i].same_as(&inboxes1[i])
            &&& drops1[i] == drops0[i]
        }
}

/// Sequence numbers strictly increase along `items` and stay below `bound`.
pub open spec fn ordered_below<P>(items: Seq<Arc<EnrichedEvent<P>>>, bound: int) -> bool {
    &&& forall|a: int, b: int|
        0 <= a < b < items.len() ==> #[trigger] items[a].ingest_seq < #[trigger] items[b].ingest_seq
    &&& forall|a: int| 0 <= a < items.len() ==> #[trigger] items[a].ingest_seq < bound
}

proof fn lemma_delivery_keeps_order<P>(
    a: RouteInbox<Arc<EnrichedEvent<P>>>,
    b: RouteInbox<Arc<EnrichedEvent<P>>>,
    item: Arc<EnrichedEvent<P>>,
    bound: int,
)
    requires
        a.wf(),
        ordered_below(a.all_items(), item.ingest_seq as int),
        item.ingest_seq < bound,
        a.delivered(&b, item),
    ensures
        ordered_below(b.all_items(), bound),
{
    match (a, b) {
        (RouteInbox::Latest1(x), RouteInbox::Latest1(y)) => {
            assert(b.all_items() =~= seq![item]);
        },
        (RouteInbox::FifoDropOldest(x), RouteInbox::FifoDropOldest(y)) => {
            let q = a.all_items();
            if q.len() >= x.spec_capacity() {
                assert(b.all_items() =~= q.drop_first().push(item));
                assert forall|i: int, j: int| 0 <= i < j < b.all_items().len() implies
                    #[trigger] b.all_items()[i].ingest_seq < #[trigger] b.all_items()[j].ingest_seq by {
                    if j < b.all_items().len() - 1 {
                        assert(b.all_items()[i] == q[i + 1]);
                        assert(b.all_items()[j] == q[j + 1]);
                    } else {
                        assert(b.all_items()[i] == q[i + 1]);
                    }
                }
                assert forall|i: int| 0 <= i < b.all_items().len() implies
                    #[trigger] b.all_items()[i].ingest_seq < bound by {
                    if i < b.all_items().len() - 1 {
                        assert(b.all_items()[i] == q[i + 1]);
                    }
                }
            } else {
                assert(b.all_items() =~= q.push(item));
                assert forall|i: int, j: int| 0 <= i < j < b.all_items().len() implies
                    #[trigger] b.all_items()[i].ingest_seq < #[trigger] b.all_items()[j].ingest_seq by {
                    assert(b.all_items()[i] == q[i]);
                    if j < q.len() {
                        assert(b.all_items()[j] == q[j]);
                    }
                }
                assert forall|i: int| 0 <= i < b.all_items().len() implies
                    #[trigger] b.all_items()[i].ingest_seq < bound by {
                    if i < q.len() {
                        assert(b.all_items()[i] == q[i]);
                    }
                }
            }
        },
        (RouteInbox::Isolated(x), RouteInbox::Isolated(y)) => {
            let q = a.all_items();
            if a.accepts() {
                assert(b.all_items() =~= q.push(item));
                assert forall|i: int, j: int| 0 <= i < j < b.all_items().len() implies
                    #[trigger] b.all_items()[i].ingest_seq < #[trigger] b.all_items()[j].ingest_seq by {
                    assert(b.all_items()[i] == q[i]);
                    if j < q.len() {
                        assert(b.all_items()[j] == q[j]);
                    }
                }
                assert forall|i: int| 0 <= i < b.all_items().len() implies
                    #[trigger] b.all_items()[i].ingest_seq < bound by {
                    if i < q.len() {
                        assert(b.all_items()[i] == q[i]);
                    }
                }
            } else {
                assert(b.all_items() =~= q);
            }
        },
        _ => {},
    }
}

proof fn lemma_take_keeps_order<T>(a: RouteInbox<T>, b: RouteInbox<T>)
    requires
        a.readable().len() > 0,
        a.taken(&b),
    ensures
        b.all_items() == a.all_items().drop_first(),
        a.readable()[0] == a.all_items()[0],
{
    match (a, b) {
        (RouteInbox::Latest1(x), RouteInbox::Latest1(y)) => {
            assert(b.all_items() =~= a.all_items().drop_first());
        },
        (RouteInbox::FifoDropOldest(x), RouteInbox::FifoDropOldest(y)) => {},
        (RouteInbox::Isolated(x), RouteInbox::Isolated(y)) => {
            assert(b.all_items() =~= a.all_items().drop_first());
        },
        _ => {},
    }
}

proof fn lemma_drain_keeps_items<T>(a: RouteInbox<T>, b: RouteInbox<T>)
    requires
        a.can_drain(),
        a.drained(&b),
    ensures
        b.all_items() == a.all_items(),
{
    match (a, b) {
        (RouteInbox::Isolated(x), RouteInbox::Isolated(y)) => {
            assert(b.all_items() =~= a.all_items());
        },
        _ => {},
    }
}

proof fn lemma_same_items<T>(a: RouteInbox<T>, b: RouteInbox<T>)
    requires
        a.same_as(&b),
    ensures
        b.all_items() == a.all_items(),
{
}

/// Bus-level configuration.
pub struct BusConfig {
    pub session_id: u128,
    pub strict_routing: bool,
}

/// Counters of the bus as a whole.
pub struct BusMetrics {
    pub unrouted_publish_total: u64,
}

impl BusMetrics {
    pub fn new() -> (r: Self)
        ensures
            r.unrouted_publish_total == 0,
    {
        BusMetrics { unrouted_publish_total: 0 }
    }

    /// Counts one publish that no subscription wanted.
    pub fn record_unrouted(&mut self, _event_type: &str)
        requires
            old(self).unrouted_publish_total < u64::MAX,
        ensures
            final(self).unrouted_publish_total == old(self).unrouted_publish_total + 1,
    {
        self.unrouted_publish_total = self.unrouted_publish_total + 1;
    }
}

/// Publishing an event whose type no subscription wants, on a bus with
/// strict routing: a configuration error.
#[derive(Debug)]
pub struct UnroutedEvent {
    pub event_type: String,
}

/// The bus: the routing table, one inbox per declared input, a drop counter
/// per inbox, and the publish sequence counter.
pub struct EventBus<P> {
    session_id: u128,
    next_ingest_seq: u64,
    routes: Routes,
    inboxes: Vec<RouteInbox<Arc<EnrichedEvent<P>>>>,
    drops_total: Vec<u64>,
    metrics: BusMetrics,
    strict_routing: bool,
}

impl<P> EventBus<P> {
    pub closed spec fn spec_session_id(&self) -> u128 {
        self.session_id
    }

    pub closed spec fn spec_next_seq(&self) -> u64 {
        self.next_ingest_seq
    }

    pub closed spec fn spec_strict(&self) -> bool {
        self.strict_routing
    }

    pub closed spec fn spec_routes(&self) -> Routes {
        self.routes
    }

    pub closed spec fn spec_inboxes(&self) -> Seq<RouteInbox<Arc<EnrichedEvent<P>>>> {
        self.inboxes@
    }

    pub closed spec fn spec_drops(&self) -> Seq<u64> {
        self.drops_total@
    }

    pub closed spec fn spec_unrouted(&self) -> u64 {
        self.metrics.unrouted_publish_total
    }

    pub closed spec fn wf(&self) -> bool {
        &&& self.routes.wf(self.inboxes@.len())
        &&& self.drops_total@.len() == self.inboxes@.len()
        &&& forall|i: int| 0 <= i < self.inboxes@.len() ==> self.inboxes@[i].wf()
        &&& forall|i: int| 0 <= i < self.drops_total@.len() ==> self.drops_total@[i] <= self.next_ingest_seq
        &&& self.metrics.unrouted_publish_total <= self.next_ingest_seq
        &&& forall|i: int|
            0 <= i < self.inboxes@.len() ==> ordered_below(
                #[trigger] self.inboxes@[i].all_items(),
                self.next_ingest_seq as int,
            )
    }

    /// Same session, policy, routing table and number of inboxes.
    pub open spec fn same_wiring(&self, other: &Self) -> bool {
        &&& self.spec_session_id() == other.spec_session_id()
        &&& self.spec_strict() == other.spec_strict()
        &&& self.spec_routes() == other.spec_routes()
        &&& self.spec_inboxes().len() == other.spec_inboxes().len()
    }

    /// A bus over a routing table whose routes name the given inboxes.
    pub fn new(cfg: BusConfig, routes: Routes, inboxes: Vec<RouteInbox<Arc<EnrichedEvent<P>>>>) -> (r: Self)
        requires
            routes.wf(inboxes@.len()),
            forall|i: int| 0 <= i < inboxes@.len() ==> inboxes@[i].wf(),
            forall|i: int| 0 <= i < inboxes@.len() ==> #[trigger] inboxes@[i].all_items().len() == 0,
        ensures
            r.wf(),
            r.spec_session_id() == cfg.session_id,
            r.spec_strict() == cfg.strict_routing,
            r.spec_routes() == routes,
            r.spec_inboxes() == inboxes@,
            r.spec_next_seq() == 0,
            r.spec_unrouted() == 0,
            forall|i: int| 0 <= i < r.spec_drops().len() ==> r.spec_drops()[i] == 0,
    {
        let mut drops_total: Vec<u64> = Vec::new();
        let mut i: usize = 0;
        while i < inboxes.len()
            invariant
                i <= inboxes@.len(),
                drops_total@.len() == i,
                forall|j: int| 0 <= j < i ==> drops_total@[j] == 0,
            decreases inboxes@.len() - i,
        {
            drops_total.push(0);
            i += 1;
        }
        EventBus {
            session_id: cfg.session_id,
            next_ingest_seq: 0,
            routes,
            inboxes,
            drops_total,
            metrics: BusMetrics::new(),
            strict_routing: cfg.strict_routing,
        }
    }

    /// Stamps the event with the next sequence number and offers it, without
    /// blocking, to every inbox routed from its type tag. A refused offer
    /// counts a drop on that inbox. An event that no subscription wants is
    /// counted as unrouted; under strict routing that is reported as an
    /// error, which the caller treats as fatal. Readers' sides (latest slots
    /// aside) are never touched: an isolated subscription's output channel
    /// stays as it was, whatever its reader does.
    pub fn publish(&mut self, event: Event<P>) -> (r: Result<u64, UnroutedEvent>)
        requires
            old(self).wf(),
            old(self).spec_next_seq() < u64::MAX,
        ensures
            final(self).wf(),
            final(self).same_wiring(old(self)),
            final(self).spec_next_seq() == old(self).spec_next_seq() + 1,
            !old(self).spec_routes().has_tag(event.event_type@) ==> {
                &&& final(self).spec_unrouted() == old(self).spec_unrouted() + 1
                &&& final(self).spec_inboxes() == old(self).spec_inboxes()
                &&& final(self).spec_drops() == old(self).spec_drops()
                &&& if old(self).spec_strict() {
                    r matches Err(u) && u.event_type@ == event.event_type@
                } else {
                    r == Ok::<u64, UnroutedEvent>(old(self).spec_next_seq())
                }
            },
            old(self).spec_routes().has_tag(event.event_type@) ==> {
                &&& r == Ok::<u64, UnroutedEvent>(old(self).spec_next_seq())
                &&& final(self).spec_unrouted() == old(self).spec_unrouted()
                &&& forall|k: int|
                    0 <= k < old(self).spec_routes().table@.len()
                        && old(self).spec_routes().table@[k].event_type@ == event.event_type@
                        ==> exists|e: Arc<EnrichedEvent<P>>|
                        e.event == event && e.ingest_seq == old(self).spec_next_seq()
                            && e.session_id == old(self).spec_session_id()
                            && #[trigger] fanned_out(
                            old(self).spec_routes(),
                            old(self).spec_inboxes(),
                            old(self).spec_drops(),
                            final(self).spec_inboxes(),
                            final(self).spec_drops(),
                            k,
                            e,
                        )
            },
    {
        let ghost pre = *self;
        let seq = self.next_ingest_seq;
        self.next_ingest_seq = seq + 1;
        let found = self.routes.find(&event.event_type);
        match found {
            None => {
                self.metrics.record_unrouted(event.event_type.as_str());
                if self.strict_routing {
                    Err(UnroutedEvent { event_type: event.event_type })
                } else {
                    Ok(seq)
                }
            },
            Some(k) => {
                let item = Arc::new(
                    EnrichedEvent {
                        event,
                        ingest_seq: seq,
                        session_id: self.session_id,
                        ingested_at: tokio::time::Instant::now(),
                    },
                );
                let ghost mid = *self;
                self.fan_out(k, &item);
                proof {
                    assert(mid.spec_routes() == pre.spec_routes());
                    assert(mid.spec_inboxes() == pre.spec_inboxes());
                    assert(mid.spec_drops() == pre.spec_drops());
                    let tag = item.event.event_type@;
                    assert forall|k2: int|
                        0 <= k2 < old(self).spec_routes().table@.len()
                            && old(self).spec_routes().table@[k2].event_type@ == tag implies k2
                        == k by {}
                }
                Ok(seq)
            },
        }
    }

    fn fan_out(&mut self, k: usize, item: &Arc<EnrichedEvent<P>>)
        requires
            old(self).wf(),
            k < old(self).routes.table@.len(),
            forall|i: int|
                0 <= i < old(self).drops_total@.len() ==> old(self).drops_total@[i]
                    < old(self).next_ingest_seq,
            item.ingest_seq < old(self).next_ingest_seq,
            forall|i: int|
                0 <= i < old(self).inboxes@.len() ==> ordered_below(
                    #[trigger] old(self).inboxes@[i].all_items(),
                    item.ingest_seq as int,
                ),
        ensures
            final(self).wf(),
            final(self).same_wiring(old(self)),
            final(self).next_ingest_seq == old(self).next_ingest_seq,
            final(self).metrics.unrouted_publish_total == old(self).metrics.unrouted_publish_total,
            fanned_out(
                old(self).spec_routes(),
                old(self).spec_inboxes(),
                old(self).spec_drops(),
                final(self).spec_inboxes(),
                final(self).spec_drops(),
                k as int,
                *item,
            ),
    {
        let ghost start = *self;
        let n = self.routes.table[k].routes.len();
        let mut m: usize = 0;
        while m < n
            invariant
                self.wf(),
                self.same_wiring(&start),
                self.next_ingest_seq == start.next_ingest_seq,
                self.metrics.unrouted_publish_total == start.metrics.unrouted_publish_total,
                start.routes == self.routes,
                start.drops_total@.len() == start.inboxes@.len(),
                item.ingest_seq < start.next_ingest_seq,
                k < self.routes.table@.len(),
                n == self.routes.table@[k as int].routes@.len(),
                m <= n,
                forall|i: int|
                    #![trigger self.inboxes@[i]]
                    #![trigger self.drops_total@[i]]
                    0 <= i < start.inboxes@.len() ==> if self.routes.targets_within(k as int, m as int, i) {
                        &&& start.inboxes@[i].delivered(&self.inboxes@[i], *item)
                        &&& self.drops_total@[i] == start.drops_total@[i] + if start.inboxes@[i].accepts() {
                            0int
                        } else {
                            1int
                        }
                    } else {
                        &&& start.inboxes@[i].same_as(&self.inboxes@[i])
                        &&& self.drops_total@[i] == start.drops_total@[i]
                        &&& self.drops_total@[i] < self.next_ingest_seq
                        &&& ordered_below(self.inboxes@[i].all_items(), item.ingest_seq as int)
                    },
            decreases n - m,
        {
            let ghost before = *self;
            let i = self.routes.table[k].routes[m].inbox;
            proof {
                assert forall|j: int| 0 <= j < m implies self.routes.table@[k as int].routes@[j].inbox
                    != i by {
                    assert(self.routes.table@[k as int].routes@[j].inbox != self.routes.table@[k as int].routes@[m as int].inbox);
                }
                assert(!self.routes.targets_within(k as int, m as int, i as int));
                assert(i < start.inboxes@.len());
                assert(self.drops_total@[i as int] < self.next_ingest_seq);
                assert(start.inboxes@[i as int].same_as(&self.inboxes@[i as int]));
                assert(ordered_below(self.inboxes@[i as int].all_items(), item.ingest_seq as int));
                assert(self.inboxes@[i as int].wf());
            }
            let ok = self.inboxes[i].try_deliver(share(item));
            if !ok {
                self.drops_total[i] = self.drops_total[i] + 1;
            }
            proof {
                lemma_delivery_keeps_order(before.inboxes@[i as int], self.inboxes@[i as int], *item, self.next_ingest_seq as int);
                assert(start.inboxes@[i as int].delivered(&self.inboxes@[i as int], *item));
                assert forall|i2: int| 0 <= i2 < self.inboxes@.len() implies self.inboxes@[i2].wf() by {
                    if i2 != i {
                        assert(self.inboxes@[i2] == before.inboxes@[i2]);
                    }
                }
                assert(self.routes.table@[k as int].routes@[m as int].inbox == i);
                assert(self.routes.targets_within(k as int, m + 1, i as int));
                assert forall|i2: int| 0 <= i2 < start.inboxes@.len() && i2 != i implies
                    self.routes.targets_within(k as int, m + 1, i2) == self.routes.targets_within(
                        k as int,
                        m as int,
                        i2,
                    ) by {
                    if self.routes.targets_within(k as int, m + 1, i2) {
                        let j = choose|j: int|
                            0 <= j < m + 1 && #[trigger] self.routes.table@[k as int].routes@[j].inbox
                                == i2;
                        assert(j != m);
                    }
                }
            }
            m += 1;
        }
    }

    pub fn session_id(&self) -> (r: u128)
        ensures
            r == self.spec_session_id(),
    {
        self.session_id
    }

    pub fn strict_routing(&self) -> (r: bool)
        ensures
            r == self.spec_strict(),
    {
        self.strict_routing
    }

    /// The sequence number the next publish will get.
    pub fn next_seq(&self) -> (r: u64)
        ensures
            r == self.spec_next_seq(),
    {
        self.next_ingest_seq
    }

    pub fn unrouted_total(&self) -> (r: u64)
        ensures
            r == self.spec_unrouted(),
    {
        self.metrics.unrouted_publish_total
    }

    pub fn routes(&self) -> (r: &Routes)
        ensures
            *r == self.spec_routes(),
    {
        &self.routes
    }

    pub fn inbox_count(&self) -> (r: usize)
        ensures
            r == self.spec_inboxes().len(),
    {
        self.inboxes.len()
    }

    pub fn inbox(&self, i: usize) -> (r: Option<&RouteInbox<Arc<EnrichedEvent<P>>>>)
        ensures
            i < self.spec_inboxes().len() ==> r == Some(&self.spec_inboxes()[i as int]),
            i >= self.spec_inboxes().len() ==> r is None,
    {
        if i < self.inboxes.len() {
            Some(&self.inboxes[i])
        } else {
            None
        }
    }

    /// Deliveries inbox `i` refused so far.
    pub fn drops_total(&self, i: usize) -> (r: Option<u64>)
        requires
            self.wf(),
        ensures
            i < self.spec_inboxes().len() ==> r == Some(self.spec_drops()[i as int]),
            i >= self.spec_inboxes().len() ==> r is None,
    {
        if i < self.drops_total.len() {
            Some(self.drops_total[i])
        } else {
            None
        }
    }

    /// Takes out the oldest readable item of inbox `i`, if there is one.
    pub fn try_recv(&mut self, i: usize) -> (r: Option<Arc<EnrichedEvent<P>>>)
        requires
            old(self).wf(),
        ensures
            final(self).wf(),
            final(self).same_wiring(old(self)),
            final(self).spec_next_seq() == old(self).spec_next_seq(),
            final(self).spec_unrouted() == old(self).spec_unrouted(),
            final(self).spec_drops() == old(self).spec_drops(),
            forall|j: int|
                0 <= j < old(self).spec_inboxes().len() && j != i ==> final(self).spec_inboxes()[j]
                    == old(self).spec_inboxes()[j],
            i >= old(self).spec_inboxes().len() ==> r is None,
            i < old(self).spec_inboxes().len() ==> {
                let before = old(self).spec_inboxes()[i as int];
                let after = final(self).spec_inboxes()[i as int];
                &&& before.readable().len() == 0 ==> r is None && before.same_as(&after)
                &&& before.readable().len() > 0 ==> r == Some(before.readable()[0]) && before.taken(&after)
            },
    {
        if i < self.inboxes.len() {
            let ghost before = self.inboxes@[i as int];
            let r = self.inboxes[i].try_recv();
            proof {
                if before.readable().len() > 0 {
                    lemma_take_keeps_order(before, self.inboxes@[i as int]);
                    let a = before.all_items();
                    let b = self.inboxes@[i as int].all_items();
                    assert forall|x: int, y: int| 0 <= x < y < b.len() implies
                        #[trigger] b[x].ingest_seq < #[trigger] b[y].ingest_seq by {
                        assert(b[x] == a[x + 1]);
                        assert(b[y] == a[y + 1]);
                    }
                    assert forall|x: int| 0 <= x < b.len() implies
                        #[trigger] b[x].ingest_seq < self.next_ingest_seq by {
                        assert(b[x] == a[x + 1]);
                    }
                } else {
                    lemma_same_items(before, self.inboxes@[i as int]);
                }
                assert forall|j: int| 0 <= j < self.inboxes@.len() implies ordered_below(
                    #[trigger] self.inboxes@[j].all_items(),
                    self.next_ingest_seq as int,
                ) by {
                    if j != i {
                        assert(self.inboxes@[j] == old(self).inboxes@[j]);
                    }
                }
            }
            r
        } else {
            None
        }
    }

    /// One hand-off of the drain of inbox `i`, when it is an isolated one:
    /// its oldest inbox item moves to its output channel if that has room.
    pub fn drain(&mut self, i: usize) -> (moved: bool)
        requires
            old(self).wf(),
        ensures
            final(self).wf(),
            final(self).same_wiring(old(self)),
            final(self).spec_next_seq() == old(self).spec_next_seq(),
            final(self).spec_unrouted() == old(self).spec_unrouted(),
            final(self).spec_drops() == old(self).spec_drops(),
            forall|j: int|
                0 <= j < old(self).spec_inboxes().len() && j != i ==> final(self).spec_inboxes()[j]
                    == old(self).spec_inboxes()[j],
            i >= old(self).spec_inboxes().len() ==> !moved,
            i < old(self).spec_inboxes().len() ==> {
                let before = old(self).spec_inboxes()[i as int];
                let after = final(self).spec_inboxes()[i as int];
                &&& moved == before.can_drain()
                &&& !moved ==> before.same_as(&after)
                &&& moved ==> before.drained(&after)
            },
    {
        if i < self.inboxes.len() {
            let ghost before = self.inboxes@[i as int];
            let moved = self.inboxes[i].drain_step();
            proof {
                if moved {
                    lemma_drain_keeps_items(before, self.inboxes@[i as int]);
                } else {
                    lemma_same_items(before, self.inboxes@[i as int]);
                }
                assert forall|j: int| 0 <= j < self.inboxes@.len() implies ordered_below(
                    #[trigger] self.inboxes@[j].all_items(),
                    self.next_ingest_seq as int,
                ) by {
                    if j != i {
                        assert(self.inboxes@[j] == old(self).inboxes@[j]);
                    }
                }
            }
            moved
        } else {
            false
        }
    }

    /// Whether inbox `i` has something to read.
    pub fn has_pending(&self, i: usize) -> (r: bool)
        ensures
            r == (i < self.spec_inboxes().len() && self.spec_inboxes()[i as int].readable().len() > 0),
    {
        if i < self.inboxes.len() {
            self.inboxes[i].has_pending()
        } else {
            false
        }
    }
}

/// An item handed out by an inbox is never handed out again: it is the
/// oldest the inbox held, every item left behind carries a larger sequence
/// number, and so does every later publish (publish hands out the bus's next
/// sequence number, which is already larger).
pub proof fn lemma_served_item_is_gone<P>(before: EventBus<P>, after: EventBus<P>, i: int)
    requires
        before.wf(),
        0 <= i < before.spec_inboxes().len(),
        before.spec_inboxes()[i].readable().len() > 0,
        before.spec_inboxes()[i].taken(&after.spec_inboxes()[i]),
    ensures
        ({
            let served = before.spec_inboxes()[i].readable()[0];
            let left = after.spec_inboxes()[i].all_items();
            &&& served.ingest_seq < before.spec_next_seq()
            &&& forall|x: int| 0 <= x < left.len() ==> served.ingest_seq < #[trigger] left[x].ingest_seq
        }),
{
    let a = before.spec_inboxes()[i];
    let b = after.spec_inboxes()[i];
    lemma_take_keeps_order(a, b);
    assert(ordered_below(a.all_items(), before.spec_next_seq() as int));
    assert forall|x: int| 0 <= x < b.all_items().len() implies a.readable()[0].ingest_seq
        < #[trigger] b.all_items()[x].ingest_seq by {
        assert(b.all_items()[x] == a.all_items()[x + 1]);
    }
}

} // verus!
