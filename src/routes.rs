//! The routing table: from event-type tag to the inboxes subscribed to it.
use crate::queues::{
    push_drop_oldest, set_latest, FifoDropOldestQueue, IsolatedForwarder, Latest1Queue,
    INBOX_CAPACITY,
};
use vstd::prelude::*;

verus! {

/// One subscription's inbox, under the policy the subscription chose.
pub enum RouteInbox<T> {
    Latest1(Latest1Queue<T>),
    FifoDropOldest(FifoDropOldestQueue<T>),
    Isolated(IsolatedForwarder<T>),
}

impl<T> RouteInbox<T> {
    pub open spec fn wf(&self) -> bool {
        match self {
            RouteInbox::Latest1(_) => true,
            RouteInbox::FifoDropOldest(q) => q.wf(),
            RouteInbox::Isolated(f) => f.wf(),
        }
    }

    /// Whether a delivery attempt now would be taken in (only a full
    /// isolated inbox refuses one).
    pub open spec fn accepts(&self) -> bool {
        match self {
            RouteInbox::Isolated(f) => f.inbox_view().len() < INBOX_CAPACITY,
            _ => true,
        }
    }

    /// The items the subscriber can read from this inbox, oldest first.
    pub open spec fn readable(&self) -> Seq<T> {
        match self {
            RouteInbox::Latest1(q) => match q@ {
                Some(v) => seq![v],
                None => Seq::empty(),
            },
            RouteInbox::FifoDropOldest(q) => q@,
            RouteInbox::Isolated(f) => f.output_view(),
        }
    }

    /// Everything the inbox holds, oldest first (for an isolated inbox, the
    /// output channel comes before the inbox behind it).
    pub open spec fn all_items(&self) -> Seq<T> {
        match self {
            RouteInbox::Latest1(q) => match q@ {
                Some(v) => seq![v],
                None => Seq::empty(),
            },
            RouteInbox::FifoDropOldest(q) => q@,
            RouteInbox::Isolated(f) => f.output_view() + f.inbox_view(),
        }
    }

    /// `next` is this inbox after a delivery attempt of `v`.
    pub open spec fn delivered(&self, next: &Self, v: T) -> bool {
        match (self, next) {
            (RouteInbox::Latest1(a), RouteInbox::Latest1(b)) => b@ == set_latest(a@, v),
            (RouteInbox::FifoDropOldest(a), RouteInbox::FifoDropOldest(b)) => {
                &&& b.spec_capacity() == a.spec_capacity()
                &&& b@ == push_drop_oldest(a@, a.spec_capacity(), v)
            },
            (RouteInbox::Isolated(a), RouteInbox::Isolated(b)) => {
                &&& b.spec_output_buffer() == a.spec_output_buffer()
                &&& b.output_view() == a.output_view()
                &&& b.inbox_view() == if self.accepts() {
                    a.inbox_view().push(v)
                } else {
                    a.inbox_view()
                }
            },
            _ => false,
        }
    }

    /// `next` holds what this inbox holds, under the same policy and bounds.
    pub open spec fn same_as(&self, next: &Self) -> bool {
        match (self, next) {
            (RouteInbox::Latest1(a), RouteInbox::Latest1(b)) => b@ == a@,
            (RouteInbox::FifoDropOldest(a), RouteInbox::FifoDropOldest(b)) => {
                &&& b.spec_capacity() == a.spec_capacity()
                &&& b@ == a@
            },
            (RouteInbox::Isolated(a), RouteInbox::Isolated(b)) => {
                &&& b.spec_output_buffer() == a.spec_output_buffer()
                &&& b.inbox_view() == a.inbox_view()
                &&& b.output_view() == a.output_view()
            },
            _ => false,
        }
    }

    /// `next` is this inbox after its oldest readable item was taken out.
    pub open spec fn taken(&self, next: &Self) -> bool {
        match (self, next) {
            (RouteInbox::Latest1(a), RouteInbox::Latest1(b)) => b@ == None::<T>,
            (RouteInbox::FifoDropOldest(a), RouteInbox::FifoDropOldest(b)) => {
                &&& b.spec_capacity() == a.spec_capacity()
                &&& b@ == a@.drop_first()
            },
            (RouteInbox::Isolated(a), RouteInbox::Isolated(b)) => {
                &&& b.spec_output_buffer() == a.spec_output_buffer()
                &&& b.inbox_view() == a.inbox_view()
                &&& b.output_view() == a.output_view().drop_first()
            },
            _ => false,
        }
    }

    /// Whether the subscriber has something to read here.
    pub fn has_pending(&self) -> (r: bool)
        ensures
            r == (self.readable().len() > 0),
    {
        match self {
            RouteInbox::Latest1(q) => q.has_value(),
            RouteInbox::FifoDropOldest(q) => q.len() > 0,
            RouteInbox::Isolated(f) => f.output_len() > 0,
        }
    }

    /// One non-blocking delivery attempt; `false` when the inbox refused it.
    pub fn try_deliver(&mut self, v: T) -> (ok: bool)
        requires
            old(self).wf(),
        ensures
            final(self).wf(),
            ok == old(self).accepts(),
            old(self).delivered(final(self), v),
    {
        match self {
            RouteInbox::Latest1(q) => {
                q.set(v);
                true
            },
            RouteInbox::FifoDropOldest(q) => {
                q.push_overwrite(v);
                true
            },
            RouteInbox::Isolated(f) => f.try_send(v).is_ok(),
        }
    }

    /// Whether this is an isolated inbox with an item waiting and room in its
    /// output channel.
    pub open spec fn can_drain(&self) -> bool {
        &&& self matches RouteInbox::Isolated(f)
        &&& f.inbox_view().len() > 0
        &&& f.output_view().len() < f.spec_output_buffer()
    }

    /// `next` is this isolated inbox after its oldest inbox item moved to the
    /// back of its output channel.
    pub open spec fn drained(&self, next: &Self) -> bool {
        match (self, next) {
            (RouteInbox::Isolated(a), RouteInbox::Isolated(b)) => {
                &&& b.spec_output_buffer() == a.spec_output_buffer()
                &&& b.inbox_view() == a.inbox_view().drop_first()
                &&& b.output_view() == a.output_view().push(a.inbox_view()[0])
            },
            _ => false,
        }
    }

    /// One hand-off of an isolated inbox's drain; the other policies have
    /// nothing to drain.
    pub fn drain_step(&mut self) -> (moved: bool)
        requires
            old(self).wf(),
        ensures
            final(self).wf(),
            moved == old(self).can_drain(),
            !moved ==> old(self).same_as(final(self)),
            moved ==> old(self).drained(final(self)),
    {
        match self {
            RouteInbox::Isolated(f) => f.drain_step(),
            _ => false,
        }
    }

    /// Takes out the oldest readable item, if there is one.
    pub fn try_recv(&mut self) -> (r: Option<T>)
        requires
            old(self).wf(),
        ensures
            final(self).wf(),
            old(self).readable().len() == 0 ==> r == None::<T> && old(self).same_as(final(self)),
            old(self).readable().len() > 0 ==> r == Some(old(self).readable()[0])
                && old(self).taken(final(self)),
    {
        match self {
            RouteInbox::Latest1(q) => q.try_recv(),
            RouteInbox::FifoDropOldest(q) => q.try_recv(),
            RouteInbox::Isolated(f) => f.try_recv(),
        }
    }
}

/// A publish never waits on an isolated subscriber: however full its output
/// channel is, whether an offer is taken depends on the inbox alone (it is
/// taken exactly when the inbox is below its fixed capacity), and the output
/// channel the subscriber reads is left as it was.
pub proof fn lemma_isolated_delivery_ignores_reader<T>(a: RouteInbox<T>, b: RouteInbox<T>, v: T)
    requires
        a is Isolated,
        a.delivered(&b, v),
    ensures
        match (a, b) {
            (RouteInbox::Isolated(x), RouteInbox::Isolated(y)) => {
                &&& y.output_view() == x.output_view()
                &&& a.accepts() == (x.inbox_view().len() < INBOX_CAPACITY)
                &&& y.inbox_view() == if a.accepts() {
                    x.inbox_view().push(v)
                } else {
                    x.inbox_view()
                }
            },
            _ => false,
        },
{
}

/// One subscriber's binding to an event type: which inbox of the bus it reads.
pub struct Route {
    pub subscriber_id: String,
    pub inbox: usize,
}

/// All routes of one event-type tag, in declaration order.
pub struct RouteEntry {
    pub event_type: String,
    pub routes: Vec<Route>,
}

/// The routing table, built once and read-only afterwards.
pub struct Routes {
    pub table: Vec<RouteEntry>,
}

impl Routes {
    /// Tags are unique, every route names one of `n` inboxes, and no inbox is
    /// named by two routes.
    pub open spec fn wf(&self, n: nat) -> bool {
        &&& forall|a: int, b: int|
            0 <= a < b < self.table@.len() ==> self.table@[a].event_type@
                != self.table@[b].event_type@
        &&& forall|k: int, m: int|
            0 <= k < self.table@.len() && 0 <= m < self.table@[k].routes@.len()
                ==> self.table@[k].routes@[m].inbox < n
        &&& forall|k1: int, m1: int, k2: int, m2: int|
            0 <= k1 < self.table@.len() && 0 <= m1 < self.table@[k1].routes@.len() && 0 <= k2
                < self.table@.len() && 0 <= m2 < self.table@[k2].routes@.len() && (k1 != k2 || m1
                != m2) ==> self.table@[k1].routes@[m1].inbox != self.table@[k2].routes@[m2].inbox
    }

    /// Whether some entry carries this tag.
    pub open spec fn has_tag(&self, tag: Seq<char>) -> bool {
        exists|k: int| 0 <= k < self.table@.len() && self.table@[k].event_type@ == tag
    }

    /// Whether one of the first `m` routes of entry `k` names inbox `i`.
    pub open spec fn targets_within(&self, k: int, m: int, i: int) -> bool {
        exists|j: int| 0 <= j < m && #[trigger] self.table@[k].routes@[j].inbox == i
    }

    /// Whether a route of entry `k` names inbox `i`.
    pub open spec fn targets(&self, k: int, i: int) -> bool {
        self.targets_within(k, self.table@[k].routes@.len() as int, i)
    }

    /// Whether some route of the entry tagged `tag` belongs to subscriber `id`
    /// and names inbox `i`.
    pub open spec fn routed(&self, tag: Seq<char>, id: Seq<char>, i: int) -> bool {
        exists|k: int, m: int|
            0 <= k < self.table@.len() && 0 <= m < self.table@[k].routes@.len()
                && #[trigger] self.table@[k].routes@[m].inbox == i && self.table@[k].event_type@ == tag
                && self.table@[k].routes@[m].subscriber_id@ == id
    }

    /// An empty table.
    pub fn new() -> (r: Self)
        ensures
            r.wf(0),
            r.table@.len() == 0,
    {
        Routes { table: Vec::new() }
    }

    /// Adds a route of `subscriber_id` for `event_type` to the new inbox `n`,
    /// at the end of that tag's entry (a new entry for a new tag).
    pub fn add_route(&mut self, event_type: &String, subscriber_id: &String, n: usize)
        requires
            old(self).wf(n as nat),
        ensures
            final(self).wf(n as nat + 1),
            forall|t: Seq<char>, id: Seq<char>, i: int|
                #[trigger] final(self).routed(t, id, i) <==> (old(self).routed(t, id, i) || (t
                    == event_type@ && id == subscriber_id@ && i == n)),
    {
        let route = Route { subscriber_id: subscriber_id.clone(), inbox: n };
        let ghost before = *self;
        match self.find(event_type) {
            Some(k) => {
                let ghost len0 = self.table@[k as int].routes@.len();
                self.table[k].routes.push(route);
                proof {
                    assert forall|a: int| 0 <= a < self.table@.len() && a != k implies self.table@[a]
                        == before.table@[a] by {}
                    assert forall|m: int| 0 <= m < len0 implies self.table@[k as int].routes@[m]
                        == before.table@[k as int].routes@[m] by {}
                    assert(self.table@[k as int].routes@[len0 as int] == route);
                    assert forall|t: Seq<char>, id: Seq<char>, i: int| #[trigger] self.routed(t, id, i) <==> (
                    before.routed(t, id, i) || (t == event_type@ && id == subscriber_id@ && i == n)) by {
                        if self.routed(t, id, i) {
                            let (k2, m2) = choose|k2: int, m2: int|
                                0 <= k2 < self.table@.len() && 0 <= m2 < self.table@[k2].routes@.len()
                                    && #[trigger] self.table@[k2].routes@[m2].inbox == i
                                    && self.table@[k2].event_type@ == t
                                    && self.table@[k2].routes@[m2].subscriber_id@ == id;
                            if !(k2 == k && m2 == len0) {
                                assert(before.table@[k2].routes@[m2].inbox == i);
                            }
                        }
                        if before.routed(t, id, i) {
                            let (k2, m2) = choose|k2: int, m2: int|
                                0 <= k2 < before.table@.len() && 0 <= m2 < before.table@[k2].routes@.len()
                                    && #[trigger] before.table@[k2].routes@[m2].inbox == i
                                    && before.table@[k2].event_type@ == t
                                    && before.table@[k2].routes@[m2].subscriber_id@ == id;
                            assert(self.table@[k2].routes@[m2].inbox == i);
                        }
                        if t == event_type@ && id == subscriber_id@ && i == n {
                            assert(self.table@[k as int].routes@[len0 as int].inbox == i);
                        }
                    }
                    assert forall|k1: int, m1: int, k2: int, m2: int|
                        0 <= k1 < self.table@.len() && 0 <= m1 < self.table@[k1].routes@.len() && 0 <= k2
                            < self.table@.len() && 0 <= m2 < self.table@[k2].routes@.len() && (k1 != k2 || m1
                            != m2) implies self.table@[k1].routes@[m1].inbox != self.table@[k2].routes@[m2].inbox by {
                        if !(k1 == k && m1 == len0) && !(k2 == k && m2 == len0) {
                            assert(before.table@[k1].routes@[m1].inbox != before.table@[k2].routes@[m2].inbox);
                        } else if !(k1 == k && m1 == len0) {
                            assert(before.table@[k1].routes@[m1].inbox < n);
                        } else if !(k2 == k && m2 == len0) {
                            assert(before.table@[k2].routes@[m2].inbox < n);
                        }
                    }
                }
            },
            None => {
                let mut routes: Vec<Route> = Vec::new();
                routes.push(route);
                let entry = RouteEntry { event_type: event_type.clone(), routes };
                self.table.push(entry);
                proof {
                    let len0 = before.table@.len() as int;
                    assert forall|a: int| 0 <= a < len0 implies self.table@[a] == before.table@[a] by {}
                    assert forall|t: Seq<char>, id: Seq<char>, i: int| #[trigger] self.routed(t, id, i) <==> (
                    before.routed(t, id, i) || (t == event_type@ && id == subscriber_id@ && i == n)) by {
                        if self.routed(t, id, i) {
                            let (k2, m2) = choose|k2: int, m2: int|
                                0 <= k2 < self.table@.len() && 0 <= m2 < self.table@[k2].routes@.len()
                                    && #[trigger] self.table@[k2].routes@[m2].inbox == i
                                    && self.table@[k2].event_type@ == t
                                    && self.table@[k2].routes@[m2].subscriber_id@ == id;
                            if k2 != len0 {
                                assert(before.table@[k2].routes@[m2].inbox == i);
                            }
                        }
                        if before.routed(t, id, i) {
                            let (k2, m2) = choose|k2: int, m2: int|
                                0 <= k2 < before.table@.len() && 0 <= m2 < before.table@[k2].routes@.len()
                                    && #[trigger] before.table@[k2].routes@[m2].inbox == i
                                    && before.table@[k2].event_type@ == t
                                    && before.table@[k2].routes@[m2].subscriber_id@ == id;
                            assert(self.table@[k2].routes@[m2].inbox == i);
                        }
                        if t == event_type@ && id == subscriber_id@ && i == n {
                            assert(self.table@[len0].routes@[0].inbox == i);
                        }
                    }
                    assert forall|k1: int, m1: int, k2: int, m2: int|
                        0 <= k1 < self.table@.len() && 0 <= m1 < self.table@[k1].routes@.len() && 0 <= k2
                            < self.table@.len() && 0 <= m2 < self.table@[k2].routes@.len() && (k1 != k2 || m1
                            != m2) implies self.table@[k1].routes@[m1].inbox != self.table@[k2].routes@[m2].inbox by {
                        if k1 != len0 && k2 != len0 {
                            assert(before.table@[k1].routes@[m1].inbox != before.table@[k2].routes@[m2].inbox);
                        } else if k1 != len0 {
                            assert(before.table@[k1].routes@[m1].inbox < n);
                        } else if k2 != len0 {
                            assert(before.table@[k2].routes@[m2].inbox < n);
                        }
                    }
                    assert forall|a: int, b: int| 0 <= a < b < self.table@.len() implies self.table@[a].event_type@
                        != self.table@[b].event_type@ by {
                        if b == len0 {
                            assert(before.table@[a].event_type@ != event_type@);
                        }
                    }
                }
            },
        }
    }

    /// The entry for a tag, if any.
    pub fn find(&self, tag: &String) -> (r: Option<usize>)
        ensures
            match r {
                Some(k) => k < self.table@.len() && self.table@[k as int].event_type@ == tag@,
                None => !self.has_tag(tag@),
            },
    {
        let mut k: usize = 0;
        while k < self.table.len()
            invariant
                k <= self.table@.len(),
                forall|j: int| 0 <= j < k ==> self.table@[j].event_type@ != tag@,
            decreases self.table@.len() - k,
        {
            if self.table[k].event_type == *tag {
                return Some(k);
            }
            k += 1;
        }
        None
    }
}

} // verus!
