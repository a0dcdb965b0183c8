//! Each subscriber's input multiplexer: latest-slot inputs first, as one
//! batch, then the FIFO-class inputs in round-robin order.
use crate::bus::EventBus;
use crate::event::EnrichedEvent;
use crate::routes::RouteInbox;
use std::sync::Arc;
use vstd::prelude::*;

verus! {

/// A latest-slot input of a subscriber: its tag and the bus inbox behind it.
pub struct Latest1Input {
    pub event_type: String,
    pub inbox: usize,
}

/// A FIFO-class input (drop-oldest or isolated) of a subscriber.
pub struct FifoInput {
    pub event_type: String,
    pub inbox: usize,
}

/// One superseding value read from a latest-slot input.
pub struct SnapshotUpdate<P> {
    pub event_type: String,
    pub event: Arc<EnrichedEvent<P>>,
}

/// What one call of `next` hands the subscriber.
pub enum WorkerBatch<P> {
    /// Every latest-slot input that had a value, in declaration order.
    Snapshots(Vec<SnapshotUpdate<P>>),
    /// One item of the FIFO-class input at position `input`.
    FifoItem { input: usize, event_type: String, event: Arc<EnrichedEvent<P>> },
}

/// Whether inbox `i` exists and has something to read.
pub open spec fn pending<T>(inboxes: Seq<RouteInbox<T>>, i: int) -> bool {
    0 <= i < inboxes.len() && inboxes[i].readable().len() > 0
}

/// How many round-robin steps it takes from cursor `c` to reach position `j`
/// of a ring of `k` inputs.
pub open spec fn ring_dist(c: int, j: int, k: int) -> int {
    if j >= c {
        j - c
    } else {
        j - c + k
    }
}

/// The position `t` steps after cursor `c` on a ring of `k`.
pub open spec fn ring_pos(c: int, t: int, k: int) -> int {
    if c + t < k {
        c + t
    } else {
        c + t - k
    }
}

/// Tag and oldest readable item of each latest-slot input that has one, in order.
pub open spec fn pending_fronts<T>(inboxes: Seq<RouteInbox<T>>, latest: Seq<Latest1Input>) -> Seq<
    (Seq<char>, T),
>
    decreases latest.len(),
{
    if latest.len() == 0 {
        Seq::empty()
    } else {
        let rest = pending_fronts(inboxes, latest.drop_last());
        let l = latest.last();
        if pending(inboxes, l.inbox as int) {
            rest.push((l.event_type@, inboxes[l.inbox as int].readable()[0]))
        } else {
            rest
        }
    }
}

/// A snapshot batch as (tag, item) pairs.
pub open spec fn snapshot_view<P>(b: Seq<SnapshotUpdate<P>>) -> Seq<(Seq<char>, Arc<EnrichedEvent<P>>)>
    decreases b.len(),
{
    if b.len() == 0 {
        Seq::empty()
    } else {
        snapshot_view(b.drop_last()).push((b.last().event_type@, b.last().event))
    }
}

/// Whether one of the first `m` latest-slot inputs reads inbox `i`.
pub open spec fn latest_reads(latest: Seq<Latest1Input>, m: int, i: int) -> bool {
    exists|j: int| 0 <= j < m && #[trigger] latest[j].inbox == i
}

proof fn lemma_pending_fronts_empty<T>(inboxes: Seq<RouteInbox<T>>, latest: Seq<Latest1Input>)
    ensures
        pending_fronts(inboxes, latest).len() == 0 <==> forall|m: int|
            0 <= m < latest.len() ==> !pending(inboxes, #[trigger] latest[m].inbox as int),
    decreases latest.len(),
{
    if latest.len() > 0 {
        lemma_pending_fronts_empty(inboxes, latest.drop_last());
        assert forall|m: int| 0 <= m < latest.len() - 1 implies latest.drop_last()[m] == latest[m] by {}
    }
}

/// A subscriber's inputs and its round-robin cursor.
pub struct WorkerInputs {
    latest: Vec<Latest1Input>,
    fifos: Vec<FifoInput>,
    fifo_index: usize,
}

impl WorkerInputs {
    pub closed spec fn spec_latest(&self) -> Seq<Latest1Input> {
        self.latest@
    }

    pub closed spec fn spec_fifos(&self) -> Seq<FifoInput> {
        self.fifos@
    }

    pub closed spec fn cursor(&self) -> int {
        self.fifo_index as int
    }

    /// No two inputs read the same inbox, and the cursor is on the ring.
    pub open spec fn distinct_inboxes(latest: Seq<Latest1Input>, fifos: Seq<FifoInput>) -> bool {
        &&& forall|a: int, b: int|
            0 <= a < latest.len() && 0 <= b < latest.len() && a != b ==> latest[a].inbox
                != latest[b].inbox
        &&& forall|a: int, b: int|
            0 <= a < fifos.len() && 0 <= b < fifos.len() && a != b ==> fifos[a].inbox
                != fifos[b].inbox
        &&& forall|a: int, b: int|
            0 <= a < latest.len() && 0 <= b < fifos.len() ==> latest[a].inbox != fifos[b].inbox
    }

    pub open spec fn wf(&self) -> bool {
        &&& Self::distinct_inboxes(self.spec_latest(), self.spec_fifos())
        &&& if self.spec_fifos().len() == 0 {
            self.cursor() == 0
        } else {
            0 <= self.cursor() < self.spec_fifos().len()
        }
    }

    pub fn new(latest: Vec<Latest1Input>, fifos: Vec<FifoInput>) -> (r: Self)
        requires
            Self::distinct_inboxes(latest@, fifos@),
        ensures
            r.wf(),
            r.spec_latest() == latest@,
            r.spec_fifos() == fifos@,
            r.cursor() == 0,
    {
        WorkerInputs { latest, fifos, fifo_index: 0 }
    }

    pub fn latest(&self) -> (r: &Vec<Latest1Input>)
        ensures
            r@ == self.spec_latest(),
    {
        &self.latest
    }

    pub fn fifos(&self) -> (r: &Vec<FifoInput>)
        ensures
            r@ == self.spec_fifos(),
    {
        &self.fifos
    }

    pub fn fifo_index(&self) -> (r: usize)
        ensures
            r == self.cursor(),
    {
        self.fifo_index
    }

    /// The next batch for this subscriber, without waiting. Every latest-slot
    /// input holding a value is read and the values come back together.
    /// Otherwise the FIFO-class inputs are scanned from the cursor, one
    /// position per step, and the first that has an item gives it up; the
    /// cursor is left just past it. `None` means nothing is pending: the
    /// caller waits for a delivery and asks again.
    pub fn next<P>(&mut self, bus: &mut EventBus<P>) -> (r: Option<WorkerBatch<P>>)
        requires
            old(self).wf(),
            old(bus).wf(),
        ensures
            final(self).wf(),
            final(self).spec_latest() == old(self).spec_latest(),
            final(self).spec_fifos() == old(self).spec_fifos(),
            final(bus).wf(),
            final(bus).same_wiring(old(bus)),
            final(bus).spec_next_seq() == old(bus).spec_next_seq(),
            final(bus).spec_unrouted() == old(bus).spec_unrouted(),
            final(bus).spec_drops() == old(bus).spec_drops(),
            ({
                let inb0 = old(bus).spec_inboxes();
                let inb1 = final(bus).spec_inboxes();
                let lat = old(self).spec_latest();
                let fif = old(self).spec_fifos();
                let k = fif.len() as int;
                let c = old(self).cursor();
                let any_latest = exists|m: int|
                    0 <= m < lat.len() && pending(inb0, #[trigger] lat[m].inbox as int);
                let any_fifo = exists|j: int|
                    0 <= j < k && pending(inb0, #[trigger] fif[j].inbox as int);
                &&& any_latest ==> {
                    &&& r matches Some(WorkerBatch::Snapshots(b)) && snapshot_view(b@)
                        == pending_fronts(inb0, lat)
                    &&& forall|i: int|
                        0 <= i < inb0.len() ==> if latest_reads(lat, lat.len() as int, i) && pending(
                            inb0,
                            i,
                        ) {
                            inb0[i].taken(&inb1[i])
                        } else {
                            inb1[i] == inb0[i]
                        }
                    &&& final(self).cursor() == c
                }
                &&& !any_latest && any_fifo ==> {
                    &&& r matches Some(WorkerBatch::FifoItem { input: j, event_type, event }) && {
                        let i = fif[j as int].inbox as int;
                        &&& j < k
                        &&& pending(inb0, i)
                        &&& event == inb0[i].readable()[0]
                        &&& event_type@ == fif[j as int].event_type@
                        &&& inb0[i].taken(&inb1[i])
                        &&& forall|i2: int| 0 <= i2 < inb0.len() && i2 != i ==> inb1[i2] == inb0[i2]
                        &&& forall|j2: int|
                            0 <= j2 < k && ring_dist(c, j2, k) < ring_dist(c, j as int, k) ==> !pending(
                                inb0,
                                #[trigger] fif[j2].inbox as int,
                            )
                        &&& final(self).cursor() == if j + 1 < k {
                            j + 1
                        } else {
                            0
                        }
                    }
                }
                &&& !any_latest && !any_fifo ==> {
                    &&& r is None
                    &&& inb1 == inb0
                    &&& final(self).cursor() == c
                }
            }),
    {
        let ghost b0 = *bus;
        let ghost lat = self.latest@;
        let mut snaps: Vec<SnapshotUpdate<P>> = Vec::new();
        let mut m: usize = 0;
        while m < self.latest.len()
            invariant
                self.wf(),
                self.latest@ == lat,
                lat == old(self).latest@,
                self.fifos@ == old(self).fifos@,
                self.fifo_index == old(self).fifo_index,
                b0 == *old(bus),
                m <= lat.len(),
                bus.wf(),
                bus.same_wiring(&b0),
                bus.spec_next_seq() == b0.spec_next_seq(),
                bus.spec_unrouted() == b0.spec_unrouted(),
                bus.spec_drops() == b0.spec_drops(),
                snapshot_view(snaps@) == pending_fronts(b0.spec_inboxes(), lat.take(m as int)),
                forall|i: int|
                    #![trigger bus.spec_inboxes()[i]]
                    0 <= i < b0.spec_inboxes().len() ==> if latest_reads(lat, m as int, i)
                        && pending(b0.spec_inboxes(), i) {
                        b0.spec_inboxes()[i].taken(&bus.spec_inboxes()[i])
                    } else {
                        bus.spec_inboxes()[i] == b0.spec_inboxes()[i]
                    },
            decreases lat.len() - m,
        {
            let ghost before = *bus;
            let ghost snaps0 = snaps@;
            let idx = self.latest[m].inbox;
            proof {
                assert forall|j: int| 0 <= j < m implies lat[j].inbox != idx by {
                    assert(lat[j].inbox != lat[m as int].inbox);
                }
                assert(!latest_reads(lat, m as int, idx as int));
                assert(lat.take(m as int + 1).drop_last() =~= lat.take(m as int));
                assert(lat.take(m as int + 1).last() == lat[m as int]);
            }
            if bus.has_pending(idx) {
                let got = bus.try_recv(idx);
                match got {
                    Some(e) => {
                        let u = SnapshotUpdate { event_type: self.latest[m].event_type.clone(), event: e };
                        snaps.push(u);
                        proof {
                            assert(snaps@.drop_last() =~= snaps0);
                        }
                    },
                    None => {},
                }
            }
            proof {
                assert forall|i: int| 0 <= i < b0.spec_inboxes().len() implies latest_reads(lat, m + 1, i)
                    == (latest_reads(lat, m as int, i) || i == idx) by {
                    if latest_reads(lat, m + 1, i) {
                        let j = choose|j: int| 0 <= j < m + 1 && #[trigger] lat[j].inbox == i;
                        if j < m {
                            assert(latest_reads(lat, m as int, i));
                        }
                    }
                    if i == idx {
                        assert(lat[m as int].inbox == i);
                    }
                }
            }
            m += 1;
        }
        proof {
            assert(lat.take(lat.len() as int) =~= lat);
            lemma_pending_fronts_empty(b0.spec_inboxes(), lat);
        }
        if snaps.len() > 0 {
            return Some(WorkerBatch::Snapshots(snaps));
        }
        proof {
            assert(snapshot_view(snaps@) =~= Seq::<(Seq<char>, Arc<EnrichedEvent<P>>)>::empty());
            assert forall|i: int| 0 <= i < b0.spec_inboxes().len() implies bus.spec_inboxes()[i]
                == b0.spec_inboxes()[i] by {
                if latest_reads(lat, lat.len() as int, i) && pending(b0.spec_inboxes(), i) {
                    let j = choose|j: int| 0 <= j < lat.len() && #[trigger] lat[j].inbox == i;
                    assert(pending(b0.spec_inboxes(), lat[j].inbox as int));
                }
            }
            assert(bus.spec_inboxes() =~= b0.spec_inboxes());
            assert(forall|m2: int| 0 <= m2 < lat.len() ==> !pending(b0.spec_inboxes(), #[trigger] lat[m2].inbox as int));
        }
        let k = self.fifos.len();
        if k == 0 {
            return None;
        }
        let c = self.fifo_index;
        let mut t: usize = 0;
        while t < k
            invariant
                self.wf(),
                self.latest@ == lat,
                self.fifos@ == old(self).fifos@,
                self.fifo_index == c,
                c == old(self).fifo_index,
                lat == old(self).latest@,
                forall|m2: int| 0 <= m2 < lat.len() ==> !pending(b0.spec_inboxes(), #[trigger] lat[m2].inbox as int),
                k == self.fifos@.len(),
                c < k,
                t <= k,
                b0 == *old(bus),
                bus.wf(),
                bus.same_wiring(&b0),
                bus.spec_next_seq() == b0.spec_next_seq(),
                bus.spec_unrouted() == b0.spec_unrouted(),
                bus.spec_drops() == b0.spec_drops(),
                bus.spec_inboxes() == b0.spec_inboxes(),
                forall|t2: int|
                    0 <= t2 < t ==> !pending(
                        b0.spec_inboxes(),
                        #[trigger] self.fifos@[ring_pos(c as int, t2, k as int)].inbox as int,
                    ),
            decreases k - t,
        {
            let j = if t < k - c {
                c + t
            } else {
                t - (k - c)
            };
            let idx = self.fifos[j].inbox;
            if bus.has_pending(idx) {
                let got = bus.try_recv(idx);
                match got {
                    Some(e) => {
                        self.fifo_index = if j + 1 < k {
                            j + 1
                        } else {
                            0
                        };
                        proof {
                            let fif = self.fifos@;
                            assert forall|j2: int|
                                0 <= j2 < k && ring_dist(c as int, j2, k as int) < ring_dist(
                                    c as int,
                                    j as int,
                                    k as int,
                                ) implies !pending(b0.spec_inboxes(), #[trigger] fif[j2].inbox as int) by {
                                let t2 = ring_dist(c as int, j2, k as int);
                                assert(ring_pos(c as int, t2, k as int) == j2);
                            }
                        }
                        return Some(
                            WorkerBatch::FifoItem {
                                input: j,
                                event_type: self.fifos[j].event_type.clone(),
                                event: e,
                            },
                        );
                    },
                    None => {},
                }
            }
            t += 1;
        }
        proof {
            let fif = self.fifos@;
            assert forall|j2: int| 0 <= j2 < k implies !pending(b0.spec_inboxes(), #[trigger] fif[j2].inbox as int) by {
                let t2 = ring_dist(c as int, j2, k as int);
                assert(ring_pos(c as int, t2, k as int) == j2);
            }
        }
        None
    }
}

/// Round-robin fairness over consecutive calls of `next`. Let `cursors[t]`
/// be the cursor before call `t` and `served[t]` the FIFO-class position that
/// call served. When position `i` had an item pending at every one of these
/// calls, each call served a position no farther from its cursor than `i`
/// (the ensures of `next`). If none of them served `i`, there were fewer than
/// `k` of them: a pending input waits at most `k - 1` calls.
pub proof fn lemma_round_robin_serves_within_k(k: int, cursors: Seq<int>, served: Seq<int>, i: int)
    requires
        k > 0,
        0 <= i < k,
        cursors.len() == served.len() + 1,
        forall|t: int| 0 <= t < cursors.len() ==> 0 <= #[trigger] cursors[t] < k,
        forall|t: int|
            0 <= t < served.len() ==> {
                &&& 0 <= #[trigger] served[t] < k
                &&& served[t] != i
                &&& ring_dist(cursors[t], served[t], k) <= ring_dist(cursors[t], i, k)
                &&& cursors[t + 1] == if served[t] + 1 < k {
                    served[t] + 1
                } else {
                    0
                }
            },
    ensures
        served.len() < k,
{
    lemma_ring_dist_shrinks(k, cursors, served, i);
}

proof fn lemma_ring_dist_shrinks(k: int, cursors: Seq<int>, served: Seq<int>, i: int)
    requires
        k > 0,
        0 <= i < k,
        cursors.len() == served.len() + 1,
        forall|t: int| 0 <= t < cursors.len() ==> 0 <= #[trigger] cursors[t] < k,
        forall|t: int|
            0 <= t < served.len() ==> {
                &&& 0 <= #[trigger] served[t] < k
                &&& served[t] != i
                &&& ring_dist(cursors[t], served[t], k) <= ring_dist(cursors[t], i, k)
                &&& cursors[t + 1] == if served[t] + 1 < k {
                    served[t] + 1
                } else {
                    0
                }
            },
    ensures
        ring_dist(cursors.last(), i, k) <= k - 1 - served.len(),
    decreases served.len(),
{
    if served.len() > 0 {
        let n = served.len() - 1;
        let c2 = cursors.drop_last();
        let s2 = served.drop_last();
        assert forall|t: int| 0 <= t < c2.len() implies 0 <= #[trigger] c2[t] < k by {
            assert(c2[t] == cursors[t]);
        }
        assert forall|t: int| 0 <= t < s2.len() implies {
            &&& 0 <= #[trigger] s2[t] < k
            &&& s2[t] != i
            &&& ring_dist(c2[t], s2[t], k) <= ring_dist(c2[t], i, k)
            &&& c2[t + 1] == if s2[t] + 1 < k {
                s2[t] + 1
            } else {
                0
            }
        } by {
            assert(s2[t] == served[t]);
            assert(c2[t] == cursors[t]);
            assert(c2[t + 1] == cursors[t + 1]);
        }
        lemma_ring_dist_shrinks(k, c2, s2, i);
        assert(c2.last() == cursors[n]);
        assert(0 <= served[n] < k);
        assert(0 <= cursors[n] < k);
    }
}

} // verus!
