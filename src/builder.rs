//! Subscription declarations, their validation, and the construction of a
//! bus with its per-subscriber inputs.
use crate::bus::{BusConfig, EventBus};
use crate::event::EnrichedEvent;
use crate::inputs::{FifoInput, Latest1Input, WorkerInputs};
use crate::queues::{FifoDropOldestQueue, IsolatedForwarder, Latest1Queue};
use crate::routes::{RouteInbox, Routes};
use std::sync::Arc;
use vstd::prelude::*;

verus! {

/// Text of `s` without leading and trailing whitespace, as `str::trim` gives it.
pub uninterp spec fn trimmed(s: Seq<char>) -> Seq<char>;

/// Relies on str::trim: the text without its leading and trailing
/// whitespace; an empty text stays empty.
#[verifier::external_body]
fn trim(s: &str) -> (r: &str)
    ensures
        r@ == trimmed(s@),
        s@.len() == 0 ==> r@.len() == 0,
{
    s.trim()
}

/// Empty, or whitespace only.
pub open spec fn blank(s: Seq<char>) -> bool {
    trimmed(s).len() == 0
}

fn is_blank(s: &String) -> (r: bool)
    ensures
        r == blank(s@),
{
    trim(s.as_str()).is_empty()
}

/// The delivery policy of one subscription.
#[derive(Clone, Copy, Debug, PartialEq, Eq, Structural)]
pub enum QueueKind {
    Latest1,
    FifoDropOldest { capacity: usize },
    /// Declared, but not offered: a declaration of it is refused at build time.
    BoundedDropNewest { capacity: usize },
    Isolated { output_buffer: usize },
}

/// One input of a subscriber: an event type and the policy it is read under.
pub struct InputSpec {
    pub event_type: String,
    pub queue_kind: QueueKind,
}

/// A subscriber's identity and its inputs.
pub struct SubscriptionSpec {
    pub subscriber_id: String,
    pub inputs: Vec<InputSpec>,
}

/// Why a set of declarations was refused; `subscriber` is the position of
/// the declaration and `input` that of the input within it.
#[derive(Clone, Copy, Debug, PartialEq, Eq, Structural)]
pub enum BuildError {
    EmptySubscriberId { subscriber: usize },
    DuplicateSubscriberId { subscriber: usize },
    NoInputs { subscriber: usize },
    EmptyEventType { subscriber: usize, input: usize },
    DuplicateInput { subscriber: usize, input: usize },
    ZeroCapacity { subscriber: usize, input: usize },
    UnsupportedQueueKind { subscriber: usize, input: usize },
}

pub open spec fn kind_error(kind: QueueKind, s: usize, j: usize) -> Option<BuildError> {
    match kind {
        QueueKind::Latest1 => None,
        QueueKind::FifoDropOldest { capacity } => if capacity == 0 {
            Some(BuildError::ZeroCapacity { subscriber: s, input: j })
        } else {
            None
        },
        QueueKind::BoundedDropNewest { capacity } => if capacity == 0 {
            Some(BuildError::ZeroCapacity { subscriber: s, input: j })
        } else {
            Some(BuildError::UnsupportedQueueKind { subscriber: s, input: j })
        },
        QueueKind::Isolated { output_buffer } => if output_buffer == 0 {
            Some(BuildError::ZeroCapacity { subscriber: s, input: j })
        } else {
            None
        },
    }
}

/// The fault of input `j` of declaration `s`, if any: a blank tag, a tag
/// already declared by an earlier input, or a bad policy.
pub open spec fn input_error(sub: SubscriptionSpec, s: usize, j: int) -> Option<BuildError> {
    let inp = sub.inputs@[j];
    if blank(inp.event_type@) {
        Some(BuildError::EmptyEventType { subscriber: s, input: j as usize })
    } else if exists|j2: int| 0 <= j2 < j && sub.inputs@[j2].event_type@ == inp.event_type@ {
        Some(BuildError::DuplicateInput { subscriber: s, input: j as usize })
    } else {
        kind_error(inp.queue_kind, s, j as usize)
    }
}

/// The first fault among the first `n` inputs of a declaration.
pub open spec fn first_input_error(sub: SubscriptionSpec, s: usize, n: int) -> Option<BuildError>
    decreases n,
{
    if n <= 0 {
        None
    } else {
        match first_input_error(sub, s, n - 1) {
            Some(e) => Some(e),
            None => input_error(sub, s, n - 1),
        }
    }
}

/// The fault of declaration `s`, if any, in the order the checks are made.
pub open spec fn subscription_error(subs: Seq<SubscriptionSpec>, s: int) -> Option<BuildError> {
    let sub = subs[s];
    if blank(sub.subscriber_id@) {
        Some(BuildError::EmptySubscriberId { subscriber: s as usize })
    } else if exists|s2: int| 0 <= s2 < s && subs[s2].subscriber_id@ == sub.subscriber_id@ {
        Some(BuildError::DuplicateSubscriberId { subscriber: s as usize })
    } else if sub.inputs@.len() == 0 {
        Some(BuildError::NoInputs { subscriber: s as usize })
    } else {
        first_input_error(sub, s as usize, sub.inputs@.len() as int)
    }
}

/// The first fault among the first `n` declarations.
pub open spec fn first_error(subs: Seq<SubscriptionSpec>, n: int) -> Option<BuildError>
    decreases n,
{
    if n <= 0 {
        None
    } else {
        match first_error(subs, n - 1) {
            Some(e) => Some(e),
            None => subscription_error(subs, n - 1),
        }
    }
}

/// The declarations are accepted.
pub open spec fn valid(subs: Seq<SubscriptionSpec>) -> bool {
    first_error(subs, subs.len() as int) is None
}

proof fn lemma_first_input_error_stable(sub: SubscriptionSpec, s: usize, a: int, b: int)
    requires
        0 <= a <= b,
        first_input_error(sub, s, a) is Some,
    ensures
        first_input_error(sub, s, b) == first_input_error(sub, s, a),
    decreases b - a,
{
    if a < b {
        lemma_first_input_error_stable(sub, s, a, b - 1);
    }
}

proof fn lemma_first_error_stable(subs: Seq<SubscriptionSpec>, a: int, b: int)
    requires
        0 <= a <= b,
        first_error(subs, a) is Some,
    ensures
        first_error(subs, b) == first_error(subs, a),
    decreases b - a,
{
    if a < b {
        lemma_first_error_stable(subs, a, b - 1);
    }
}

fn check_input(sub: &SubscriptionSpec, s: usize, j: usize) -> (r: Option<BuildError>)
    requires
        j < sub.inputs@.len(),
    ensures
        r == input_error(*sub, s, j as int),
{
    let inp = &sub.inputs[j];
    if is_blank(&inp.event_type) {
        return Some(BuildError::EmptyEventType { subscriber: s, input: j });
    }
    let mut j2: usize = 0;
    while j2 < j
        invariant
            j < sub.inputs@.len(),
            j2 <= j,
            inp == sub.inputs@[j as int],
            !blank(inp.event_type@),
            forall|a: int| 0 <= a < j2 ==> sub.inputs@[a].event_type@ != inp.event_type@,
        decreases j - j2,
    {
        if sub.inputs[j2].event_type == inp.event_type {
            assert(sub.inputs@[j2 as int].event_type@ == inp.event_type@);
            return Some(BuildError::DuplicateInput { subscriber: s, input: j });
        }
        j2 += 1;
    }
    match inp.queue_kind {
        QueueKind::Latest1 => None,
        QueueKind::FifoDropOldest { capacity } => if capacity == 0 {
            Some(BuildError::ZeroCapacity { subscriber: s, input: j })
        } else {
            None
        },
        QueueKind::BoundedDropNewest { capacity } => if capacity == 0 {
            Some(BuildError::ZeroCapacity { subscriber: s, input: j })
        } else {
            Some(BuildError::UnsupportedQueueKind { subscriber: s, input: j })
        },
        QueueKind::Isolated { output_buffer } => if output_buffer == 0 {
            Some(BuildError::ZeroCapacity { subscriber: s, input: j })
        } else {
            None
        },
    }
}

fn check_subscription(subs: &Vec<SubscriptionSpec>, s: usize) -> (r: Option<BuildError>)
    requires
        s < subs@.len(),
    ensures
        r == subscription_error(subs@, s as int),
{
    let sub = &subs[s];
    if is_blank(&sub.subscriber_id) {
        return Some(BuildError::EmptySubscriberId { subscriber: s });
    }
    let mut s2: usize = 0;
    while s2 < s
        invariant
            s < subs@.len(),
            s2 <= s,
            sub == subs@[s as int],
            !blank(sub.subscriber_id@),
            forall|a: int| 0 <= a < s2 ==> subs@[a].subscriber_id@ != sub.subscriber_id@,
        decreases s - s2,
    {
        if subs[s2].subscriber_id == sub.subscriber_id {
            assert(subs@[s2 as int].subscriber_id@ == sub.subscriber_id@);
            return Some(BuildError::DuplicateSubscriberId { subscriber: s });
        }
        s2 += 1;
    }
    if sub.inputs.len() == 0 {
        return Some(BuildError::NoInputs { subscriber: s });
    }
    let mut j: usize = 0;
    while j < sub.inputs.len()
        invariant
            s < subs@.len(),
            sub == subs@[s as int],
            j <= sub.inputs@.len(),
            !blank(sub.subscriber_id@),
            forall|a: int| 0 <= a < s ==> subs@[a].subscriber_id@ != sub.subscriber_id@,
            sub.inputs@.len() > 0,
            first_input_error(*sub, s, j as int) is None,
        decreases sub.inputs@.len() - j,
    {
        let e = check_input(sub, s, j);
        if e.is_some() {
            proof {
                lemma_first_input_error_stable(*sub, s, j as int + 1, sub.inputs@.len() as int);
            }
            return e;
        }
        j += 1;
    }
    None
}

/// Checks the declarations, in order, and reports the first fault.
pub fn validate(subs: &Vec<SubscriptionSpec>) -> (r: Result<(), BuildError>)
    ensures
        r == match first_error(subs@, subs@.len() as int) {
            None => Ok::<(), BuildError>(()),
            Some(e) => Err(e),
        },
{
    let mut s: usize = 0;
    while s < subs.len()
        invariant
            s <= subs@.len(),
            first_error(subs@, s as int) is None,
        decreases subs@.len() - s,
    {
        match check_subscription(subs, s) {
            Some(e) => {
                proof {
                    lemma_first_error_stable(subs@, s as int + 1, subs@.len() as int);
                }
                return Err(e);
            },
            None => {},
        }
        s += 1;
    }
    Ok(())
}

proof fn lemma_no_first_input_error(sub: SubscriptionSpec, s: usize, n: int)
    requires
        first_input_error(sub, s, n) is None,
    ensures
        forall|j: int| 0 <= j < n ==> #[trigger] input_error(sub, s, j) is None,
    decreases n,
{
    if n > 0 {
        lemma_no_first_input_error(sub, s, n - 1);
    }
}

proof fn lemma_no_first_error(subs: Seq<SubscriptionSpec>, n: int)
    requires
        first_error(subs, n) is None,
    ensures
        forall|s: int| 0 <= s < n ==> #[trigger] subscription_error(subs, s) is None,
    decreases n,
{
    if n > 0 {
        lemma_no_first_error(subs, n - 1);
    }
}

/// Number of inputs declared before declaration `s`: the first inbox of `s`.
pub open spec fn inputs_before(subs: Seq<SubscriptionSpec>, s: int) -> int
    decreases s,
{
    if s <= 0 {
        0
    } else {
        inputs_before(subs, s - 1) + subs[s - 1].inputs@.len()
    }
}

proof fn lemma_inputs_before_nonneg(subs: Seq<SubscriptionSpec>, s: int)
    ensures
        inputs_before(subs, s) >= 0,
    decreases s,
{
    if s > 0 {
        lemma_inputs_before_nonneg(subs, s - 1);
    }
}

proof fn lemma_inputs_before_mono(subs: Seq<SubscriptionSpec>, a: int, b: int)
    requires
        0 <= a < b,
    ensures
        inputs_before(subs, a) + subs[a].inputs@.len() <= inputs_before(subs, b),
    decreases b - a,
{
    if a + 1 < b {
        lemma_inputs_before_mono(subs, a, b - 1);
    }
}

/// An inbox as built for a declared policy: empty, with the declared bound.
pub open spec fn fresh_inbox<T>(inbox: RouteInbox<T>, kind: QueueKind) -> bool {
    match kind {
        QueueKind::Latest1 => inbox matches RouteInbox::Latest1(q) && q@ is None,
        QueueKind::FifoDropOldest { capacity } => inbox matches RouteInbox::FifoDropOldest(q)
            && q@.len() == 0 && q.spec_capacity() == capacity,
        QueueKind::Isolated { output_buffer } => inbox matches RouteInbox::Isolated(f)
            && f.inbox_view().len() == 0 && f.output_view().len() == 0 && f.spec_output_buffer()
            == output_buffer,
        QueueKind::BoundedDropNewest { .. } => false,
    }
}

pub open spec fn fifo_class(kind: QueueKind) -> bool {
    kind is FifoDropOldest || kind is Isolated
}

/// (tag, inbox) of each latest-slot input among the first `n` of `sub`, whose
/// inboxes start at `base`.
pub open spec fn latest_of(sub: SubscriptionSpec, base: int, n: int) -> Seq<(Seq<char>, int)>
    decreases n,
{
    if n <= 0 {
        Seq::empty()
    } else {
        let rest = latest_of(sub, base, n - 1);
        if sub.inputs@[n - 1].queue_kind is Latest1 {
            rest.push((sub.inputs@[n - 1].event_type@, base + n - 1))
        } else {
            rest
        }
    }
}

/// (tag, inbox) of each FIFO-class input among the first `n` of `sub`.
pub open spec fn fifos_of(sub: SubscriptionSpec, base: int, n: int) -> Seq<(Seq<char>, int)>
    decreases n,
{
    if n <= 0 {
        Seq::empty()
    } else {
        let rest = fifos_of(sub, base, n - 1);
        if fifo_class(sub.inputs@[n - 1].queue_kind) {
            rest.push((sub.inputs@[n - 1].event_type@, base + n - 1))
        } else {
            rest
        }
    }
}

/// Inboxes of the isolated inputs among the first `n` of `sub`.
pub open spec fn isolated_of(sub: SubscriptionSpec, base: int, n: int) -> Seq<int>
    decreases n,
{
    if n <= 0 {
        Seq::empty()
    } else {
        let rest = isolated_of(sub, base, n - 1);
        if sub.inputs@[n - 1].queue_kind is Isolated {
            rest.push(base + n - 1)
        } else {
            rest
        }
    }
}

/// Inboxes of the isolated inputs of the first `s` declarations.
pub open spec fn isolated_before(subs: Seq<SubscriptionSpec>, s: int) -> Seq<int>
    decreases s,
{
    if s <= 0 {
        Seq::empty()
    } else {
        isolated_before(subs, s - 1) + isolated_of(
            subs[s - 1],
            inputs_before(subs, s - 1),
            subs[s - 1].inputs@.len() as int,
        )
    }
}

pub open spec fn latest_view(l: Seq<Latest1Input>) -> Seq<(Seq<char>, int)>
    decreases l.len(),
{
    if l.len() == 0 {
        Seq::empty()
    } else {
        latest_view(l.drop_last()).push((l.last().event_type@, l.last().inbox as int))
    }
}

pub open spec fn fifos_view(l: Seq<FifoInput>) -> Seq<(Seq<char>, int)>
    decreases l.len(),
{
    if l.len() == 0 {
        Seq::empty()
    } else {
        fifos_view(l.drop_last()).push((l.last().event_type@, l.last().inbox as int))
    }
}

pub open spec fn index_view(l: Seq<usize>) -> Seq<int>
    decreases l.len(),
{
    if l.len() == 0 {
        Seq::empty()
    } else {
        index_view(l.drop_last()).push(l.last() as int)
    }
}

/// Whether input `j` of declaration `s` was declared before position
/// (`s1`, `j1`) and is tagged `t`, owned by `id`, and has inbox `i`.
pub open spec fn declared_at(subs: Seq<SubscriptionSpec>, s: int, j: int, s1: int, j1: int, t: Seq<char>, id: Seq<char>, i: int) -> bool {
    &&& 0 <= s < subs.len()
    &&& 0 <= j < subs[s].inputs@.len()
    &&& (s < s1 || (s == s1 && j < j1))
    &&& t == subs[s].inputs@[j].event_type@
    &&& id == subs[s].subscriber_id@
    &&& i == inputs_before(subs, s) + j
}

/// Background work to start before anything is published: the isolated
/// inboxes whose drain must run.
pub struct StartupTasks {
    pub drains: Vec<usize>,
}

/// One subscriber's identity and its inputs, until they are taken.
pub struct WiringEntry {
    pub subscriber_id: String,
    pub inputs: Option<WorkerInputs>,
}

/// Each subscriber's inputs, to be taken once.
pub struct WorkerWiring {
    entries: Vec<WiringEntry>,
}

impl WorkerWiring {
    pub closed spec fn spec_entries(&self) -> Seq<WiringEntry> {
        self.entries@
    }

    pub fn new(entries: Vec<WiringEntry>) -> (r: Self)
        ensures
            r.spec_entries() == entries@,
    {
        WorkerWiring { entries }
    }

    /// Hands over the inputs of the first entry of `subscriber_id` and
    /// leaves `None` there; `None` when there is no such entry.
    pub fn take(&mut self, subscriber_id: &str) -> (r: Option<WorkerInputs>)
        ensures
            match r {
                Some(w) => exists|k: int|
                    0 <= k < old(self).spec_entries().len()
                        && old(self).spec_entries()[k].subscriber_id@ == subscriber_id@
                        && (forall|k2: int| 0 <= k2 < k ==> old(self).spec_entries()[k2].subscriber_id@ != subscriber_id@)
                        && old(self).spec_entries()[k].inputs == Some(w)
                        && final(self).spec_entries() == old(self).spec_entries().update(
                        k,
                        WiringEntry { subscriber_id: old(self).spec_entries()[k].subscriber_id, inputs: None },
                    ),
                None => final(self).spec_entries() == old(self).spec_entries() && forall|k: int|
                    0 <= k < old(self).spec_entries().len()
                        && old(self).spec_entries()[k].subscriber_id@ == subscriber_id@
                        && (forall|k2: int| 0 <= k2 < k ==> old(self).spec_entries()[k2].subscriber_id@ != subscriber_id@)
                        ==> old(self).spec_entries()[k].inputs is None,
            },
    {
        let wanted = subscriber_id.to_owned();
        let mut k: usize = 0;
        while k < self.entries.len()
            invariant
                k <= self.entries@.len(),
                self.entries@ == old(self).entries@,
                wanted@ == subscriber_id@,
                forall|k2: int| 0 <= k2 < k ==> self.entries@[k2].subscriber_id@ != subscriber_id@,
            decreases self.entries@.len() - k,
        {
            if self.entries[k].subscriber_id == wanted {
                let id = self.entries[k].subscriber_id.clone();
                let entry = WiringEntry { subscriber_id: id, inputs: None };
                let mut old_entry = entry;
                std::mem::swap(&mut self.entries[k], &mut old_entry);
                return old_entry.inputs;
            }
            k += 1;
        }
        None
    }
}

/// Collects subscription declarations for one bus.
pub struct EventBusBuilder {
    cfg: BusConfig,
    subs: Vec<SubscriptionSpec>,
}

impl EventBusBuilder {
    pub closed spec fn spec_cfg(&self) -> BusConfig {
        self.cfg
    }

    pub closed spec fn spec_subs(&self) -> Seq<SubscriptionSpec> {
        self.subs@
    }

    pub fn new(cfg: BusConfig) -> (r: Self)
        ensures
            r.spec_cfg() == cfg,
            r.spec_subs() == Seq::<SubscriptionSpec>::empty(),
    {
        EventBusBuilder { cfg, subs: Vec::new() }
    }

    /// Appends one declaration.
    pub fn subscribe(self, s: SubscriptionSpec) -> (r: Self)
        ensures
            r.spec_cfg() == self.spec_cfg(),
            r.spec_subs() == self.spec_subs().push(s),
    {
        let mut b = self;
        b.subs.push(s);
        b
    }

    /// Validates the declarations and, when they are accepted, builds the
    /// bus: one fresh inbox per declared input, numbered in declaration
    /// order; a routing table with exactly one route per input; each
    /// subscriber's inputs, split into latest-slot and FIFO-class ones in
    /// declaration order; and the isolated inboxes whose drain must start
    /// first.
    pub fn build<P>(self) -> (r: Result<(EventBus<P>, WorkerWiring, StartupTasks), BuildError>)
        ensures
            ({
                let subs = self.spec_subs();
                let n = subs.len() as int;
                match r {
                    Err(e) => first_error(subs, n) == Some(e),
                    Ok((bus, wiring, tasks)) => {
                        &&& valid(subs)
                        &&& bus.wf()
                        &&& bus.spec_session_id() == self.spec_cfg().session_id
                        &&& bus.spec_strict() == self.spec_cfg().strict_routing
                        &&& bus.spec_next_seq() == 0
                        &&& bus.spec_unrouted() == 0
                        &&& forall|i: int| 0 <= i < bus.spec_drops().len() ==> bus.spec_drops()[i] == 0
                        &&& bus.spec_inboxes().len() == inputs_before(subs, n)
                        &&& forall|s: int, j: int|
                            0 <= s < n && 0 <= j < subs[s].inputs@.len() ==> fresh_inbox(
                                bus.spec_inboxes()[inputs_before(subs, s) + j],
                                #[trigger] subs[s].inputs@[j].queue_kind,
                            )
                        &&& forall|t: Seq<char>, id: Seq<char>, i: int|
                            #[trigger] bus.spec_routes().routed(t, id, i) <==> exists|s: int, j: int|
                                declared_at(subs, s, j, n, 0, t, id, i)
                        &&& wiring.spec_entries().len() == n
                        &&& forall|s: int|
                            0 <= s < n ==> {
                                let e = #[trigger] wiring.spec_entries()[s];
                                let base = inputs_before(subs, s);
                                let len = subs[s].inputs@.len() as int;
                                &&& e.subscriber_id@ == subs[s].subscriber_id@
                                &&& e.inputs matches Some(w) && w.wf() && w.cursor() == 0
                                    && latest_view(w.spec_latest()) == latest_of(subs[s], base, len)
                                    && fifos_view(w.spec_fifos()) == fifos_of(subs[s], base, len)
                            }
                        &&& index_view(tasks.drains@) == isolated_before(subs, n)
                    },
                }
            }),
    {
        match validate(&self.subs) {
            Err(e) => {
                return Err(e);
            },
            Ok(()) => {},
        }
        let subs = &self.subs;
        proof {
            lemma_no_first_error(subs@, subs@.len() as int);
        }
        let mut routes = Routes::new();
        let mut inboxes: Vec<RouteInbox<Arc<EnrichedEvent<P>>>> = Vec::new();
        let mut entries: Vec<WiringEntry> = Vec::new();
        let mut drains: Vec<usize> = Vec::new();
        let mut s: usize = 0;
        while s < subs.len()
            invariant
                s <= subs@.len(),
                subs@ == self.subs@,
                valid(subs@),
                forall|s2: int| 0 <= s2 < subs@.len() ==> #[trigger] subscription_error(subs@, s2) is None,
                inboxes@.len() == inputs_before(subs@, s as int),
                routes.wf(inboxes@.len() as nat),
                forall|i: int| 0 <= i < inboxes@.len() ==> #[trigger] inboxes@[i].wf(),
                forall|i: int| 0 <= i < inboxes@.len() ==> #[trigger] inboxes@[i].all_items().len() == 0,
                forall|s2: int, j2: int|
                    0 <= s2 < s && 0 <= j2 < subs@[s2].inputs@.len() ==> fresh_inbox(
                        inboxes@[inputs_before(subs@, s2) + j2],
                        #[trigger] subs@[s2].inputs@[j2].queue_kind,
                    ),
                forall|t: Seq<char>, id: Seq<char>, i: int|
                    #[trigger] routes.routed(t, id, i) <==> exists|s2: int, j2: int|
                        declared_at(subs@, s2, j2, s as int, 0, t, id, i),
                entries@.len() == s,
                forall|s2: int|
                    0 <= s2 < s ==> {
                        let e = #[trigger] entries@[s2];
                        let base = inputs_before(subs@, s2);
                        let len = subs@[s2].inputs@.len() as int;
                        &&& e.subscriber_id@ == subs@[s2].subscriber_id@
                        &&& e.inputs matches Some(w) && w.wf() && w.cursor() == 0
                            && latest_view(w.spec_latest()) == latest_of(subs@[s2], base, len)
                            && fifos_view(w.spec_fifos()) == fifos_of(subs@[s2], base, len)
                    },
                index_view(drains@) == isolated_before(subs@, s as int),
            decreases subs@.len() - s,
        {
            let sub = &subs[s];
            let ghost base = inputs_before(subs@, s as int);
            proof {
                lemma_inputs_before_nonneg(subs@, s as int);
                assert(subscription_error(subs@, s as int) is None);
                lemma_no_first_input_error(*sub, s, sub.inputs@.len() as int);
            }
            let mut latest: Vec<Latest1Input> = Vec::new();
            let mut fifos: Vec<FifoInput> = Vec::new();
            let ghost drains0 = index_view(drains@);
            let mut j: usize = 0;
            while j < sub.inputs.len()
                invariant
                    s < subs@.len(),
                    sub == subs@[s as int],
                    subs@ == self.subs@,
                    base == inputs_before(subs@, s as int),
                    base >= 0,
                    forall|j2: int| 0 <= j2 < sub.inputs@.len() ==> #[trigger] input_error(*sub, s, j2) is None,
                    j <= sub.inputs@.len(),
                    inboxes@.len() == base + j,
                    routes.wf(inboxes@.len() as nat),
                    forall|i: int| 0 <= i < inboxes@.len() ==> #[trigger] inboxes@[i].wf(),
                    forall|i: int| 0 <= i < inboxes@.len() ==> #[trigger] inboxes@[i].all_items().len() == 0,
                    forall|s2: int, j2: int|
                        0 <= s2 < s && 0 <= j2 < subs@[s2].inputs@.len() ==> fresh_inbox(
                            inboxes@[inputs_before(subs@, s2) + j2],
                            #[trigger] subs@[s2].inputs@[j2].queue_kind,
                        ),
                    forall|j2: int| 0 <= j2 < j ==> fresh_inbox(
                        inboxes@[base + j2],
                        #[trigger] sub.inputs@[j2].queue_kind,
                    ),
                    forall|t: Seq<char>, id: Seq<char>, i: int|
                        #[trigger] routes.routed(t, id, i) <==> exists|s2: int, j2: int|
                            declared_at(subs@, s2, j2, s as int, j as int, t, id, i),
                    entries@.len() == s,
                    forall|s2: int|
                        0 <= s2 < s ==> {
                            let e = #[trigger] entries@[s2];
                            let base2 = inputs_before(subs@, s2);
                            let len = subs@[s2].inputs@.len() as int;
                            &&& e.subscriber_id@ == subs@[s2].subscriber_id@
                            &&& e.inputs matches Some(w) && w.wf() && w.cursor() == 0
                                && latest_view(w.spec_latest()) == latest_of(subs@[s2], base2, len)
                                && fifos_view(w.spec_fifos()) == fifos_of(subs@[s2], base2, len)
                        },
                    latest_view(latest@) == latest_of(*sub, base, j as int),
                    fifos_view(fifos@) == fifos_of(*sub, base, j as int),
                    forall|m: int| 0 <= m < latest@.len() ==> base <= #[trigger] latest@[m].inbox < base + j,
                    forall|m: int| 0 <= m < fifos@.len() ==> base <= #[trigger] fifos@[m].inbox < base + j,
                    WorkerInputs::distinct_inboxes(latest@, fifos@),
                    index_view(drains@) == drains0 + isolated_of(*sub, base, j as int),
                    drains0 == isolated_before(subs@, s as int),
                decreases sub.inputs@.len() - j,
            {
                let inp = &sub.inputs[j];
                let idx = inboxes.len();
                let ghost latest0 = latest@;
                let ghost fifos0 = fifos@;
                let ghost drains1 = drains@;
                let ghost routes0 = routes;
                let ghost inboxes0 = inboxes@;
                proof {
                    assert(input_error(*sub, s, j as int) is None);
                }
                match inp.queue_kind {
                    QueueKind::Latest1 => {
                        inboxes.push(RouteInbox::Latest1(Latest1Queue::new()));
                        latest.push(Latest1Input { event_type: inp.event_type.clone(), inbox: idx });
                        proof {
                            assert(latest@.drop_last() =~= latest0);
                        }
                    },
                    QueueKind::FifoDropOldest { capacity } => {
                        inboxes.push(RouteInbox::FifoDropOldest(FifoDropOldestQueue::new(capacity)));
                        fifos.push(FifoInput { event_type: inp.event_type.clone(), inbox: idx });
                        proof {
                            assert(fifos@.drop_last() =~= fifos0);
                        }
                    },
                    QueueKind::Isolated { output_buffer } => {
                        inboxes.push(RouteInbox::Isolated(IsolatedForwarder::new(output_buffer)));
                        fifos.push(FifoInput { event_type: inp.event_type.clone(), inbox: idx });
                        drains.push(idx);
                        proof {
                            assert(fifos@.drop_last() =~= fifos0);
                            assert(drains@.drop_last() =~= drains1);
                        }
                    },
                    QueueKind::BoundedDropNewest { .. } => {},
                }
                routes.add_route(&inp.event_type, &sub.subscriber_id, idx);
                proof {
                    assert(inboxes@.len() == inboxes0.len() + 1);
                    assert(forall|x: int| 0 <= x < inboxes0.len() ==> inboxes@[x] == inboxes0[x]);
                    assert(fresh_inbox(inboxes@[base + j], sub.inputs@[j as int].queue_kind));
                    assert forall|j2: int| 0 <= j2 < j + 1 implies fresh_inbox(
                        inboxes@[base + j2],
                        #[trigger] sub.inputs@[j2].queue_kind,
                    ) by {
                        if j2 < j {
                            assert(inboxes@[base + j2] == inboxes0[base + j2]);
                        }
                    }
                    let j1 = j + 1;
                    let t0 = inp.event_type@;
                    let id0 = sub.subscriber_id@;
                    assert forall|t: Seq<char>, id: Seq<char>, i: int|
                        #[trigger] routes.routed(t, id, i) <==> exists|s2: int, j2: int|
                            declared_at(subs@, s2, j2, s as int, j1, t, id, i) by {
                        assert(routes.routed(t, id, i) <==> (routes0.routed(t, id, i) || (t == t0 && id == id0 && i == idx)));
                        if exists|s2: int, j2: int| declared_at(subs@, s2, j2, s as int, j1, t, id, i) {
                            let (s2, j2) = choose|s2: int, j2: int| declared_at(subs@, s2, j2, s as int, j1, t, id, i);
                            if !(s2 == s && j2 == j) {
                                assert(declared_at(subs@, s2, j2, s as int, j as int, t, id, i));
                            }
                        }
                        if exists|s2: int, j2: int| declared_at(subs@, s2, j2, s as int, j as int, t, id, i) {
                            let (s2, j2) = choose|s2: int, j2: int| declared_at(subs@, s2, j2, s as int, j as int, t, id, i);
                            assert(declared_at(subs@, s2, j2, s as int, j1, t, id, i));
                        }
                        if t == t0 && id == id0 && i == idx {
                            assert(declared_at(subs@, s as int, j as int, s as int, j1, t, id, i));
                        }
                    }
                    assert forall|s2: int, j2: int|
                        0 <= s2 < s && 0 <= j2 < subs@[s2].inputs@.len() implies fresh_inbox(
                            inboxes@[inputs_before(subs@, s2) + j2],
                            #[trigger] subs@[s2].inputs@[j2].queue_kind,
                        ) by {
                        lemma_inputs_before_mono(subs@, s2, s as int);
                        lemma_inputs_before_nonneg(subs@, s2);
                        assert(inboxes@[inputs_before(subs@, s2) + j2] == inboxes0[inputs_before(subs@, s2) + j2]);
                    }
                }
                j += 1;
            }
            proof {
                assert forall|a: int, b: int|
                    0 <= a < latest@.len() && 0 <= b < fifos@.len() implies latest@[a].inbox != fifos@[b].inbox by {}
            }
            let w = WorkerInputs::new(latest, fifos);
            entries.push(WiringEntry { subscriber_id: sub.subscriber_id.clone(), inputs: Some(w) });
            proof {
                let s1 = s + 1;
                let jn = sub.inputs@.len() as int;
                assert forall|t: Seq<char>, id: Seq<char>, i: int|
                    #[trigger] routes.routed(t, id, i) <==> exists|s2: int, j2: int|
                        declared_at(subs@, s2, j2, s1, 0, t, id, i) by {
                    if exists|s2: int, j2: int| declared_at(subs@, s2, j2, s as int, jn, t, id, i) {
                        let (s2, j2) = choose|s2: int, j2: int| declared_at(subs@, s2, j2, s as int, jn, t, id, i);
                        assert(declared_at(subs@, s2, j2, s1, 0, t, id, i));
                    }
                    if exists|s2: int, j2: int| declared_at(subs@, s2, j2, s1, 0, t, id, i) {
                        let (s2, j2) = choose|s2: int, j2: int| declared_at(subs@, s2, j2, s1, 0, t, id, i);
                        assert(declared_at(subs@, s2, j2, s as int, jn, t, id, i));
                    }
                }
                assert forall|s2: int, j2: int|
                    0 <= s2 < s + 1 && 0 <= j2 < subs@[s2].inputs@.len() implies fresh_inbox(
                        inboxes@[inputs_before(subs@, s2) + j2],
                        #[trigger] subs@[s2].inputs@[j2].queue_kind,
                    ) by {
                    if s2 == s {
                        assert(sub.inputs@[j2] == subs@[s2].inputs@[j2]);
                    }
                }
                assert forall|s2: int| 0 <= s2 < s + 1 implies {
                    let e = #[trigger] entries@[s2];
                    let base2 = inputs_before(subs@, s2);
                    let len = subs@[s2].inputs@.len() as int;
                    &&& e.subscriber_id@ == subs@[s2].subscriber_id@
                    &&& e.inputs matches Some(w) && w.wf() && w.cursor() == 0
                        && latest_view(w.spec_latest()) == latest_of(subs@[s2], base2, len)
                        && fifos_view(w.spec_fifos()) == fifos_of(subs@[s2], base2, len)
                } by {}
            }
            s += 1;
        }
        let bus = EventBus::new(self.cfg, routes, inboxes);
        Ok((bus, WorkerWiring::new(entries), StartupTasks { drains }))
    }
}

} // verus!
