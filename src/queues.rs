//! The three subscription inbox policies.
use std::collections::VecDeque;
use vstd::prelude::*;

verus! {

/// A single-item slot: a new value replaces whatever the slot held.
pub struct Latest1Queue<T> {
    slot: Option<T>,
}

impl<T> View for Latest1Queue<T> {
    type V = Option<T>;

    closed spec fn view(&self) -> Option<T> {
        self.slot
    }
}

impl<T> Latest1Queue<T> {
    pub fn new() -> (r: Self)
        ensures
            r@ == None::<T>,
    {
        Latest1Queue { slot: None }
    }

    pub fn has_value(&self) -> (r: bool)
        ensures
            r == self@ is Some,
    {
        self.slot.is_some()
    }

    /// Overwrites the slot, read or not.
    pub fn set(&mut self, value: T)
        ensures
            final(self)@ == set_latest(old(self)@, value),
    {
        self.slot = Some(value);
    }

    /// Takes the value out of the slot, leaving it empty.
    pub fn try_recv(&mut self) -> (r: Option<T>)
        ensures
            r == old(self)@,
            final(self)@ == None::<T>,
    {
        self.slot.take()
    }
}

/// What a drop-oldest buffer of the given capacity holds after one more
/// delivery: the item goes to the back, and the front leaves when full.
pub open spec fn push_drop_oldest<T>(q: Seq<T>, capacity: nat, x: T) -> Seq<T> {
    if q.len() >= capacity {
        q.drop_first().push(x)
    } else {
        q.push(x)
    }
}

/// What a drop-oldest buffer holds after the items have been delivered in order.
pub open spec fn pushes_drop_oldest<T>(q: Seq<T>, capacity: nat, items: Seq<T>) -> Seq<T>
    decreases items.len(),
{
    if items.len() == 0 {
        q
    } else {
        push_drop_oldest(pushes_drop_oldest(q, capacity, items.drop_last()), capacity, items.last())
    }
}

/// What a latest-slot holds after one more delivery: the new value, whatever
/// the slot held.
pub open spec fn set_latest<T>(slot: Option<T>, x: T) -> Option<T> {
    Some(x)
}

/// What a latest-slot holds after the items have been delivered in order.
pub open spec fn sets_latest<T>(slot: Option<T>, items: Seq<T>) -> Option<T>
    decreases items.len(),
{
    if items.len() == 0 {
        slot
    } else {
        set_latest(sets_latest(slot, items.drop_last()), items.last())
    }
}

/// Bounded FIFO ring: delivery pushes to the back, evicting the front when
/// the buffer is at capacity; reading pops the front.
pub struct FifoDropOldestQueue<T> {
    buf: VecDeque<T>,
    capacity: usize,
}

impl<T> View for FifoDropOldestQueue<T> {
    type V = Seq<T>;

    closed spec fn view(&self) -> Seq<T> {
        self.buf@
    }
}

impl<T> FifoDropOldestQueue<T> {
    pub closed spec fn spec_capacity(&self) -> nat {
        self.capacity as nat
    }

    pub open spec fn wf(&self) -> bool {
        &&& self.spec_capacity() > 0
        &&& self@.len() <= self.spec_capacity()
    }

    pub fn new(capacity: usize) -> (r: Self)
        requires
            capacity > 0,
        ensures
            r.wf(),
            r@ == Seq::<T>::empty(),
            r.spec_capacity() == capacity,
    {
        FifoDropOldestQueue { buf: VecDeque::new(), capacity }
    }

    pub fn capacity(&self) -> (r: usize)
        ensures
            r == self.spec_capacity(),
    {
        self.capacity
    }

    pub fn len(&self) -> (r: usize)
        ensures
            r == self@.len(),
    {
        self.buf.len()
    }

    /// Delivers an item; never refuses one.
    pub fn push_overwrite(&mut self, value: T)
        requires
            old(self).wf(),
        ensures
            final(self).wf(),
            final(self).spec_capacity() == old(self).spec_capacity(),
            final(self)@ == push_drop_oldest(old(self)@, old(self).spec_capacity(), value),
    {
        if self.buf.len() >= self.capacity {
            let _ = self.buf.pop_front();
        }
        self.buf.push_back(value);
    }

    /// Pops the oldest item, if any.
    pub fn try_recv(&mut self) -> (r: Option<T>)
        requires
            old(self).wf(),
        ensures
            final(self).wf(),
            final(self).spec_capacity() == old(self).spec_capacity(),
            old(self)@.len() == 0 ==> r == None::<T> && final(self)@ == old(self)@,
            old(self)@.len() > 0 ==> r == Some(old(self)@[0]) && final(self)@ == old(self)@.drop_first(),
    {
        self.buf.pop_front()
    }
}

/// Capacity of the inbox that publishers write into on an isolated subscription.
pub const INBOX_CAPACITY: usize = 16;

/// Isolated forwarder: publishers make a non-blocking attempt on a small
/// inbox; a drain step moves items from it into an output channel of its own
/// size, which the subscriber reads.
pub struct IsolatedForwarder<T> {
    inbox: VecDeque<T>,
    output: VecDeque<T>,
    output_buffer: usize,
}

impl<T> IsolatedForwarder<T> {
    pub closed spec fn inbox_view(&self) -> Seq<T> {
        self.inbox@
    }

    pub closed spec fn output_view(&self) -> Seq<T> {
        self.output@
    }

    pub closed spec fn spec_output_buffer(&self) -> nat {
        self.output_buffer as nat
    }

    pub open spec fn wf(&self) -> bool {
        &&& self.spec_output_buffer() > 0
        &&& self.inbox_view().len() <= INBOX_CAPACITY
        &&& self.output_view().len() <= self.spec_output_buffer()
    }

    pub fn new(output_buffer: usize) -> (r: Self)
        requires
            output_buffer > 0,
        ensures
            r.wf(),
            r.inbox_view() == Seq::<T>::empty(),
            r.output_view() == Seq::<T>::empty(),
            r.spec_output_buffer() == output_buffer,
    {
        IsolatedForwarder { inbox: VecDeque::new(), output: VecDeque::new(), output_buffer }
    }

    pub fn output_buffer(&self) -> (r: usize)
        ensures
            r == self.spec_output_buffer(),
    {
        self.output_buffer
    }

    pub fn inbox_len(&self) -> (r: usize)
        ensures
            r == self.inbox_view().len(),
    {
        self.inbox.len()
    }

    pub fn output_len(&self) -> (r: usize)
        ensures
            r == self.output_view().len(),
    {
        self.output.len()
    }

    /// Non-blocking attempt on the inbox; a full inbox hands the value back.
    /// The output channel is not touched.
    pub fn try_send(&mut self, value: T) -> (r: Result<(), T>)
        requires
            old(self).wf(),
        ensures
            final(self).wf(),
            final(self).spec_output_buffer() == old(self).spec_output_buffer(),
            final(self).output_view() == old(self).output_view(),
            old(self).inbox_view().len() < INBOX_CAPACITY ==> r == Ok::<(), T>(())
                && final(self).inbox_view() == old(self).inbox_view().push(value),
            old(self).inbox_view().len() >= INBOX_CAPACITY ==> r == Err::<(), T>(value)
                && final(self).inbox_view() == old(self).inbox_view(),
    {
        if self.inbox.len() < INBOX_CAPACITY {
            self.inbox.push_back(value);
            Ok(())
        } else {
            Err(value)
        }
    }

    /// One hand-off of the drain: moves the oldest inbox item to the output
    /// channel when there is one and the channel has room.
    pub fn drain_step(&mut self) -> (moved: bool)
        requires
            old(self).wf(),
        ensures
            final(self).wf(),
            final(self).spec_output_buffer() == old(self).spec_output_buffer(),
            moved == (old(self).inbox_view().len() > 0
                && old(self).output_view().len() < old(self).spec_output_buffer()),
            moved ==> final(self).inbox_view() == old(self).inbox_view().drop_first()
                && final(self).output_view() == old(self).output_view().push(old(self).inbox_view()[0]),
            !moved ==> final(self).inbox_view() == old(self).inbox_view()
                && final(self).output_view() == old(self).output_view(),
    {
        if self.output.len() < self.output_buffer {
            match self.inbox.pop_front() {
                Some(v) => {
                    self.output.push_back(v);
                    true
                },
                None => false,
            }
        } else {
            false
        }
    }

    /// Pops the oldest item of the output channel, if any.
    pub fn try_recv(&mut self) -> (r: Option<T>)
        requires
            old(self).wf(),
        ensures
            final(self).wf(),
            final(self).spec_output_buffer() == old(self).spec_output_buffer(),
            final(self).inbox_view() == old(self).inbox_view(),
            old(self).output_view().len() == 0 ==> r == None::<T>
                && final(self).output_view() == old(self).output_view(),
            old(self).output_view().len() > 0 ==> r == Some(old(self).output_view()[0])
                && final(self).output_view() == old(self).output_view().drop_first(),
    {
        self.output.pop_front()
    }
}

/// Whatever was delivered before, a drop-oldest buffer of capacity at least
/// one that starts empty holds exactly the last `capacity` items delivered
/// (all of them when fewer were delivered), in delivery order.
pub proof fn lemma_drop_oldest_keeps_latest<T>(capacity: nat, items: Seq<T>)
    requires
        capacity > 0,
    ensures
        pushes_drop_oldest(Seq::<T>::empty(), capacity, items) == items.subrange(
            items.len() - if items.len() < capacity { items.len() as int } else { capacity as int },
            items.len() as int,
        ),
    decreases items.len(),
{
    if items.len() > 0 {
        let prefix = items.drop_last();
        lemma_drop_oldest_keeps_latest(capacity, prefix);
        let before = pushes_drop_oldest(Seq::<T>::empty(), capacity, prefix);
        let n = items.len() as int;
        if prefix.len() >= capacity {
            assert(before.drop_first().push(items.last()) =~= items.subrange(n - capacity, n));
        } else {
            assert(before.push(items.last()) =~= items.subrange(
                n - if n < capacity { n } else { capacity as int },
                n,
            ));
        }
    } else {
        assert(items.subrange(0, 0) =~= Seq::<T>::empty());
    }
}

/// After any number of deliveries to a latest-slot with no read in between,
/// the slot holds the last one delivered.
pub proof fn lemma_latest_slot_keeps_last<T>(slot: Option<T>, items: Seq<T>)
    requires
        items.len() > 0,
    ensures
        sets_latest(slot, items) == Some(items[items.len() - 1]),
{
}

} // verus!
