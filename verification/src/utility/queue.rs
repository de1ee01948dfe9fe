//! Bounded first-in, first-out event storage.

use vstd::prelude::*;

verus! {

/// Error returned when a bounded event queue has no remaining capacity.
#[derive(Clone, Copy, Debug, PartialEq, Eq, Structural)]
pub struct QueueFull;

/// Position in the ring of the `offset`-th queued event, for a ring of
/// `capacity` slots whose oldest event sits at `head`.
pub open spec fn ring_slot(head: int, offset: int, capacity: int) -> int {
    if head + offset < capacity {
        head + offset
    } else {
        head + offset - capacity
    }
}

/// A slot of a freshly created queue: nothing is stored in it.
fn vacant_slot<E>(_index: usize) -> (slot: Option<E>)
    ensures
        slot is None,
{
    None
}

/// Builds the slot array of an empty queue by calling `core::array::from_fn`
/// with `vacant_slot`. Claimed of `from_fn`: element `i` of the array is the
/// value the callback returns for index `i`, so every slot is empty.
#[verifier::external_body]
fn vacant_slots<E, const N: usize>() -> (slots: [Option<E>; N])
    ensures
        forall|i: int| 0 <= i < N ==> (#[trigger] slots@[i]) is None,
{
    core::array::from_fn(vacant_slot::<E>)
}

/// Allocation-free FIFO used for deferred and explicitly processed events.
///
/// The queued events live in a ring of `N` slots; `head` is the slot of the
/// oldest event and `len` the number of queued events.
pub struct EventQueue<E, const N: usize> {
    events: [Option<E>; N],
    head: usize,
    len: usize,
}

impl<E, const N: usize> View for EventQueue<E, N> {
    type V = Seq<E>;

    /// The queued events, oldest first.
    closed spec fn view(&self) -> Seq<E> {
        Seq::new(
            self.len as nat,
            |i: int| self.events@[ring_slot(self.head as int, i, N as int)]->0,
        )
    }
}

impl<E, const N: usize> EventQueue<E, N> {
    /// Every queued event occupies its ring slot, and the ring never holds
    /// more than `N` events.
    #[verifier::type_invariant]
    closed spec fn inv(&self) -> bool {
        &&& self.len <= N
        &&& (N == 0 ==> self.head == 0)
        &&& (N > 0 ==> self.head < N)
        &&& forall|i: int|
            0 <= i < self.len ==> (#[trigger] self.events@[ring_slot(
                self.head as int,
                i,
                N as int,
            )]) is Some
    }

    /// Creates an empty queue.
    pub fn new() -> (queue: Self)
        ensures
            queue@ == Seq::<E>::empty(),
    {
        let queue = EventQueue { events: vacant_slots::<E, N>(), head: 0, len: 0 };
        assert(queue@ =~= Seq::<E>::empty());
        queue
    }

    /// Returns the number of queued events.
    pub fn len(&self) -> (count: usize)
        ensures
            count == self@.len(),
            count <= N,
    {
        proof {
            use_type_invariant(self);
        }
        self.len
    }

    /// Returns true when no events are queued.
    pub fn is_empty(&self) -> (empty: bool)
        ensures
            empty == (self@.len() == 0),
    {
        self.len == 0
    }

    /// Defers an event until events already in the queue have been processed.
    ///
    /// A full queue (which a queue of capacity zero always is) refuses the
    /// event and stays as it was.
    pub fn defer(&mut self, event: E) -> (result: Result<(), QueueFull>)
        ensures
            result is Err <==> old(self)@.len() == N,
            result is Err ==> final(self)@ == old(self)@,
            result is Ok ==> final(self)@ == old(self)@.push(event),
    {
        proof {
            use_type_invariant(&*self);
        }
        if self.len == N {
            return Err(QueueFull);
        }
        let ghost before = self@;
        let free = N - self.len;
        let tail = if self.head < free {
            self.head + self.len
        } else {
            self.head - free
        };
        assert(tail == ring_slot(self.head as int, self.len as int, N as int));
        self.events[tail] = Some(event);
        self.len = self.len + 1;
        assert(self@ =~= before.push(event)) by {
            assert forall|i: int| 0 <= i < before.len() implies #[trigger] self@[i] == before[i] by {
                assert(ring_slot(self.head as int, i, N as int) != tail as int);
            }
        }
        Ok(())
    }

    /// Schedules an event ahead of currently queued events.
    ///
    /// A full queue refuses the event and stays as it was.
    pub fn process(&mut self, event: E) -> (result: Result<(), QueueFull>)
        ensures
            result is Err <==> old(self)@.len() == N,
            result is Err ==> final(self)@ == old(self)@,
            result is Ok ==> final(self)@ == seq![event] + old(self)@,
    {
        proof {
            use_type_invariant(&*self);
        }
        if self.len == N {
            return Err(QueueFull);
        }
        let ghost before = self@;
        let ghost old_head = self.head as int;
        let front = if self.head == 0 {
            N - 1
        } else {
            self.head - 1
        };
        proof {
            assert forall|i: int| 0 <= i < self.len implies #[trigger] ring_slot(old_head, i, N as int) != front as int by {}
        }
        self.events[front] = Some(event);
        let ghost len = self.len as int;
        assert forall|i: int| 0 <= i <= len implies (#[trigger] self.events@[ring_slot(
            front as int,
            i,
            N as int,
        )]) is Some by {
            if i > 0 {
                assert(ring_slot(front as int, i, N as int) == ring_slot(old_head, i - 1, N as int));
            }
        }
        self.head = front;
        self.len = self.len + 1;
        assert(self@ =~= seq![event] + before) by {
            assert forall|i: int| 1 <= i < self@.len() implies #[trigger] ring_slot(
                front as int,
                i,
                N as int,
            ) == ring_slot(old_head, i - 1, N as int) by {}
        }
        Ok(())
    }

    /// Removes the oldest event, or returns `None` when the queue is empty.
    pub fn pop(&mut self) -> (event: Option<E>)
        ensures
            old(self)@.len() == 0 ==> event is None && final(self)@ == old(self)@,
            old(self)@.len() > 0 ==> event == Some(old(self)@[0]) && final(self)@ == old(
                self,
            )@.drop_first(),
    {
        proof {
            use_type_invariant(&*self);
        }
        if self.len == 0 {
            return None;
        }
        let ghost before = self@;
        let oldest = self.head;
        assert(ring_slot(oldest as int, 0, N as int) == oldest);
        let next = if self.head + 1 == N {
            0
        } else {
            self.head + 1
        };
        self.len = self.len - 1;
        let ghost len = self.len as int;
        assert forall|i: int| 0 <= i < len implies (#[trigger] self.events@[ring_slot(
            next as int,
            i,
            N as int,
        )]) is Some by {
            assert(ring_slot(next as int, i, N as int) == ring_slot(oldest as int, i + 1, N as int));
        }
        self.head = next;
        let mut event: Option<E> = None;
        core::mem::swap(&mut event, &mut self.events[oldest]);
        assert(self@ =~= before.drop_first()) by {
            assert forall|i: int| 0 <= i < self@.len() implies #[trigger] ring_slot(
                next as int,
                i,
                N as int,
            ) == ring_slot(oldest as int, i + 1, N as int) by {}
        }
        event
    }

    /// Drops all queued events.
    pub fn clear(&mut self)
        ensures
            final(self)@ == Seq::<E>::empty(),
    {
        while !self.is_empty()
            decreases self@.len(),
        {
            let _dropped = self.pop();
        }
        assert(self@ =~= Seq::<E>::empty());
    }
}

/// The events that `count` successive pops return from a queue whose view is
/// `queued`: each pop yields the oldest event and removes it.
pub open spec fn popped<E>(queued: Seq<E>, count: nat) -> Seq<E>
    decreases count,
{
    if count == 0 || queued.len() == 0 {
        Seq::empty()
    } else {
        seq![queued[0]] + popped(queued.drop_first(), (count - 1) as nat)
    }
}

/// First in, first out: popping a queue as many times as it holds events
/// returns exactly the queued events, oldest first.
pub proof fn law_pops_return_events_in_queue_order<E>(queued: Seq<E>)
    ensures
        popped(queued, queued.len()) == queued,
    decreases queued.len(),
{
    if queued.len() > 0 {
        law_pops_return_events_in_queue_order(queued.drop_first());
        assert(seq![queued[0]] + queued.drop_first() =~= queued);
    }
}

/// An event deferred into a queue comes out after every event that was
/// already queued, and those come out first in their own order.
pub proof fn law_deferred_event_leaves_last<E>(queued: Seq<E>, event: E)
    ensures
        popped(queued.push(event), queued.len()) == queued,
        popped(queued.push(event), queued.len() + 1) == queued.push(event),
    decreases queued.len(),
{
    law_pops_return_events_in_queue_order(queued.push(event));
    if queued.len() > 0 {
        law_deferred_event_leaves_last(queued.drop_first(), event);
        assert(queued.push(event).drop_first() =~= queued.drop_first().push(event));
        assert(seq![queued[0]] + queued.drop_first() =~= queued);
    }
}

/// An event scheduled with `process` is the next one popped, and the queue is
/// then left as it was before the event was scheduled.
pub proof fn law_processed_event_leaves_first<E>(queued: Seq<E>, event: E)
    ensures
        (seq![event] + queued)[0] == event,
        (seq![event] + queued).drop_first() == queued,
        popped(seq![event] + queued, 1) == seq![event],
{
    assert((seq![event] + queued).drop_first() =~= queued);
    assert(popped(queued, 0) == Seq::<E>::empty());
    assert(popped(seq![event] + queued, 1) =~= seq![event]);
}

impl<E, const N: usize> Default for EventQueue<E, N> {
    fn default() -> (queue: Self)
        ensures
            queue@ == Seq::<E>::empty(),
    {
        Self::new()
    }
}

} // verus!
