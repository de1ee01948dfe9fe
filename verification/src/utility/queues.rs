//! Deferred and action-requested event queues around a dispatch callback.

use super::queue::{EventQueue, QueueFull};
use vstd::prelude::*;

verus! {

/// Result reported by a queued dispatch callback.
#[derive(Clone, Copy, Debug, Default, PartialEq, Eq, Structural)]
pub struct DispatchStatus {
    /// The event matched a transition or handler.
    pub handled: bool,
    /// Processing changed the active state.
    pub transitioned: bool,
}

/// Aggregate result of an external dispatch and the queue work it triggered.
#[derive(Clone, Copy, Debug, Default, PartialEq, Eq, Structural)]
pub struct DispatchSummary {
    /// Total number of events offered to the machine.
    pub dispatched: usize,
    /// Number reported as handled.
    pub handled: usize,
    /// Number that changed active state.
    pub transitioned: usize,
}

impl DispatchSummary {
    /// No count exceeds the number of offered events.
    pub open spec fn consistent(&self) -> bool {
        self.handled <= self.dispatched && self.transitioned <= self.dispatched
    }

    fn record(&mut self, status: DispatchStatus)
        requires
            old(self).consistent(),
            old(self).dispatched < usize::MAX,
        ensures
            final(self).consistent(),
            final(self).dispatched == old(self).dispatched + 1,
            final(self).handled == old(self).handled + (if status.handled {
                1int
            } else {
                0int
            }),
            final(self).transitioned == old(self).transitioned + (if status.transitioned {
                1int
            } else {
                0int
            }),
    {
        self.dispatched = self.dispatched + 1;
        if status.handled {
            self.handled = self.handled + 1;
        }
        if status.transitioned {
            self.transitioned = self.transitioned + 1;
        }
    }
}

/// Separate bounded queues for deferred events and events requested by actions.
pub struct EventQueues<E, const DEFERRED: usize, const PROCESSED: usize> {
    deferred: EventQueue<E, DEFERRED>,
    processed: EventQueue<E, PROCESSED>,
}

impl<E, const DEFERRED: usize, const PROCESSED: usize> EventQueues<E, DEFERRED, PROCESSED> {
    /// The deferred events, oldest first.
    pub closed spec fn spec_deferred(&self) -> Seq<E> {
        self.deferred@
    }

    /// The events requested by actions, oldest first.
    pub closed spec fn spec_processed(&self) -> Seq<E> {
        self.processed@
    }

    /// Creates empty queues.
    pub fn new() -> (queues: Self)
        ensures
            queues.spec_deferred() == Seq::<E>::empty(),
            queues.spec_processed() == Seq::<E>::empty(),
    {
        EventQueues { deferred: EventQueue::new(), processed: EventQueue::new() }
    }

    /// Defers an event until a dispatch changes state.
    pub fn defer(&mut self, event: E) -> (result: Result<(), QueueFull>)
        ensures
            final(self).spec_processed() == old(self).spec_processed(),
            result is Err <==> old(self).spec_deferred().len() == DEFERRED,
            result is Err ==> final(self).spec_deferred() == old(self).spec_deferred(),
            result is Ok ==> final(self).spec_deferred() == old(self).spec_deferred().push(event),
    {
        self.deferred.defer(event)
    }

    /// Schedules an event for immediate processing after the current action.
    pub fn process(&mut self, event: E) -> (result: Result<(), QueueFull>)
        ensures
            final(self).spec_deferred() == old(self).spec_deferred(),
            result is Err <==> old(self).spec_processed().len() == PROCESSED,
            result is Err ==> final(self).spec_processed() == old(self).spec_processed(),
            result is Ok ==> final(self).spec_processed() == old(self).spec_processed().push(
                event,
            ),
    {
        self.processed.defer(event)
    }

    /// Returns the number of deferred events.
    pub fn deferred_len(&self) -> (count: usize)
        ensures
            count == self.spec_deferred().len(),
    {
        self.deferred.len()
    }

    /// Returns the number of immediately processed events.
    pub fn processed_len(&self) -> (count: usize)
        ensures
            count == self.spec_processed().len(),
    {
        self.processed.len()
    }

    /// Dispatches an external event, drains action-requested events, and gives
    /// each previously deferred event one retry after a state change.
    ///
    /// The callback receives the queues themselves, so it may defer or
    /// request further events. Counting stops once `usize::MAX` events have
    /// been offered.
    ///
    /// For a callback that only adds events to the deferred queue, as one
    /// that uses `defer` and `process` does: without a state change every
    /// deferred event stays queued, in order; after one, every event in the
    /// deferred queue when the retries begin is popped and offered again,
    /// oldest first, so that `dispatched` counts at least the first dispatch
    /// and one retry of each event deferred before the call.
    pub fn dispatch<M, F>(&mut self, machine: &mut M, event: E, mut dispatch: F) -> (summary:
        DispatchSummary) where F: FnMut(&mut M, &mut Self, E) -> DispatchStatus
        requires
            forall|m: &mut M, queues: &mut Self, e: E| call_requires(dispatch, (m, queues, e)),
        ensures
            summary.consistent(),
            summary.dispatched >= 1,
            summary.dispatched < usize::MAX ==> final(self).spec_processed().len() == 0,
            exists|m: &mut M, queues: &mut Self, status: DispatchStatus|
                mut_ref_current(m) == *old(machine) && mut_ref_current(queues) == *old(self)
                    && call_ensures(dispatch, (m, queues, event), status) && (status.handled
                    ==> summary.handled >= 1) && (status.transitioned ==> summary.transitioned
                    >= 1),
            (forall|m: &mut M, queues: &mut Self, e: E, status: DispatchStatus|
                #[trigger] call_ensures(dispatch, (m, queues, e), status) ==> extends(
                    mut_ref_current(queues).spec_deferred(),
                    mut_ref_future(queues).spec_deferred(),
                )) ==> (summary.transitioned == 0 ==> extends(
                old(self).spec_deferred(),
                final(self).spec_deferred(),
            )) && (summary.transitioned > 0 && summary.dispatched < usize::MAX
                ==> summary.dispatched >= old(self).spec_deferred().len() + 1),
    {
        let ghost before = self.spec_deferred();
        let ghost callback = dispatch;
        let mut summary = DispatchSummary { dispatched: 0, handled: 0, transitioned: 0 };
        proof {
            lemma_extends_order::<E>();
        }
        let initial = dispatch(machine, self, event);
        summary.record(initial);
        self.drain_processed(machine, &mut dispatch, &mut summary);
        if summary.transitioned > 0 {
            let retries = self.deferred.len();
            let ghost start = self.spec_deferred();
            let ghost base = summary.dispatched;
            let mut attempt: usize = 0;
            proof {
                assert(start.skip(0) =~= start);
                lemma_retry_front(start);
            }
            while attempt < retries && summary.dispatched < usize::MAX
                invariant
                    summary.consistent(),
                    summary.dispatched >= 1,
                    summary.transitioned >= 1,
                    summary.dispatched < usize::MAX ==> self.spec_processed().len() == 0,
                    (initial.handled ==> summary.handled >= 1),
                    forall|m: &mut M, queues: &mut Self, e: E|
                        call_requires(dispatch, (m, queues, e)),
                    retries == start.len(),
                    attempt <= retries,
                    dispatch == callback,
                    base >= 1,
                    (forall|m: &mut M, queues: &mut Self, e: E, status: DispatchStatus|
                        #[trigger] call_ensures(dispatch, (m, queues, e), status) ==> extends(
                            mut_ref_current(queues).spec_deferred(),
                            mut_ref_future(queues).spec_deferred(),
                        )) ==> extends(before, start) && extends(
                        start.skip(attempt as int),
                        self.spec_deferred(),
                    ) && summary.dispatched >= base + attempt,
                decreases retries - attempt,
            {
                proof {
                    lemma_extends_order::<E>();
                    lemma_retry_front(start);
                }
                if let Some(retried) = self.deferred.pop() {
                    let status = dispatch(machine, self, retried);
                    summary.record(status);
                    self.drain_processed(machine, &mut dispatch, &mut summary);
                }
                attempt = attempt + 1;
            }
        }
        summary
    }

    fn drain_processed<M, F>(
        &mut self,
        machine: &mut M,
        dispatch: &mut F,
        summary: &mut DispatchSummary,
    ) where F: FnMut(&mut M, &mut Self, E) -> DispatchStatus
        requires
            old(summary).consistent(),
            forall|m: &mut M, queues: &mut Self, e: E| call_requires(*old(dispatch), (m, queues, e)),
        ensures
            final(summary).consistent(),
            *final(dispatch) == *old(dispatch),
            final(summary).dispatched >= old(summary).dispatched,
            final(summary).handled >= old(summary).handled,
            final(summary).transitioned >= old(summary).transitioned,
            final(summary).dispatched < usize::MAX ==> final(self).spec_processed().len() == 0,
            (forall|m: &mut M, queues: &mut Self, e: E, status: DispatchStatus|
                #[trigger] call_ensures(*old(dispatch), (m, queues, e), status) ==> extends(
                    mut_ref_current(queues).spec_deferred(),
                    mut_ref_future(queues).spec_deferred(),
                )) ==> extends(old(self).spec_deferred(), final(self).spec_deferred()),
    {
        let ghost start = self.spec_deferred();
        proof {
            lemma_extends_order::<E>();
        }
        while summary.dispatched < usize::MAX && !self.processed.is_empty()
            invariant
                summary.consistent(),
                *dispatch == *old(dispatch),
                summary.dispatched >= old(summary).dispatched,
                summary.handled >= old(summary).handled,
                summary.transitioned >= old(summary).transitioned,
                forall|m: &mut M, queues: &mut Self, e: E|
                    call_requires(*old(dispatch), (m, queues, e)),
                start == old(self).spec_deferred(),
                (forall|m: &mut M, queues: &mut Self, e: E, status: DispatchStatus|
                    #[trigger] call_ensures(*old(dispatch), (m, queues, e), status) ==> extends(
                        mut_ref_current(queues).spec_deferred(),
                        mut_ref_future(queues).spec_deferred(),
                    )) ==> extends(start, self.spec_deferred()),
            decreases usize::MAX - summary.dispatched,
        {
            proof {
                lemma_extends_order::<E>();
            }
            if let Some(next) = self.processed.pop() {
                let status = dispatch(machine, self, next);
                summary.record(status);
            }
        }
    }
}

/// `later` is `queue` with events added after its last: the deferred queue
/// as a callback that only defers events leaves it.
pub open spec fn extends<E>(queue: Seq<E>, later: Seq<E>) -> bool {
    queue.len() <= later.len() && later.take(queue.len() as int) == queue
}

/// A queue extends itself, and extending is transitive.
proof fn lemma_extends_order<E>()
    ensures
        forall|queue: Seq<E>| #[trigger] extends(queue, queue),
        forall|first: Seq<E>, second: Seq<E>, third: Seq<E>|
            #![trigger extends(first, second), extends(second, third)]
            extends(first, second) && extends(second, third) ==> extends(first, third),
{
    assert forall|queue: Seq<E>| #[trigger] extends(queue, queue) by {
        assert(queue.take(queue.len() as int) =~= queue);
    }
    assert forall|first: Seq<E>, second: Seq<E>, third: Seq<E>|
        extends(first, second) && extends(second, third) implies extends(first, third) by {
        assert(third.take(first.len() as int) =~= second.take(first.len() as int));
    }
}

/// Popping the front of a queue that extends `start.skip(done)` while
/// events of `start` are still to retry yields the next of them and leaves a
/// queue that extends the rest; such a queue is empty only once every event
/// of `start` has been retried.
proof fn lemma_retry_front<E>(start: Seq<E>)
    ensures
        forall|done: int, queued: Seq<E>|
            0 <= done < start.len() && #[trigger] extends(start.skip(done), queued) ==> queued.len() > 0
                && queued[0] == start[done] && extends(start.skip(done + 1), queued.drop_first()),
        forall|done: int, queued: Seq<E>|
            0 <= done && #[trigger] extends(start.skip(done), queued) && queued.len() == 0 ==> done
                >= start.len(),
{
    assert forall|done: int, queued: Seq<E>|
        0 <= done < start.len() && #[trigger] extends(start.skip(done), queued) implies queued.len()
        > 0 && queued[0] == start[done] && extends(start.skip(done + 1), queued.drop_first()) by {
        assert(queued.take(start.skip(done).len() as int)[0] == start.skip(done)[0]);
        assert(queued.drop_first().take(start.skip(done + 1).len() as int) =~= start.skip(done + 1))
            by {
            assert forall|k: int| 0 <= k < start.skip(done + 1).len() implies #[trigger] queued.drop_first().take(
                start.skip(done + 1).len() as int,
            )[k] == start.skip(done + 1)[k] by {
                assert(queued.take(start.skip(done).len() as int)[k + 1] == start.skip(done)[k + 1]);
            }
        }
    }
}

impl<E, const DEFERRED: usize, const PROCESSED: usize> Default for EventQueues<
    E,
    DEFERRED,
    PROCESSED,
> {
    fn default() -> (queues: Self)
        ensures
            queues.spec_deferred() == Seq::<E>::empty(),
            queues.spec_processed() == Seq::<E>::empty(),
    {
        Self::new()
    }
}

} // verus!
