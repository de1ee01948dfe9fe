//! Pools of machines and sets of simultaneously active regions.

use crate::Machine;
use vstd::prelude::*;

verus! {

/// Caller-selected storage for a collection of machines: arrays and vectors.
pub trait MachineStorage<M> {
    /// The stored machines, in index order.
    spec fn machines(&self) -> Seq<M>;

    /// Returns the number of stored machines.
    fn machine_count(&self) -> (count: usize)
        ensures
            count == self.machines().len(),
    ;

    /// Borrows the machine at `index` mutably.
    fn machine_at(&mut self, index: usize) -> (machine: &mut M)
        requires
            index < old(self).machines().len(),
        ensures
            *machine == old(self).machines()[index as int],
            final(self).machines() == old(self).machines().update(index as int, *final(machine)),
    ;
}

impl<M> MachineStorage<M> for Vec<M> {
    open spec fn machines(&self) -> Seq<M> {
        self@
    }

    fn machine_count(&self) -> (count: usize) {
        self.len()
    }

    fn machine_at(&mut self, index: usize) -> (machine: &mut M) {
        &mut self[index]
    }
}

impl<M, const N: usize> MachineStorage<M> for [M; N] {
    open spec fn machines(&self) -> Seq<M> {
        self@
    }

    fn machine_count(&self) -> (count: usize) {
        N
    }

    fn machine_at(&mut self, index: usize) -> (machine: &mut M) {
        &mut self[index]
    }
}

/// Associates an event with the index of the machine that should receive it.
#[derive(Clone, Debug, PartialEq, Eq)]
pub struct IndexedEvent<E> {
    /// Index in the pool's storage.
    pub index: usize,
    /// Event to dispatch.
    pub event: E,
}

/// Creates an indexed event for heterogeneous batch dispatch.
pub fn with_id<E>(index: usize, event: E) -> (indexed: IndexedEvent<E>)
    ensures
        indexed.index == index,
        indexed.event == event,
{
    IndexedEvent { index, event }
}

/// How many of `indices` address one of `count` machines.
pub open spec fn valid_index_count(indices: Seq<usize>, count: nat) -> nat
    decreases indices.len(),
{
    if indices.len() == 0 {
        0
    } else {
        valid_index_count(indices.drop_last(), count) + if indices.last() < count {
            1nat
        } else {
            0nat
        }
    }
}

/// The target indices of a batch of indexed events.
pub open spec fn batch_indices<E>(events: Seq<IndexedEvent<E>>) -> Seq<usize> {
    events.map_values(|indexed: IndexedEvent<E>| indexed.index)
}

proof fn lemma_valid_index_count_bounded(indices: Seq<usize>, count: nat)
    ensures
        valid_index_count(indices, count) <= indices.len(),
    decreases indices.len(),
{
    if indices.len() > 0 {
        lemma_valid_index_count_bounded(indices.drop_last(), count);
    }
}

/// A storage-generic pool of state machines.
///
/// Arrays and vectors can be used as storage. Dispatch is supplied as a
/// closure because each generated machine has its own concrete event and
/// error types.
pub struct SmPool<S> {
    storage: S,
}

impl<S> SmPool<S> {
    /// The wrapped storage.
    pub closed spec fn spec_storage(&self) -> S {
        self.storage
    }

    /// Wraps caller-provided storage.
    pub fn new(storage: S) -> (pool: Self)
        ensures
            pool.spec_storage() == storage,
    {
        SmPool { storage }
    }

    /// Returns the underlying storage.
    pub fn storage(&self) -> (storage: &S)
        ensures
            *storage == self.spec_storage(),
    {
        &self.storage
    }

    /// Returns the underlying storage mutably.
    pub fn storage_mut(&mut self) -> (storage: &mut S)
        ensures
            *storage == old(self).spec_storage(),
            final(self).spec_storage() == *final(storage),
    {
        &mut self.storage
    }

    /// Replaces every machine using a caller-provided initializer, which
    /// receives the machine's index.
    pub fn reset<M, F>(&mut self, mut initialize: F) where S: MachineStorage<M>, F: FnMut(usize) -> M
        requires
            forall|index: usize| call_requires(initialize, (index,)),
        ensures
            final(self).spec_storage().machines().len() == old(self).spec_storage().machines().len(),
            forall|index: int|
                0 <= index < final(self).spec_storage().machines().len() ==> call_ensures(
                    initialize,
                    (index as usize,),
                    #[trigger] final(self).spec_storage().machines()[index],
                ),
    {
        let count = self.storage.machine_count();
        let ghost original_initialize = initialize;
        let mut index: usize = 0;
        while index < count
            invariant
                initialize == original_initialize,
                index <= count,
                count == self.storage.machines().len(),
                forall|index: usize| call_requires(initialize, (index,)),
                forall|done: int|
                    0 <= done < index ==> call_ensures(
                        original_initialize,
                        (done as usize,),
                        #[trigger] self.storage.machines()[done],
                    ),
            decreases count - index,
        {
            let machine = initialize(index);
            let slot = self.storage.machine_at(index);
            *slot = machine;
            index = index + 1;
        }
    }

    /// Dispatches one event to one machine.
    ///
    /// Returns `None`, leaving the storage untouched, when `index` addresses
    /// no machine.
    pub fn process_indexed<M, E, R, F>(&mut self, index: usize, event: E, dispatch: F) -> (result:
        Option<R>) where S: MachineStorage<M>, F: FnOnce(&mut M, E) -> R
        requires
            forall|machine: &mut M, e: E| call_requires(dispatch, (machine, e)),
        ensures
            result is None <==> index >= old(self).spec_storage().machines().len(),
            result is None ==> final(self).spec_storage() == old(self).spec_storage(),
            result matches Some(r) ==> exists|machine: &mut M|
                mut_ref_current(machine) == old(self).spec_storage().machines()[index as int]
                    && final(self).spec_storage().machines() == old(self).spec_storage().machines().update(index as int, mut_ref_future(machine))
                    && call_ensures(dispatch, (machine, event), r),
    {
        if index < self.storage.machine_count() {
            let machine = self.storage.machine_at(index);
            Some(dispatch(machine, event))
        } else {
            None
        }
    }

    /// Dispatches the same clonable event to a batch of machine indices.
    ///
    /// Returns the number of valid indices that were processed; machines that
    /// no index addresses are left untouched.
    pub fn process_indexed_batch<M, E, F>(&mut self, indices: &[usize], event: E, mut dispatch: F) -> (handled:
        usize) where S: MachineStorage<M>, E: Clone, F: FnMut(&mut M, E)
        requires
            forall|machine: &mut M, e: E| call_requires(dispatch, (machine, e)),
        ensures
            handled == valid_index_count(indices@, old(self).spec_storage().machines().len()),
            final(self).spec_storage().machines().len() == old(self).spec_storage().machines().len(),
            forall|index: int|
                0 <= index < old(self).spec_storage().machines().len() && !indices@.contains(
                    index as usize,
                ) ==> #[trigger] final(self).spec_storage().machines()[index] == old(self).spec_storage().machines()[index],
    {
        let count = self.storage.machine_count();
        let ghost original = self.storage.machines();
        let mut handled: usize = 0;
        let mut position: usize = 0;
        while position < indices.len()
            invariant
                position <= indices@.len(),
                count == original.len(),
                self.storage.machines().len() == count,
                handled == valid_index_count(indices@.take(position as int), count as nat),
                forall|machine: &mut M, e: E| call_requires(dispatch, (machine, e)),
                forall|index: int|
                    0 <= index < count && !indices@.take(position as int).contains(index as usize)
                        ==> #[trigger] self.storage.machines()[index] == original[index],
            decreases indices@.len() - position,
        {
            proof {
                lemma_valid_index_count_bounded(indices@.take(position as int), count as nat);
                assert(indices@.take(position + 1).drop_last() =~= indices@.take(position as int));
            }
            let index = indices[position];
            if index < count {
                let machine = self.storage.machine_at(index);
                dispatch(machine, event.clone());
                handled = handled + 1;
            }
            proof {
                assert forall|other: int|
                    0 <= other < count && !indices@.take(position + 1).contains(
                        other as usize,
                    ) implies #[trigger] self.storage.machines()[other] == original[other] by {
                    assert(indices@.take(position + 1)[position as int] == index);
                    if indices@.take(position as int).contains(other as usize) {
                        let k = choose|k: int|
                            0 <= k < position && indices@.take(position as int)[k] == other as usize;
                        assert(indices@.take(position + 1)[k] == other as usize);
                    }
                }
            }
            position = position + 1;
        }
        assert(indices@.take(indices@.len() as int) =~= indices@);
        handled
    }

    /// Dispatches a batch of indexed events, each to the machine it names.
    ///
    /// Returns the number of valid indices that were processed; machines that
    /// no event addresses are left untouched.
    pub fn process_event_batch<M, E, F>(&mut self, events: Vec<IndexedEvent<E>>, mut dispatch: F) -> (handled:
        usize) where S: MachineStorage<M>, F: FnMut(&mut M, E)
        requires
            forall|machine: &mut M, e: E| call_requires(dispatch, (machine, e)),
        ensures
            handled == valid_index_count(
                batch_indices(events@),
                old(self).spec_storage().machines().len(),
            ),
            final(self).spec_storage().machines().len() == old(self).spec_storage().machines().len(),
            forall|index: int|
                0 <= index < old(self).spec_storage().machines().len() && !batch_indices(
                    events@,
                ).contains(index as usize) ==> #[trigger] final(self).spec_storage().machines()[index]
                    == old(self).spec_storage().machines()[index],
    {
        let count = self.storage.machine_count();
        let ghost original = self.storage.machines();
        let ghost targets = batch_indices(events@);
        let total = events.len();
        let ghost all = events@;
        let mut handled: usize = 0;
        for indexed in it: events
            invariant
                it.seq() == all,
                all.len() == total,
                count == original.len(),
                targets == batch_indices(it.seq()),
                self.storage.machines().len() == count,
                handled == valid_index_count(targets.take(it.index() as int), count as nat),
                forall|machine: &mut M, e: E| call_requires(dispatch, (machine, e)),
                forall|index: int|
                    0 <= index < count && !targets.take(it.index() as int).contains(index as usize)
                        ==> #[trigger] self.storage.machines()[index] == original[index],
        {
            let ghost position = it.index();
            proof {
                lemma_valid_index_count_bounded(targets.take(position as int), count as nat);
                assert(targets.take(position + 1).drop_last() =~= targets.take(position as int));
            }
            let IndexedEvent { index, event } = indexed;
            if index < count {
                let machine = self.storage.machine_at(index);
                dispatch(machine, event);
                handled = handled + 1;
            }
            proof {
                assert forall|other: int|
                    0 <= other < count && !targets.take(position + 1).contains(
                        other as usize,
                    ) implies #[trigger] self.storage.machines()[other] == original[other] by {
                    assert(targets.take(position + 1)[position as int] == index);
                    if targets.take(position as int).contains(other as usize) {
                        let k = choose|k: int|
                            0 <= k < position && targets.take(position as int)[k] == other as usize;
                        assert(targets.take(position + 1)[k] == other as usize);
                    }
                }
            }
        }
        assert(targets.take(targets.len() as int) =~= targets);
        handled
    }
}

/// A set of simultaneously active state-machine regions.
///
/// Each event is offered to every region, matching orthogonal-region broadcast
/// semantics. Storage remains caller-selected.
pub struct OrthogonalRegions<S> {
    regions: S,
}

impl<S> OrthogonalRegions<S> {
    /// The wrapped region storage.
    pub closed spec fn spec_regions(&self) -> S {
        self.regions
    }

    /// Wraps the active region machines.
    pub fn new(regions: S) -> (orthogonal: Self)
        ensures
            orthogonal.spec_regions() == regions,
    {
        OrthogonalRegions { regions }
    }

    /// Returns the region storage.
    pub fn regions(&self) -> (regions: &S)
        ensures
            *regions == self.spec_regions(),
    {
        &self.regions
    }

    /// Returns the region storage mutably.
    pub fn regions_mut(&mut self) -> (regions: &mut S)
        ensures
            *regions == old(self).spec_regions(),
            final(self).spec_regions() == *final(regions),
    {
        &mut self.regions
    }

    /// Broadcasts an event to every region, in index order, and returns the
    /// number that accepted it. Each region receives its own clone of the
    /// event.
    pub fn process_event<M, E>(&mut self, event: E) -> (handled: usize) where
        S: MachineStorage<M>,
        M: Machine<E>,
        E: Clone,

        ensures
            exists|copies: Seq<E>, results: Seq<bool>|
                broadcast(
                    event,
                    old(self).spec_regions().machines(),
                    copies,
                    final(self).spec_regions().machines(),
                    results,
                ) && handled == accepted_count(results),
    {
        let count = self.regions.machine_count();
        let ghost original = self.regions.machines();
        let ghost mut copies: Seq<E> = Seq::empty();
        let ghost mut results: Seq<bool> = Seq::empty();
        let mut handled: usize = 0;
        let mut index: usize = 0;
        while index < count
            invariant
                index <= count,
                count == original.len(),
                self.regions.machines().len() == count,
                copies.len() == index,
                results.len() == index,
                handled == accepted_count(results),
                handled <= index,
                forall|i: int|
                    0 <= i < index ==> cloned(event, #[trigger] copies[i]) && original[i].processes(
                        copies[i],
                        &self.regions.machines()[i],
                        results[i],
                    ),
                forall|i: int| index <= i < count ==> #[trigger] self.regions.machines()[i] == original[i],
            decreases count - index,
        {
            let event_copy = event.clone();
            let ghost copy = event_copy;
            let region = self.regions.machine_at(index);
            let accepted = Machine::process_event(region, event_copy);
            if accepted {
                handled = handled + 1;
            }
            proof {
                let previous = results;
                copies = copies.push(copy);
                results = results.push(accepted);
                assert(results.drop_last() =~= previous);
            }
            index = index + 1;
        }
        assert(broadcast(event, original, copies, self.regions.machines(), results));
        assert(broadcast(event, old(self).spec_regions().machines(), copies, self.spec_regions().machines(), results));
        handled
    }
}

/// The number of regions that accepted an event.
pub open spec fn accepted_count(results: Seq<bool>) -> nat
    decreases results.len(),
{
    if results.len() == 0 {
        0
    } else {
        accepted_count(results.drop_last()) + if results.last() {
            1nat
        } else {
            0nat
        }
    }
}

/// One broadcast of `event` to regions `before`, in index order: region `i`
/// received `copies[i]`, a clone of the event, processed it to `after[i]` and
/// reported `results[i]`.
pub open spec fn broadcast<M: Machine<E>, E: Clone>(
    event: E,
    before: Seq<M>,
    copies: Seq<E>,
    after: Seq<M>,
    results: Seq<bool>,
) -> bool {
    &&& after.len() == before.len()
    &&& copies.len() == before.len()
    &&& results.len() == before.len()
    &&& forall|i: int|
        0 <= i < before.len() ==> cloned(event, #[trigger] copies[i]) && before[i].processes(
            copies[i],
            &after[i],
            results[i],
        )
}

} // verus!
