//! Routing of contiguous runtime event IDs to typed handlers.

use vstd::prelude::*;

verus! {

/// Routes a runtime event ID to one of a contiguous set of typed handlers.
///
/// Each handler is responsible for translating the raw event into the
/// generated event enum expected by its state machine. Handlers are usually
/// plain function pointers, `fn(&mut M, &Raw) -> R`.
#[verifier::reject_recursive_types(M)]
#[verifier::reject_recursive_types(Raw)]
#[verifier::reject_recursive_types(R)]
pub struct DispatchTable<'a, M, Raw, R, H: Fn(&mut M, &Raw) -> R> {
    machine: &'a mut M,
    first_id: usize,
    handlers: &'a [H],
    signature: core::marker::PhantomData<(Raw, R)>,
}

/// The handler position that runtime ID `id` selects in a table whose first
/// handler answers `first_id`, if the table has `count` handlers.
pub open spec fn handler_index(first_id: usize, count: nat, id: usize) -> Option<int> {
    if first_id <= id && id - first_id < count {
        Some(id - first_id)
    } else {
        None
    }
}

impl<'a, M, Raw, R, H: Fn(&mut M, &Raw) -> R> DispatchTable<'a, M, Raw, R, H> {
    /// The machine that receives dispatched events.
    pub closed spec fn spec_machine(&self) -> M {
        *self.machine
    }

    /// The runtime ID of the first handler.
    pub closed spec fn spec_first_id(&self) -> usize {
        self.first_id
    }

    /// The handlers, in runtime-ID order.
    pub closed spec fn spec_handlers(&self) -> Seq<H> {
        self.handlers@
    }

    /// Creates a table whose first handler corresponds to `first_id`.
    pub fn new(machine: &'a mut M, first_id: usize, handlers: &'a [H]) -> (table: Self)
        ensures
            table.spec_machine() == *old(machine),
            table.spec_first_id() == first_id,
            table.spec_handlers() == handlers@,
    {
        DispatchTable { machine, first_id, handlers, signature: core::marker::PhantomData }
    }

    /// Dispatches `raw` through the handler associated with `id`.
    ///
    /// Returns `None`, leaving the machine untouched, when the ID is outside
    /// the table's contiguous range.
    pub fn dispatch(&mut self, raw: &Raw, id: usize) -> (result: Option<R>)
        requires
            forall|h: H, machine: &mut M, x: &Raw|
                old(self).spec_handlers().contains(h) ==> call_requires(h, (machine, x)),
        ensures
            final(self).spec_first_id() == old(self).spec_first_id(),
            final(self).spec_handlers() == old(self).spec_handlers(),
            result is None <==> handler_index(
                old(self).spec_first_id(),
                old(self).spec_handlers().len(),
                id,
            ) is None,
            result is None ==> final(self).spec_machine() == old(self).spec_machine(),
            result matches Some(r) ==> exists|machine: &mut M|
                mut_ref_current(machine) == old(self).spec_machine() && mut_ref_future(machine)
                    == final(self).spec_machine() && call_ensures(
                    old(self).spec_handlers()[id - old(self).spec_first_id()],
                    (machine, raw),
                    r,
                ),
    {
        if id < self.first_id {
            return None;
        }
        let index = id - self.first_id;
        if index >= self.handlers.len() {
            return None;
        }
        let handler = &self.handlers[index];
        assert(self.handlers@.contains(*handler)) by {
            assert(self.handlers@[index as int] == *handler);
        }
        Some(handler(self.machine, raw))
    }

    /// Returns a shared reference to the underlying machine.
    pub fn machine(&self) -> (machine: &M)
        ensures
            *machine == self.spec_machine(),
    {
        self.machine
    }

    /// Returns a mutable reference to the underlying machine.
    pub fn machine_mut(&mut self) -> (machine: &mut M)
        ensures
            *machine == old(self).spec_machine(),
            final(self).spec_machine() == *final(machine),
            final(self).spec_first_id() == old(self).spec_first_id(),
            final(self).spec_handlers() == old(self).spec_handlers(),
    {
        self.machine
    }
}

} // verus!
