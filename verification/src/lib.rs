//! A state-machine runtime: bounded event queues, hierarchical and orthogonal
//! dispatch helpers, machine pools and the policy slots of generated machines.

use vstd::prelude::*;
use vstd::future::FutureAdditionalSpecFns;

pub mod dsl;
mod policy;
mod testing_access;
pub mod utility;

pub use policy::{
    BranchStm, DefaultQueuePolicy, DeferQueue, Dispatch, EventName, JumpTable, Logger, NoPolicy,
    NoPolicyParts, Observer, Policies, PolicyBundle, PolicyBundleParts, PolicyParts, PolicyQueues,
    ProcessQueue, Queue, QueuePolicy, RawMutex, StateName, SwitchStm, Testing, TestingAccess,
    TestingPolicy, ThreadSafe, ThreadSafety,
};

verus! {

/// Position just past the last `::` that ends at or before `end` in `path`,
/// or 0 when there is none.
pub open spec fn separator_end(path: Seq<char>, end: int) -> int
    decreases end,
{
    if end < 2 {
        0
    } else if path[end - 2] == ':' && path[end - 1] == ':' {
        end
    } else {
        separator_end(path, end - 1)
    }
}

/// The part of a `::`-separated path after its last separator, or the whole
/// path when it has none.
pub open spec fn path_suffix(path: Seq<char>) -> Seq<char> {
    path.skip(separator_end(path, path.len() as int))
}

proof fn lemma_separator_end_bounds(path: Seq<char>, end: int)
    requires
        0 <= end <= path.len(),
    ensures
        0 <= separator_end(path, end) <= end,
    decreases end,
{
    if end >= 2 && !(path[end - 2] == ':' && path[end - 1] == ':') {
        lemma_separator_end_bounds(path, end - 1);
    }
}

/// Returns the final component of a `::`-separated path, such as a Rust
/// type name.
pub fn final_path_component(path: &str) -> (component: &str)
    ensures
        component@ == path_suffix(path@),
{
    let length = path.unicode_len();
    let mut end = length;
    while end >= 2
        invariant
            end <= length,
            length == path@.len(),
            separator_end(path@, end as int) == separator_end(path@, length as int),
        decreases end,
    {
        if path.get_char(end - 2) == ':' && path.get_char(end - 1) == ':' {
            proof {
                lemma_separator_end_bounds(path@, length as int);
            }
            return path.substring_char(end, length);
        }
        end = end - 1;
    }
    path.substring_char(0, length)
}

/// Wraps an already known result as a future by calling `core::future::ready`.
/// Claimed of `ready`: the future it returns yields `value` when awaited.
#[verifier::external_body]
fn ready_future(value: bool) -> (future: core::future::Ready<bool>)
    ensures
        future@ == value,
{
    core::future::ready(value)
}

#[verifier::external_type_specification]
#[verifier::external_body]
#[verifier::reject_recursive_types(T)]
pub struct ExReady<T>(core::future::Ready<T>);

/// Common synchronous interface implemented by generated state machines that
/// do not require a temporary context.
pub trait Machine<E> {
    /// Generated state enum.
    type State;

    /// Whether processing `event` to run-to-completion can take the machine
    /// from this value to `next` and report `accepted`: the machine's own
    /// transition relation. A machine that does not state it admits every
    /// outcome.
    open spec fn processes(&self, event: E, next: &Self, accepted: bool) -> bool {
        true
    }

    /// Processes one event to run-to-completion and reports whether it was
    /// accepted.
    fn process_event(&mut self, event: E) -> (accepted: bool)
        ensures
            old(self).processes(event, final(self), accepted),
    ;

    /// Processes one event to run-to-completion and returns its acceptance as a
    /// future. The default inline path does not allocate.
    fn process_event_async(&mut self, event: E) -> (future: core::future::Ready<bool>) where
        Self: Sized,

        default_ensures
            old(self).processes(event, final(self), future@),
    {
        let accepted = self.process_event(event);
        ready_future(accepted)
    }
}

/// Reports whether a state machine has reached its terminal state.
pub trait Terminated {
    /// Returns true after entering the generated `X` state.
    fn is_terminated(&self) -> bool;
}

} // verus!
