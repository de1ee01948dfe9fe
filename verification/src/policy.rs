//! Policy extension points for generated state machines.

use crate::testing_access;
use crate::utility::{EventQueue, QueueFull};
use vstd::prelude::*;

verus! {

/// Supplies a stable name for a generated event payload or variant.
pub trait EventName {
    /// Returns the event name.
    fn name(&self) -> &'static str;
}

/// Supplies a stable name for a generated state value.
pub trait StateName {
    /// Returns the state name.
    fn name(&self) -> &'static str;
}

/// Receives process, state-change, action, and guard callbacks.
///
/// Hooks use static names rather than serialized state values. This keeps the
/// policy layer allocation-free and usable for generated event enums carrying
/// borrowed data. An owner can correlate callbacks with its own event envelope
/// without exposing policy access through an event or message.
pub trait Logger {
    /// Called when an event enters processing.
    fn log_process_event(&mut self, _event: &'static str) {
    }

    /// Called after a state change.
    fn log_state_change(&mut self, _from: &'static str, _to: &'static str) {
    }

    /// Called after an action succeeds.
    fn log_action(&mut self, _action: &'static str, _event: &'static str) {
    }

    /// Called after a guard returns.
    fn log_guard(&mut self, _guard: &'static str, _event: &'static str, _result: bool) {
    }
}

impl Logger for () {

}

/// Receives the same semantic callbacks as [`Logger`].
///
/// This is intentionally generic: an owner can implement an OpenTelemetry,
/// metrics, tracing, or application observer adapter without adding a
/// telemetry dependency to this crate.
pub trait Observer {
    /// Called when an event enters processing.
    fn observe_process_event(&mut self, _event: &'static str) {
    }

    /// Called after a state change.
    fn observe_state_change(&mut self, _from: &'static str, _to: &'static str) {
    }

    /// Called after an action succeeds.
    fn observe_action(&mut self, _action: &'static str, _event: &'static str) {
    }

    /// Called after a guard returns.
    fn observe_guard(&mut self, _guard: &'static str, _event: &'static str, _result: bool) {
    }
}

impl Observer for () {

}

/// Selects the generated event-routing path.
///
/// The generated semantic engine remains responsible for guard, action,
/// queue, hierarchy, and completion behavior. Returning `false` rejects the
/// event before that engine is entered; the built-in strategies always return
/// `true`. A custom policy may additionally choose individual same-event
/// candidates with [`Dispatch::dispatch_candidate`].
pub trait Dispatch {
    /// Decides whether the generated engine should receive `event`.
    fn dispatch(&self, event: &'static str) -> bool;

    /// Selects a generated candidate for `event` from `state`.
    ///
    /// Candidates are visited in transition-table order. Returning `false`
    /// skips that candidate and allows the generated engine to try the next
    /// one. The default accepts every candidate.
    fn dispatch_candidate(&self, state: &'static str, event: &'static str, _candidate: usize) -> (accepted: bool)
        default_ensures
            accepted,
    {
        true
    }
}

/// Default generated dispatch strategy.
#[derive(Default)]
pub struct JumpTable;

/// Branch-chain dispatch strategy.
#[derive(Default)]
pub struct BranchStm;

/// Switch-style dispatch strategy. Rust's match lowering may make this
/// identical to [`JumpTable`] after optimization.
#[derive(Default)]
pub struct SwitchStm;

impl Dispatch for JumpTable {
    fn dispatch(&self, _event: &'static str) -> (accepted: bool)
        ensures
            accepted,
    {
        true
    }
}

impl Dispatch for BranchStm {
    fn dispatch(&self, _event: &'static str) -> (accepted: bool)
        ensures
            accepted,
    {
        true
    }
}

impl Dispatch for SwitchStm {
    fn dispatch(&self, _event: &'static str) -> (accepted: bool)
        ensures
            accepted,
    {
        true
    }
}

/// A lock policy used around event processing.
///
/// Generated machines store this policy slot separately from the other policy
/// slots before processing begins. Consequently a normal borrowed guard, such
/// as `std::sync::MutexGuard`, can safely live while the machine mutates its
/// state, context, queues, and other policy slots.
///
/// The lifetime `'a` is that of the borrow of the policy while the guard lives.
pub trait ThreadSafety<'a> {
    /// The guard held during processing.
    type Guard;

    /// Acquires the processing lock.
    fn lock(&'a self) -> Self::Guard;
}

impl<'a> ThreadSafety<'a> for () {
    type Guard = ();

    fn lock(&'a self) {
    }
}

/// A mutex interface suitable for [`ThreadSafe`].
///
/// A [`RawMutex`] guard must borrow only the mutex represented by `Self` and
/// must not retain aliases to its containing policy bundle or to the machine.
///
/// The lifetime `'a` is that of the borrow of the mutex while the guard lives.
pub trait RawMutex<'a> {
    /// The borrowed lock guard.
    type Guard;

    /// Acquires the lock.
    fn lock(&'a self) -> Self::Guard;
}

/// Wraps a raw mutex as a [`ThreadSafety`] policy.
pub struct ThreadSafe<L>(L);

impl<L> ThreadSafe<L> {
    /// The wrapped mutex.
    pub closed spec fn spec_lock(&self) -> L {
        self.0
    }

    /// Creates a thread-safety policy from a raw mutex.
    pub fn new(lock: L) -> (policy: Self)
        ensures
            policy.spec_lock() == lock,
    {
        ThreadSafe(lock)
    }
}

impl<'a, L: RawMutex<'a>> ThreadSafety<'a> for ThreadSafe<L> {
    type Guard = L::Guard;

    fn lock(&'a self) -> (guard: L::Guard)
        ensures
            call_ensures(L::lock, (&self.spec_lock(),), guard),
    {
        self.0.lock()
    }
}

#[verifier::external_type_specification]
#[verifier::external_body]
#[verifier::reject_recursive_types(T)]
pub struct ExStdMutex<T: ?Sized>(std::sync::Mutex<T>);

#[verifier::external_type_specification]
#[verifier::external_body]
#[verifier::reject_recursive_types(T)]
pub struct ExStdMutexGuard<'a, T: ?Sized + 'a>(std::sync::MutexGuard<'a, T>);

/// Locks a standard mutex by calling `std::sync::Mutex::lock`. Nothing is
/// claimed of the guard. When another thread panicked while holding the lock
/// (the mutex is poisoned), the guard that `PoisonError::into_inner` hands
/// back is returned, so the call always returns once the lock is held.
#[verifier::external_body]
fn lock_std_mutex<T>(mutex: &std::sync::Mutex<T>) -> std::sync::MutexGuard<'_, T> {
    match mutex.lock() {
        Ok(guard) => guard,
        Err(poisoned) => poisoned.into_inner(),
    }
}

impl<'a, T: 'a> RawMutex<'a> for std::sync::Mutex<T> {
    type Guard = std::sync::MutexGuard<'a, T>;

    fn lock(&'a self) -> std::sync::MutexGuard<'a, T> {
        lock_std_mutex(self)
    }
}

#[verifier::external_type_specification]
#[verifier::external_body]
#[verifier::reject_recursive_types(T)]
#[verifier::reject_recursive_types(R)]
pub struct ExSpinMutex<T: ?Sized, R>(spin::mutex::Mutex<T, R>);

#[verifier::external_type_specification]
#[verifier::external_body]
pub struct ExSpinRelax(spin::relax::Spin);

#[verifier::external_type_specification]
#[verifier::external_body]
#[verifier::reject_recursive_types(T)]
pub struct ExSpinMutexGuard<'a, T: 'a + ?Sized>(spin::mutex::MutexGuard<'a, T>);

/// Locks a spinning mutex by calling `spin::Mutex::lock`, which spins until
/// the lock is free. Nothing is claimed of the guard.
#[verifier::external_body]
fn lock_spin_mutex<T>(mutex: &spin::Mutex<T>) -> spin::MutexGuard<'_, T> {
    mutex.lock()
}

impl<'a, T: 'a> RawMutex<'a> for spin::Mutex<T> {
    type Guard = spin::MutexGuard<'a, T>;

    fn lock(&'a self) -> spin::MutexGuard<'a, T> {
        lock_spin_mutex(self)
    }
}

/// Marks a policy as a state-control policy.
///
/// The generated state override helpers require [`TestingAccess`] rather than
/// a runtime flag. This keeps production machines from carrying a branch or
/// relying on a value that could be changed after construction.
pub trait Testing {

}

impl Testing for () {

}

/// Provides focused state setup and restoration helpers.
#[derive(Default)]
pub struct TestingPolicy;

impl Testing for TestingPolicy {

}

/// Grants access to state setup helpers on a generated machine.
///
/// This trait is sealed and is implemented only for [`TestingPolicy`]. A
/// custom policy cannot opt a production machine into state mutation by
/// implementing this marker.
pub trait TestingAccess: testing_access::Sealed {

}

impl testing_access::Sealed for TestingPolicy {

}

impl TestingAccess for TestingPolicy {

}

/// A queue implementation used by generated defer/process storage.
pub trait Queue<E>: Sized {
    /// Creates an empty queue.
    fn new() -> Self;

    /// Appends an event.
    fn defer(&mut self, event: E) -> Result<(), QueueFull>;

    /// Inserts an event ahead of deferred events.
    fn process(&mut self, event: E) -> Result<(), QueueFull>;

    /// Removes the next event.
    fn pop(&mut self) -> Option<E>;
}

impl<E, const N: usize> Queue<E> for EventQueue<E, N> {
    fn new() -> (queue: Self)
        ensures
            queue@ == Seq::<E>::empty(),
    {
        EventQueue::new()
    }

    fn defer(&mut self, event: E) -> (result: Result<(), QueueFull>)
        ensures
            result is Err <==> old(self)@.len() == N,
            result is Err ==> final(self)@ == old(self)@,
            result is Ok ==> final(self)@ == old(self)@.push(event),
    {
        EventQueue::defer(self, event)
    }

    fn process(&mut self, event: E) -> (result: Result<(), QueueFull>)
        ensures
            result is Err <==> old(self)@.len() == N,
            result is Err ==> final(self)@ == old(self)@,
            result is Ok ==> final(self)@ == seq![event] + old(self)@,
    {
        EventQueue::process(self, event)
    }

    fn pop(&mut self) -> (event: Option<E>)
        ensures
            old(self)@.len() == 0 ==> event is None && final(self)@ == old(self)@,
            old(self)@.len() > 0 ==> event == Some(old(self)@[0]) && final(self)@ == old(
                self,
            )@.drop_first(),
    {
        EventQueue::pop(self)
    }
}

/// The default queue holds no event.
pub open spec fn holds_no_events<E>(queue: EventQueue<E, 16>) -> bool {
    queue@ == Seq::<E>::empty()
}

/// Queue policy for deferred events.
pub trait DeferQueue<E>: Queue<E> {

}

impl<E, T: Queue<E>> DeferQueue<E> for T {

}

/// Queue policy for action-requested events.
pub trait ProcessQueue<E>: Queue<E> {

}

impl<E, T: Queue<E>> ProcessQueue<E> for T {

}

/// A factory for generated queue instances holding events of type `E`.
pub trait QueuePolicy<E> {
    /// The queue selected for event type `E`.
    type Queue: Queue<E>;

    /// Creates an empty queue.
    fn new_queue(&self) -> Self::Queue;
}

/// The allocation-free 16-event queue used by default.
#[derive(Default)]
pub struct DefaultQueuePolicy;

impl<E> QueuePolicy<E> for DefaultQueuePolicy {
    type Queue = EventQueue<E, 16>;

    fn new_queue(&self) -> (queue: Self::Queue)
        ensures
            holds_no_events::<E>(queue),
    {
        EventQueue::new()
    }
}

/// The non-locking slots stored by a [`PolicyBundle`].
///
/// The fields are private so policy invariants are established only through
/// [`PolicyBundle`] constructors and the [`PolicyParts`] contract.
pub struct PolicyBundleParts<
    L = (),
    O = (),
    D = JumpTable,
    T = (),
    DQ = DefaultQueuePolicy,
    PQ = DefaultQueuePolicy,
> {
    logger: L,
    observer: O,
    testing: T,
    defer_queue: DQ,
    process_queue: PQ,
    dispatch: D,
}

impl<L, O, D, T, DQ, PQ> PolicyBundleParts<L, O, D, T, DQ, PQ> {
    /// Logger slot.
    pub closed spec fn spec_logger(&self) -> L {
        self.logger
    }

    /// Observer slot.
    pub closed spec fn spec_observer(&self) -> O {
        self.observer
    }

    /// Dispatch slot.
    pub closed spec fn spec_dispatch(&self) -> D {
        self.dispatch
    }

    /// Testing slot.
    pub closed spec fn spec_testing(&self) -> T {
        self.testing
    }

    /// Deferred queue factory slot.
    pub closed spec fn spec_defer_queue(&self) -> DQ {
        self.defer_queue
    }

    /// Process queue factory slot.
    pub closed spec fn spec_process_queue(&self) -> PQ {
        self.process_queue
    }
}

/// A composable policy bundle.
pub struct PolicyBundle<
    L = (),
    O = (),
    D = JumpTable,
    S = (),
    T = (),
    DQ = DefaultQueuePolicy,
    PQ = DefaultQueuePolicy,
> {
    logger: L,
    observer: O,
    thread_safe: S,
    testing: T,
    defer_queue: DQ,
    process_queue: PQ,
    dispatch: D,
}

impl<L, O, D, S, T, DQ, PQ> PolicyBundle<L, O, D, S, T, DQ, PQ> {
    /// Logger slot.
    pub closed spec fn spec_logger(&self) -> L {
        self.logger
    }

    /// Observer slot.
    pub closed spec fn spec_observer(&self) -> O {
        self.observer
    }

    /// Dispatch slot.
    pub closed spec fn spec_dispatch(&self) -> D {
        self.dispatch
    }

    /// Thread-safety slot.
    pub closed spec fn spec_thread_safe(&self) -> S {
        self.thread_safe
    }

    /// Testing slot.
    pub closed spec fn spec_testing(&self) -> T {
        self.testing
    }

    /// Deferred queue factory slot.
    pub closed spec fn spec_defer_queue(&self) -> DQ {
        self.defer_queue
    }

    /// Process queue factory slot.
    pub closed spec fn spec_process_queue(&self) -> PQ {
        self.process_queue
    }

    /// Creates a policy bundle whose dispatch slot is `D::default()`.
    pub fn new(
        logger: L,
        observer: O,
        thread_safe: S,
        testing: T,
        defer_queue: DQ,
        process_queue: PQ,
    ) -> (bundle: Self) where D: Default
        ensures
            bundle.spec_logger() == logger,
            bundle.spec_observer() == observer,
            bundle.spec_thread_safe() == thread_safe,
            bundle.spec_testing() == testing,
            bundle.spec_defer_queue() == defer_queue,
            bundle.spec_process_queue() == process_queue,
            call_ensures(D::default, (), bundle.spec_dispatch()),
    {
        PolicyBundle {
            logger,
            observer,
            thread_safe,
            testing,
            defer_queue,
            process_queue,
            dispatch: D::default(),
        }
    }

    /// Creates a policy bundle with an explicitly configured dispatch policy.
    pub fn with_dispatch(
        dispatch: D,
        logger: L,
        observer: O,
        thread_safe: S,
        testing: T,
        defer_queue: DQ,
        process_queue: PQ,
    ) -> (bundle: Self)
        ensures
            bundle.spec_dispatch() == dispatch,
            bundle.spec_logger() == logger,
            bundle.spec_observer() == observer,
            bundle.spec_thread_safe() == thread_safe,
            bundle.spec_testing() == testing,
            bundle.spec_defer_queue() == defer_queue,
            bundle.spec_process_queue() == process_queue,
    {
        PolicyBundle { logger, observer, thread_safe, testing, defer_queue, process_queue, dispatch }
    }

    /// Splits the lock slot from the other policy slots, keeping every slot.
    pub fn into_parts(self) -> (split: (PolicyBundleParts<L, O, D, T, DQ, PQ>, S))
        ensures
            split.0.spec_logger() == self.spec_logger(),
            split.0.spec_observer() == self.spec_observer(),
            split.0.spec_dispatch() == self.spec_dispatch(),
            split.0.spec_testing() == self.spec_testing(),
            split.0.spec_defer_queue() == self.spec_defer_queue(),
            split.0.spec_process_queue() == self.spec_process_queue(),
            split.1 == self.spec_thread_safe(),
    {
        let PolicyBundle {
            logger,
            observer,
            thread_safe,
            testing,
            defer_queue,
            process_queue,
            dispatch,
        } = self;
        (PolicyBundleParts { logger, observer, testing, defer_queue, process_queue, dispatch }, thread_safe)
    }
}

impl<L, O, D, S, T, DQ, PQ> Default for PolicyBundle<L, O, D, S, T, DQ, PQ> where
    L: Default,
    O: Default,
    D: Default,
    S: Default,
    T: Default,
    DQ: Default,
    PQ: Default,
 {
    fn default() -> (bundle: Self)
        ensures
            call_ensures(L::default, (), bundle.spec_logger()),
            call_ensures(O::default, (), bundle.spec_observer()),
            call_ensures(D::default, (), bundle.spec_dispatch()),
            call_ensures(S::default, (), bundle.spec_thread_safe()),
            call_ensures(T::default, (), bundle.spec_testing()),
            call_ensures(DQ::default, (), bundle.spec_defer_queue()),
            call_ensures(PQ::default, (), bundle.spec_process_queue()),
    {
        Self::new(L::default(), O::default(), S::default(), T::default(), DQ::default(), PQ::default())
    }
}

/// Describes the non-locking policy slots used by a generated machine.
pub trait PolicyParts {
    /// Logger slot.
    type Logger: Logger;

    /// Observer slot.
    type Observer: Observer;

    /// Dispatch slot.
    type Dispatch: Dispatch;

    /// Testing slot.
    type Testing: Testing;

    /// Borrows the logger.
    fn logger(&self) -> &Self::Logger;

    /// Mutably borrows the logger.
    fn logger_mut(&mut self) -> &mut Self::Logger;

    /// Borrows the observer.
    fn observer(&self) -> &Self::Observer;

    /// Mutably borrows the observer.
    fn observer_mut(&mut self) -> &mut Self::Observer;

    /// Borrows the dispatch strategy.
    fn dispatch(&self) -> &Self::Dispatch;

    /// Borrows the testing policy.
    fn testing(&self) -> &Self::Testing;
}

/// Supplies the generated deferred and process queues for events of type `E`.
pub trait PolicyQueues<E> {
    /// Deferred queue slot.
    type DeferQueue: Queue<E>;

    /// Process queue slot.
    type ProcessQueue: Queue<E>;

    /// Creates the generated deferred queue.
    fn new_defer_queue(&self) -> Self::DeferQueue;

    /// Creates the generated process queue.
    fn new_process_queue(&self) -> Self::ProcessQueue;
}

impl<L, O, D, T, DQ, PQ> PolicyParts for PolicyBundleParts<L, O, D, T, DQ, PQ> where
    L: Logger,
    O: Observer,
    D: Dispatch,
    T: Testing,
 {
    type Logger = L;

    type Observer = O;

    type Dispatch = D;

    type Testing = T;

    fn logger(&self) -> (logger: &L)
        ensures
            *logger == self.spec_logger(),
    {
        &self.logger
    }

    fn logger_mut(&mut self) -> (logger: &mut L)
        ensures
            *logger == old(self).spec_logger(),
            final(self).spec_logger() == *final(logger),
            final(self).spec_observer() == old(self).spec_observer(),
            final(self).spec_dispatch() == old(self).spec_dispatch(),
            final(self).spec_testing() == old(self).spec_testing(),
    {
        &mut self.logger
    }

    fn observer(&self) -> (observer: &O)
        ensures
            *observer == self.spec_observer(),
    {
        &self.observer
    }

    fn observer_mut(&mut self) -> (observer: &mut O)
        ensures
            *observer == old(self).spec_observer(),
            final(self).spec_observer() == *final(observer),
            final(self).spec_logger() == old(self).spec_logger(),
            final(self).spec_dispatch() == old(self).spec_dispatch(),
            final(self).spec_testing() == old(self).spec_testing(),
    {
        &mut self.observer
    }

    fn dispatch(&self) -> (dispatch: &D)
        ensures
            *dispatch == self.spec_dispatch(),
    {
        &self.dispatch
    }

    fn testing(&self) -> (testing: &T)
        ensures
            *testing == self.spec_testing(),
    {
        &self.testing
    }
}

impl<E, L, O, D, T, DQ, PQ> PolicyQueues<E> for PolicyBundleParts<L, O, D, T, DQ, PQ> where
    DQ: QueuePolicy<E>,
    PQ: QueuePolicy<E>,
 {
    type DeferQueue = DQ::Queue;

    type ProcessQueue = PQ::Queue;

    fn new_defer_queue(&self) -> (queue: DQ::Queue)
        ensures
            call_ensures(DQ::new_queue, (&self.spec_defer_queue(),), queue),
    {
        self.defer_queue.new_queue()
    }

    fn new_process_queue(&self) -> (queue: PQ::Queue)
        ensures
            call_ensures(PQ::new_queue, (&self.spec_process_queue(),), queue),
    {
        self.process_queue.new_queue()
    }
}

/// Describes the complete policy supplied to a generated machine.
pub trait Policies {
    /// Non-locking policy slots.
    type Parts: PolicyParts;

    /// Logger slot.
    type Logger: Logger;

    /// Observer slot.
    type Observer: Observer;

    /// Dispatch slot.
    type Dispatch: Dispatch;

    /// Thread-safety slot, a [`ThreadSafety`] policy.
    type ThreadSafe;

    /// Testing slot.
    type Testing: Testing;

    /// Borrows the logger.
    fn logger(&self) -> &Self::Logger;

    /// Mutably borrows the logger.
    fn logger_mut(&mut self) -> &mut Self::Logger;

    /// Borrows the observer.
    fn observer(&self) -> &Self::Observer;

    /// Mutably borrows the observer.
    fn observer_mut(&mut self) -> &mut Self::Observer;

    /// Borrows the dispatch strategy.
    fn dispatch(&self) -> &Self::Dispatch;

    /// Borrows the thread-safety policy.
    fn thread_safe(&self) -> &Self::ThreadSafe;

    /// Borrows the testing policy.
    fn testing(&self) -> &Self::Testing;

    /// Splits the lock slot from the slots that may be mutably used while the
    /// processing lock is held.
    fn into_parts(self) -> (Self::Parts, Self::ThreadSafe);
}

impl<L, O, D, S, T, DQ, PQ> Policies for PolicyBundle<L, O, D, S, T, DQ, PQ> where
    L: Logger,
    O: Observer,
    D: Dispatch,
    T: Testing,
 {
    type Parts = PolicyBundleParts<L, O, D, T, DQ, PQ>;

    type Logger = L;

    type Observer = O;

    type Dispatch = D;

    type ThreadSafe = S;

    type Testing = T;

    fn logger(&self) -> (logger: &L)
        ensures
            *logger == self.spec_logger(),
    {
        &self.logger
    }

    fn logger_mut(&mut self) -> (logger: &mut L)
        ensures
            *logger == old(self).spec_logger(),
            final(self).spec_logger() == *final(logger),
            final(self).spec_observer() == old(self).spec_observer(),
            final(self).spec_dispatch() == old(self).spec_dispatch(),
            final(self).spec_thread_safe() == old(self).spec_thread_safe(),
            final(self).spec_testing() == old(self).spec_testing(),
    {
        &mut self.logger
    }

    fn observer(&self) -> (observer: &O)
        ensures
            *observer == self.spec_observer(),
    {
        &self.observer
    }

    fn observer_mut(&mut self) -> (observer: &mut O)
        ensures
            *observer == old(self).spec_observer(),
            final(self).spec_observer() == *final(observer),
            final(self).spec_logger() == old(self).spec_logger(),
            final(self).spec_dispatch() == old(self).spec_dispatch(),
            final(self).spec_thread_safe() == old(self).spec_thread_safe(),
            final(self).spec_testing() == old(self).spec_testing(),
    {
        &mut self.observer
    }

    fn dispatch(&self) -> (dispatch: &D)
        ensures
            *dispatch == self.spec_dispatch(),
    {
        &self.dispatch
    }

    fn thread_safe(&self) -> (thread_safe: &S)
        ensures
            *thread_safe == self.spec_thread_safe(),
    {
        &self.thread_safe
    }

    fn testing(&self) -> (testing: &T)
        ensures
            *testing == self.spec_testing(),
    {
        &self.testing
    }

    fn into_parts(self) -> (split: (PolicyBundleParts<L, O, D, T, DQ, PQ>, S))
        ensures
            split.0.spec_logger() == self.spec_logger(),
            split.0.spec_observer() == self.spec_observer(),
            split.0.spec_dispatch() == self.spec_dispatch(),
            split.0.spec_testing() == self.spec_testing(),
            split.0.spec_defer_queue() == self.spec_defer_queue(),
            split.0.spec_process_queue() == self.spec_process_queue(),
            split.1 == self.spec_thread_safe(),
    {
        PolicyBundle::into_parts(self)
    }
}

impl<E, L, O, D, S, T, DQ, PQ> PolicyQueues<E> for PolicyBundle<L, O, D, S, T, DQ, PQ> where
    DQ: QueuePolicy<E>,
    PQ: QueuePolicy<E>,
 {
    type DeferQueue = DQ::Queue;

    type ProcessQueue = PQ::Queue;

    fn new_defer_queue(&self) -> (queue: DQ::Queue)
        ensures
            call_ensures(DQ::new_queue, (&self.spec_defer_queue(),), queue),
    {
        self.defer_queue.new_queue()
    }

    fn new_process_queue(&self) -> (queue: PQ::Queue)
        ensures
            call_ensures(PQ::new_queue, (&self.spec_process_queue(),), queue),
    {
        self.process_queue.new_queue()
    }
}

/// The default policy bundle. Its fields are all zero-sized.
pub struct NoPolicy {
    logger: (),
    observer: (),
    thread_safe: (),
    testing: (),
    dispatch: JumpTable,
}

/// The non-locking slots in [`NoPolicy`].
pub struct NoPolicyParts {
    logger: (),
    observer: (),
    testing: (),
    dispatch: JumpTable,
}

impl PolicyParts for NoPolicyParts {
    type Logger = ();

    type Observer = ();

    type Dispatch = JumpTable;

    type Testing = ();

    fn logger(&self) -> &() {
        &self.logger
    }

    fn logger_mut(&mut self) -> &mut () {
        &mut self.logger
    }

    fn observer(&self) -> &() {
        &self.observer
    }

    fn observer_mut(&mut self) -> &mut () {
        &mut self.observer
    }

    fn dispatch(&self) -> &JumpTable {
        &self.dispatch
    }

    fn testing(&self) -> &() {
        &self.testing
    }
}

impl<E> PolicyQueues<E> for NoPolicyParts {
    type DeferQueue = EventQueue<E, 16>;

    type ProcessQueue = EventQueue<E, 16>;

    fn new_defer_queue(&self) -> (queue: Self::DeferQueue)
        ensures
            holds_no_events::<E>(queue),
    {
        EventQueue::new()
    }

    fn new_process_queue(&self) -> (queue: Self::ProcessQueue)
        ensures
            holds_no_events::<E>(queue),
    {
        EventQueue::new()
    }
}

impl Policies for NoPolicy {
    type Parts = NoPolicyParts;

    type Logger = ();

    type Observer = ();

    type Dispatch = JumpTable;

    type ThreadSafe = ();

    type Testing = ();

    fn logger(&self) -> &() {
        &self.logger
    }

    fn logger_mut(&mut self) -> &mut () {
        &mut self.logger
    }

    fn observer(&self) -> &() {
        &self.observer
    }

    fn observer_mut(&mut self) -> &mut () {
        &mut self.observer
    }

    fn dispatch(&self) -> &JumpTable {
        &self.dispatch
    }

    fn thread_safe(&self) -> &() {
        &self.thread_safe
    }

    fn testing(&self) -> &() {
        &self.testing
    }

    fn into_parts(self) -> (NoPolicyParts, ()) {
        let NoPolicy { logger, observer, thread_safe, testing, dispatch } = self;
        (NoPolicyParts { logger, observer, testing, dispatch }, thread_safe)
    }
}

impl<E> PolicyQueues<E> for NoPolicy {
    type DeferQueue = EventQueue<E, 16>;

    type ProcessQueue = EventQueue<E, 16>;

    fn new_defer_queue(&self) -> (queue: Self::DeferQueue)
        ensures
            holds_no_events::<E>(queue),
    {
        EventQueue::new()
    }

    fn new_process_queue(&self) -> (queue: Self::ProcessQueue)
        ensures
            holds_no_events::<E>(queue),
    {
        EventQueue::new()
    }
}

impl NoPolicy {
    /// The dispatch slot.
    pub closed spec fn spec_dispatch(&self) -> JumpTable {
        self.dispatch
    }
}

impl Default for NoPolicy {
    fn default() -> (policy: Self)
        ensures
            policy.spec_dispatch() == JumpTable,
    {
        NoPolicy { logger: (), observer: (), thread_safe: (), testing: (), dispatch: JumpTable }
    }
}

} // verus!
