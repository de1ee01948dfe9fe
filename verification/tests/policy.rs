use sml::utility::EventQueue;
use sml::{
    BranchStm, DefaultQueuePolicy, Dispatch, JumpTable, NoPolicy, Observer, Policies,
    PolicyBundle, PolicyParts, PolicyQueues, Queue, QueuePolicy, RawMutex, SwitchStm, Testing,
    TestingPolicy, ThreadSafe, ThreadSafety,
};

#[test]
fn dispatch_strategies_and_testing_markers_have_their_defaults() {
    assert!(JumpTable.dispatch("event"));
    assert!(BranchStm.dispatch("event"));
    assert!(SwitchStm.dispatch("event"));
    fn assert_testing<T: Testing>() {}
    assert_testing::<()>();
    assert_testing::<TestingPolicy>();
}

#[test]
fn queue_and_policy_accessors_are_all_allocation_free() {
    let mut queue: EventQueue<u8, 2> = <EventQueue<u8, 2> as Queue<u8>>::new();
    assert!(<EventQueue<u8, 2> as Queue<u8>>::defer(&mut queue, 1).is_ok());
    assert!(<EventQueue<u8, 2> as Queue<u8>>::process(&mut queue, 2).is_ok());
    assert_eq!(<EventQueue<u8, 2> as Queue<u8>>::pop(&mut queue), Some(2));
    assert_eq!(<EventQueue<u8, 2> as Queue<u8>>::pop(&mut queue), Some(1));
    assert_eq!(<EventQueue<u8, 2> as Queue<u8>>::pop(&mut queue), None);

    let queue_policy = DefaultQueuePolicy;
    let mut default_queue: EventQueue<u8, 16> =
        <DefaultQueuePolicy as QueuePolicy<u8>>::new_queue(&queue_policy);
    assert!(<EventQueue<u8, 16> as Queue<u8>>::defer(&mut default_queue, 3).is_ok());
    assert_eq!(
        <EventQueue<u8, 16> as Queue<u8>>::pop(&mut default_queue),
        Some(3)
    );

    let mut bundle = PolicyBundle::<(), (), JumpTable>::new(
        (),
        (),
        (),
        (),
        DefaultQueuePolicy,
        DefaultQueuePolicy,
    );
    let _ = Policies::logger(&bundle);
    let _ = Policies::logger_mut(&mut bundle);
    let _ = Policies::observer(&bundle);
    let _ = Policies::observer_mut(&mut bundle);
    let _ = Policies::dispatch(&bundle);
    let _ = Policies::thread_safe(&bundle);
    let _ = Policies::testing(&bundle);
    let _: EventQueue<u8, 16> = PolicyQueues::<u8>::new_defer_queue(&bundle);
    let _: EventQueue<u8, 16> = PolicyQueues::<u8>::new_process_queue(&bundle);
    let (bundle_parts, _) = Policies::into_parts(bundle);
    let _ = PolicyParts::testing(&bundle_parts);
    let _: EventQueue<u8, 16> = PolicyQueues::<u8>::new_defer_queue(&bundle_parts);
    let _: EventQueue<u8, 16> = PolicyQueues::<u8>::new_process_queue(&bundle_parts);

    let mut no_policy = NoPolicy::default();
    let _ = Policies::logger(&no_policy);
    let _ = Policies::logger_mut(&mut no_policy);
    let _ = Policies::observer(&no_policy);
    let _ = Policies::observer_mut(&mut no_policy);
    let _ = Policies::dispatch(&no_policy);
    let _ = Policies::thread_safe(&no_policy);
    let _ = Policies::testing(&no_policy);
    let _: EventQueue<u8, 16> = PolicyQueues::<u8>::new_defer_queue(&no_policy);
    let _: EventQueue<u8, 16> = PolicyQueues::<u8>::new_process_queue(&no_policy);
    let (no_policy_parts, _) = Policies::into_parts(no_policy);
    let _ = PolicyParts::logger(&no_policy_parts);
    let _ = PolicyParts::observer(&no_policy_parts);
    let _ = PolicyParts::testing(&no_policy_parts);
}

#[test]
fn default_observer_hooks_are_callable() {
    let mut observer = ();
    Observer::observe_process_event(&mut observer, "event");
    Observer::observe_state_change(&mut observer, "Idle", "Ready");
    Observer::observe_action(&mut observer, "act", "event");
    Observer::observe_guard(&mut observer, "allow", "event", true);
}

#[test]
fn std_mutex_is_a_raw_mutex_adapter() {
    let mutex = std::sync::Mutex::new(());
    let guard = <std::sync::Mutex<()> as RawMutex>::lock(&mutex);
    drop(guard);
}

#[test]
fn spin_mutex_is_a_raw_mutex_adapter() {
    let mutex = spin::Mutex::new(());
    let guard = <spin::Mutex<()> as RawMutex>::lock(&mutex);
    drop(guard);
}

#[test]
fn thread_safe_policy_locks_through_its_raw_mutex() {
    let policy = ThreadSafe::new(std::sync::Mutex::new(7_u8));
    let guard = ThreadSafety::lock(&policy);
    assert_eq!(*guard, 7);
    drop(guard);
    let unit: () = ();
    let _nothing = ThreadSafety::lock(&unit);
}

#[derive(Debug, PartialEq)]
struct CountingLogger(u8);

impl sml::Logger for CountingLogger {
    fn log_process_event(&mut self, _event: &'static str) {
        self.0 += 1;
    }
}

#[derive(Debug, PartialEq)]
struct CountingObserver(u16);

impl Observer for CountingObserver {}

#[test]
fn bundle_parts_keep_every_slot() {
    let mut bundle = PolicyBundle::<
        CountingLogger,
        CountingObserver,
        JumpTable,
        u32,
        (),
        DefaultQueuePolicy,
        DefaultQueuePolicy,
    >::with_dispatch(
        JumpTable,
        CountingLogger(1),
        CountingObserver(2),
        3,
        (),
        DefaultQueuePolicy,
        DefaultQueuePolicy,
    );
    sml::Logger::log_process_event(Policies::logger_mut(&mut bundle), "event");
    assert_eq!(*Policies::logger(&bundle), CountingLogger(2));
    assert_eq!(*Policies::observer(&bundle), CountingObserver(2));
    assert_eq!(*Policies::thread_safe(&bundle), 3);
    let (parts, lock) = bundle.into_parts();
    assert_eq!(lock, 3);
    assert_eq!(*PolicyParts::logger(&parts), CountingLogger(2));
    assert_eq!(*PolicyParts::observer(&parts), CountingObserver(2));
}

#[test]
fn custom_dispatch_candidate_defaults_to_accepting() {
    struct Gate;
    impl Dispatch for Gate {
        fn dispatch(&self, event: &'static str) -> bool {
            event != "Reject"
        }
    }
    assert!(!Gate.dispatch("Reject"));
    assert!(Gate.dispatch_candidate("Idle", "Accept", 3));
}
