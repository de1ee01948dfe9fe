use sml::utility::{
    with_id, DispatchStatus, DispatchSummary, DispatchTable, EventQueue, EventQueues, Hierarchical,
    HierarchicalDispatch, IndexedEvent, OrthogonalRegions, QueueFull, SmPool,
};
use sml::{Machine, Terminated};

#[test]
fn queue_is_first_in_first_out_and_bounded() {
    let mut queue = EventQueue::<usize, 32>::new();
    for value in 0..32 {
        queue.defer(value).unwrap();
    }
    assert_eq!(queue.defer(32), Err(QueueFull));
    assert_eq!(queue.len(), 32);
    for expected in 0..32 {
        assert_eq!(queue.pop(), Some(expected));
    }
    assert_eq!(queue.pop(), None);
    assert!(queue.is_empty());
}

#[test]
fn processed_event_jumps_ahead_of_deferred_events() {
    let mut queue = EventQueue::<u8, 3>::default();
    queue.defer(1).unwrap();
    queue.defer(2).unwrap();
    queue.process(9).unwrap();
    assert_eq!(queue.process(10), Err(QueueFull));
    assert_eq!(queue.pop(), Some(9));
    assert_eq!(queue.pop(), Some(1));
    assert_eq!(queue.pop(), Some(2));
    assert_eq!(queue.pop(), None);
}

#[test]
fn queue_wraps_around_its_ring() {
    let mut queue = EventQueue::<u8, 2>::new();
    for round in 0..10_u8 {
        queue.defer(round).unwrap();
        queue.process(round + 100).unwrap();
        assert_eq!(queue.pop(), Some(round + 100));
        assert_eq!(queue.pop(), Some(round));
    }
    queue.defer(5).unwrap();
    queue.defer(6).unwrap();
    queue.clear();
    assert_eq!(queue.len(), 0);
    assert_eq!(queue.pop(), None);
}

#[test]
fn zero_capacity_queue_refuses_everything() {
    let mut queue = EventQueue::<u8, 0>::new();
    assert_eq!(queue.defer(1), Err(QueueFull));
    assert_eq!(queue.process(1), Err(QueueFull));
    assert_eq!(queue.pop(), None);
}

struct Child {
    steps: u8,
    limit: u8,
}

impl Terminated for Child {
    fn is_terminated(&self) -> bool {
        self.steps >= self.limit
    }
}

#[test]
fn hierarchy_routes_child_first_and_keeps_history() {
    let mut hierarchy = Hierarchical::new(0_u8, Child { steps: 0, limit: 2 });
    assert!(!hierarchy.child_is_active());
    let child = |c: &mut Child, e: u8| {
        if e == 1 {
            c.steps += 1;
            true
        } else {
            false
        }
    };
    let parent = |p: &mut u8, e: u8| {
        if e == 2 {
            *p += 1;
            true
        } else {
            false
        }
    };
    assert_eq!(hierarchy.process_event(1, child, parent), HierarchicalDispatch::Unhandled);
    assert_eq!(hierarchy.child().steps, 0);
    hierarchy.activate_child();
    assert_eq!(hierarchy.process_event(1, child, parent), HierarchicalDispatch::Child);
    assert_eq!(hierarchy.process_event(2, child, parent), HierarchicalDispatch::Parent);
    assert_eq!(*hierarchy.parent(), 1);
    hierarchy.deactivate_child();
    hierarchy.activate_child();
    assert_eq!(hierarchy.child().steps, 1);
    assert_eq!(
        hierarchy.process_event(1, child, parent),
        HierarchicalDispatch::ChildTerminated
    );
    hierarchy.reset_child(Child { steps: 0, limit: 1 });
    assert!(hierarchy.child_is_active());
    assert_eq!(hierarchy.child().steps, 0);
    hierarchy.child_mut().limit = 5;
    *hierarchy.parent_mut() = 40;
    assert_eq!(hierarchy.child().limit, 5);
    assert_eq!(*hierarchy.parent(), 40);
}

#[test]
fn completion_callback_deactivates_terminated_child() {
    let mut hierarchy = Hierarchical::new_active(0_u8, Child { steps: 0, limit: 1 });
    let result = hierarchy.process_event_with_completion(
        1_u8,
        |c: &mut Child, _e: u8| {
            c.steps += 1;
            true
        },
        |_p: &mut u8, _e: u8| false,
        |p: &mut u8| {
            *p = 9;
            true
        },
    );
    assert_eq!(result, HierarchicalDispatch::Parent);
    assert!(!hierarchy.child_is_active());
    assert_eq!(*hierarchy.parent(), 9);
    assert_eq!(hierarchy.child().steps, 1);

    let mut declined = Hierarchical::new_active(0_u8, Child { steps: 0, limit: 1 });
    let result = declined.process_event_with_completion(
        1_u8,
        |c: &mut Child, _e: u8| {
            c.steps += 1;
            true
        },
        |_p: &mut u8, _e: u8| false,
        |_p: &mut u8| false,
    );
    assert_eq!(result, HierarchicalDispatch::ChildTerminated);
    assert!(declined.child_is_active());
}

#[test]
fn queues_drain_processed_events_and_retry_deferred_after_a_change() {
    let mut queues = EventQueues::<u8, 4, 4>::new();
    queues.defer(7).unwrap();
    assert_eq!(queues.deferred_len(), 1);
    let mut machine: Vec<u8> = Vec::new();
    let summary = queues.dispatch(&mut machine, 1, |m: &mut Vec<u8>, q: &mut EventQueues<u8, 4, 4>, e: u8| {
        m.push(e);
        if e == 1 {
            q.process(2).unwrap();
            DispatchStatus { handled: true, transitioned: false }
        } else if e == 2 {
            DispatchStatus { handled: true, transitioned: true }
        } else {
            DispatchStatus { handled: false, transitioned: false }
        }
    });
    assert_eq!(machine, vec![1, 2, 7]);
    assert_eq!(
        summary,
        DispatchSummary { dispatched: 3, handled: 2, transitioned: 1 }
    );
    assert_eq!(queues.processed_len(), 0);
    assert_eq!(queues.deferred_len(), 0);
}

#[test]
fn queues_keep_deferred_events_without_a_state_change() {
    let mut queues = EventQueues::<u8, 2, 2>::default();
    queues.defer(5).unwrap();
    queues.defer(6).unwrap();
    assert_eq!(queues.defer(7), Err(QueueFull));
    let mut count = 0_u32;
    let summary = queues.dispatch(&mut count, 1, |m: &mut u32, _q: &mut EventQueues<u8, 2, 2>, _e: u8| {
        *m += 1;
        DispatchStatus { handled: true, transitioned: false }
    });
    assert_eq!(summary.dispatched, 1);
    assert_eq!(count, 1);
    assert_eq!(queues.deferred_len(), 2);
}

fn add_raw(machine: &mut u32, raw: &u32) -> u32 {
    *machine += raw;
    *machine
}

fn double_raw(machine: &mut u32, raw: &u32) -> u32 {
    *machine += raw * 2;
    *machine
}

#[test]
fn dispatch_table_routes_contiguous_ids() {
    let mut machine = 0_u32;
    let handlers: [fn(&mut u32, &u32) -> u32; 2] = [add_raw, double_raw];
    let mut table = DispatchTable::new(&mut machine, 10, &handlers);
    assert_eq!(table.dispatch(&1, 9), None);
    assert_eq!(table.dispatch(&1, 10), Some(1));
    assert_eq!(table.dispatch(&1, 11), Some(3));
    assert_eq!(table.dispatch(&1, 12), None);
    assert_eq!(*table.machine(), 3);
    *table.machine_mut() = 100;
    assert_eq!(*table.machine(), 100);
}

#[test]
fn pool_dispatches_indexed_events_and_counts_valid_indices() {
    let mut pool = SmPool::new([0_u64; 256]);
    for round in 0..10_000_u64 {
        let index = round as usize % 256;
        pool.process_indexed(index, round, |slot: &mut u64, event: u64| *slot ^= event)
            .unwrap();
    }
    assert!(pool.process_indexed(256, 1, |slot: &mut u64, event: u64| *slot ^= event).is_none());
    let handled = pool.process_event_batch(
        vec![with_id(0, 1_u64), with_id(255, 2), with_id(256, 3)],
        |slot: &mut u64, event: u64| *slot = slot.wrapping_add(event),
    );
    assert_eq!(handled, 2);
}

#[test]
fn pool_batches_and_resets_vector_storage() {
    let mut pool = SmPool::new(vec![0_u8; 4]);
    let handled = pool.process_indexed_batch(&[0, 2, 9, 2], 3_u8, |slot: &mut u8, event: u8| *slot += event);
    assert_eq!(handled, 3);
    assert_eq!(pool.storage(), &vec![3, 0, 6, 0]);
    pool.reset(|index: usize| index as u8);
    assert_eq!(pool.storage(), &vec![0, 1, 2, 3]);
    pool.storage_mut()[1] = 7;
    assert_eq!(pool.storage()[1], 7);
    assert_eq!(
        with_id(4, 'x'),
        IndexedEvent { index: 4, event: 'x' }
    );
}

struct Region {
    accepts: u8,
    seen: u32,
}

impl Machine<u8> for Region {
    type State = u32;

    fn process_event(&mut self, event: u8) -> bool {
        self.seen += 1;
        event == self.accepts
    }
}

#[test]
fn orthogonal_regions_broadcast_to_every_region() {
    let mut regions = OrthogonalRegions::new([
        Region { accepts: 1, seen: 0 },
        Region { accepts: 2, seen: 0 },
        Region { accepts: 1, seen: 0 },
    ]);
    assert_eq!(regions.process_event::<Region, u8>(1), 2);
    assert_eq!(regions.process_event::<Region, u8>(3), 0);
    assert!(regions.regions().iter().all(|region| region.seen == 2));
    regions.regions_mut()[1].accepts = 3;
    assert_eq!(regions.process_event::<Region, u8>(3), 1);
}

#[test]
fn machine_async_processing_reports_acceptance() {
    let mut region = Region { accepts: 4, seen: 0 };
    let mut future = region.process_event_async(4);
    let waker = std::task::Waker::noop();
    let mut context = std::task::Context::from_waker(waker);
    let pinned = std::pin::Pin::new(&mut future);
    assert_eq!(
        std::future::Future::poll(pinned, &mut context),
        std::task::Poll::Ready(true)
    );
    assert_eq!(region.seen, 1);
}

#[test]
fn event_name_uses_the_final_type_path_component() {
    // An event's name is the last component of its Rust type name.
    assert_eq!(sml::final_path_component("sml::tests::TestEvent"), "TestEvent");
    assert_eq!(sml::final_path_component("TestEvent"), "TestEvent");
    assert_eq!(sml::final_path_component("a::b::<c::D>::E"), "E");
}
