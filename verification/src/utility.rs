//! Allocation-free utilities for runtime dispatch and groups of state machines.

mod hierarchical;
mod pool;
mod queue;
mod queues;
mod table;

pub use hierarchical::{Hierarchical, HierarchicalDispatch};
pub use queue::{
    law_deferred_event_leaves_last, law_pops_return_events_in_queue_order,
    law_processed_event_leaves_first, popped, ring_slot, EventQueue, QueueFull,
};
pub use queues::{DispatchStatus, DispatchSummary, EventQueues};
pub use table::{handler_index, DispatchTable};
pub use pool::{
    accepted_count, broadcast,
    batch_indices, valid_index_count, with_id, IndexedEvent, MachineStorage,
    OrthogonalRegions, SmPool,
};
