//! Parent and child machines with child-first routing and shallow history.

use crate::Terminated;
use vstd::prelude::*;

verus! {

/// Result of hierarchical child-first event routing.
#[derive(Clone, Copy, Debug, PartialEq, Eq, Structural)]
pub enum HierarchicalDispatch {
    /// The active child handled the event and remains active.
    Child,
    /// The child handled the event and reached its terminal state.
    ChildTerminated,
    /// The parent handled the event.
    Parent,
    /// Neither active machine handled the event.
    Unhandled,
}

/// Parent and child state machines with child-first event routing and retained
/// shallow history.
///
/// Deactivating a child does not reset it. Reactivating it therefore resumes
/// its previous state; `reset_child` explicitly replaces that history.
pub struct Hierarchical<P, C> {
    parent: P,
    child: C,
    child_active: bool,
}

impl<P, C> Hierarchical<P, C> {
    /// The parent machine.
    pub closed spec fn spec_parent(&self) -> P {
        self.parent
    }

    /// The child machine, including its retained history while inactive.
    pub closed spec fn spec_child(&self) -> C {
        self.child
    }

    /// Whether events are currently offered to the child.
    pub closed spec fn spec_child_active(&self) -> bool {
        self.child_active
    }

    /// Creates a hierarchy with an inactive child.
    pub fn new(parent: P, child: C) -> (hierarchy: Self)
        ensures
            hierarchy.spec_parent() == parent,
            hierarchy.spec_child() == child,
            !hierarchy.spec_child_active(),
    {
        Hierarchical { parent, child, child_active: false }
    }

    /// Creates a hierarchy whose child starts active.
    pub fn new_active(parent: P, child: C) -> (hierarchy: Self)
        ensures
            hierarchy.spec_parent() == parent,
            hierarchy.spec_child() == child,
            hierarchy.spec_child_active(),
    {
        Hierarchical { parent, child, child_active: true }
    }

    /// Activates the child, preserving its previous state.
    pub fn activate_child(&mut self)
        ensures
            final(self).spec_child_active(),
            final(self).spec_child() == old(self).spec_child(),
            final(self).spec_parent() == old(self).spec_parent(),
    {
        self.child_active = true;
    }

    /// Deactivates the child while preserving shallow history.
    pub fn deactivate_child(&mut self)
        ensures
            !final(self).spec_child_active(),
            final(self).spec_child() == old(self).spec_child(),
            final(self).spec_parent() == old(self).spec_parent(),
    {
        self.child_active = false;
    }

    /// Replaces the child and activates its new initial state.
    pub fn reset_child(&mut self, child: C)
        ensures
            final(self).spec_child_active(),
            final(self).spec_child() == child,
            final(self).spec_parent() == old(self).spec_parent(),
    {
        self.child = child;
        self.child_active = true;
    }

    /// Returns true when the child is active.
    pub fn child_is_active(&self) -> (active: bool)
        ensures
            active == self.spec_child_active(),
    {
        self.child_active
    }

    /// Returns the parent machine.
    pub fn parent(&self) -> (parent: &P)
        ensures
            *parent == self.spec_parent(),
    {
        &self.parent
    }

    /// Returns the parent machine mutably.
    pub fn parent_mut(&mut self) -> (parent: &mut P)
        ensures
            *parent == old(self).spec_parent(),
            final(self).spec_parent() == *final(parent),
            final(self).spec_child() == old(self).spec_child(),
            final(self).spec_child_active() == old(self).spec_child_active(),
    {
        &mut self.parent
    }

    /// Returns the child machine.
    pub fn child(&self) -> (child: &C)
        ensures
            *child == self.spec_child(),
    {
        &self.child
    }

    /// Returns the child machine mutably.
    pub fn child_mut(&mut self) -> (child: &mut C)
        ensures
            *child == old(self).spec_child(),
            final(self).spec_child() == *final(child),
            final(self).spec_parent() == old(self).spec_parent(),
            final(self).spec_child_active() == old(self).spec_child_active(),
    {
        &mut self.child
    }

    /// Routes an event to the active child first and bubbles unhandled events
    /// to the parent.
    ///
    /// An active child receives a clone of the event. When it handles the
    /// event the parent is left untouched and the result tells whether the
    /// child has terminated; otherwise the parent receives the event.
    pub fn process_event<E, FC, FP>(
        &mut self,
        event: E,
        mut child_dispatch: FC,
        mut parent_dispatch: FP,
    ) -> (routed: HierarchicalDispatch) where
        E: Clone,
        C: Terminated,
        FC: FnMut(&mut C, E) -> bool,
        FP: FnMut(&mut P, E) -> bool,

        requires
            forall|child: &mut C, e: E| call_requires(child_dispatch, (child, e)),
            forall|parent: &mut P, e: E| call_requires(parent_dispatch, (parent, e)),
        ensures
            final(self).spec_child_active() == old(self).spec_child_active(),
            !old(self).spec_child_active() ==> final(self).spec_child() == old(self).spec_child(),
            routed == HierarchicalDispatch::Child || routed == HierarchicalDispatch::ChildTerminated
                ==> {
                &&& old(self).spec_child_active()
                &&& final(self).spec_parent() == old(self).spec_parent()
                &&& exists|child: &mut C, copy: E|
                    cloned(event, copy) && mut_ref_current(child) == old(self).spec_child()
                        && mut_ref_future(child) == final(self).spec_child() && call_ensures(
                        child_dispatch,
                        (child, copy),
                        true,
                    )
                &&& call_ensures(
                    C::is_terminated,
                    (&final(self).spec_child(),),
                    routed == HierarchicalDispatch::ChildTerminated,
                )
            },
            routed == HierarchicalDispatch::Parent || routed == HierarchicalDispatch::Unhandled
                ==> {
                &&& old(self).spec_child_active() ==> exists|child: &mut C, copy: E|
                    cloned(event, copy) && mut_ref_current(child) == old(self).spec_child()
                        && mut_ref_future(child) == final(self).spec_child() && call_ensures(
                        child_dispatch,
                        (child, copy),
                        false,
                    )
                &&& exists|parent: &mut P|
                    mut_ref_current(parent) == old(self).spec_parent() && mut_ref_future(parent)
                        == final(self).spec_parent() && call_ensures(
                        parent_dispatch,
                        (parent, event),
                        routed == HierarchicalDispatch::Parent,
                    )
            },
    {
        if self.child_active {
            let child_event = event.clone();
            let handled = child_dispatch(&mut self.child, child_event);
            if handled {
                let terminated = self.child.is_terminated();
                return if terminated {
                    HierarchicalDispatch::ChildTerminated
                } else {
                    HierarchicalDispatch::Child
                };
            }
        }
        if parent_dispatch(&mut self.parent, event) {
            HierarchicalDispatch::Parent
        } else {
            HierarchicalDispatch::Unhandled
        }
    }
    /// Routes an event like `process_event` and propagates child termination
    /// to a parent completion callback.
    ///
    /// When the callback handles completion, the child is deactivated while
    /// retaining its state as shallow history and the parent is reported as
    /// the handler.
    pub fn process_event_with_completion<E, FC, FP, FT>(
        &mut self,
        event: E,
        mut child_dispatch: FC,
        mut parent_dispatch: FP,
        mut child_completion: FT,
    ) -> (routed: HierarchicalDispatch) where
        E: Clone,
        C: Terminated,
        FC: FnMut(&mut C, E) -> bool,
        FP: FnMut(&mut P, E) -> bool,
        FT: FnMut(&mut P) -> bool,

        requires
            forall|child: &mut C, e: E| call_requires(child_dispatch, (child, e)),
            forall|parent: &mut P, e: E| call_requires(parent_dispatch, (parent, e)),
            forall|parent: &mut P| call_requires(child_completion, (parent,)),
        ensures
            !old(self).spec_child_active() ==> final(self).spec_child() == old(self).spec_child(),
            // The child handled the event: it is reported unless a completion
            // callback took over after its termination.
            routed == HierarchicalDispatch::Child || routed == HierarchicalDispatch::ChildTerminated
                ==> {
                &&& old(self).spec_child_active()
                &&& final(self).spec_child_active()
                &&& exists|child: &mut C, copy: E|
                    cloned(event, copy) && mut_ref_current(child) == old(self).spec_child()
                        && mut_ref_future(child) == final(self).spec_child() && call_ensures(
                        child_dispatch,
                        (child, copy),
                        true,
                    )
                &&& call_ensures(
                    C::is_terminated,
                    (&final(self).spec_child(),),
                    routed == HierarchicalDispatch::ChildTerminated,
                )
                &&& routed == HierarchicalDispatch::Child ==> final(self).spec_parent() == old(
                    self,
                ).spec_parent()
                &&& routed == HierarchicalDispatch::ChildTerminated ==> exists|parent: &mut P|
                    mut_ref_current(parent) == old(self).spec_parent() && mut_ref_future(parent)
                        == final(self).spec_parent() && call_ensures(
                        child_completion,
                        (parent,),
                        false,
                    )
            },
            // The parent completed the terminated child.
            routed == HierarchicalDispatch::Parent && !final(self).spec_child_active()
                && old(self).spec_child_active() ==> {
                &&& exists|child: &mut C, copy: E|
                    cloned(event, copy) && mut_ref_current(child) == old(self).spec_child()
                        && mut_ref_future(child) == final(self).spec_child() && call_ensures(
                        child_dispatch,
                        (child, copy),
                        true,
                    )
                &&& call_ensures(C::is_terminated, (&final(self).spec_child(),), true)
                &&& exists|parent: &mut P|
                    mut_ref_current(parent) == old(self).spec_parent() && mut_ref_future(parent)
                        == final(self).spec_parent() && call_ensures(
                        child_completion,
                        (parent,),
                        true,
                    )
            },
            // The event bubbled to the parent.
            routed == HierarchicalDispatch::Unhandled || (routed == HierarchicalDispatch::Parent
                && final(self).spec_child_active() == old(self).spec_child_active()) ==> {
                &&& final(self).spec_child_active() == old(self).spec_child_active()
                &&& old(self).spec_child_active() ==> exists|child: &mut C, copy: E|
                    cloned(event, copy) && mut_ref_current(child) == old(self).spec_child()
                        && mut_ref_future(child) == final(self).spec_child() && call_ensures(
                        child_dispatch,
                        (child, copy),
                        false,
                    )
                &&& exists|parent: &mut P|
                    mut_ref_current(parent) == old(self).spec_parent() && mut_ref_future(parent)
                        == final(self).spec_parent() && call_ensures(
                        parent_dispatch,
                        (parent, event),
                        routed == HierarchicalDispatch::Parent,
                    )
            },
            final(self).spec_child_active() != old(self).spec_child_active() ==> routed
                == HierarchicalDispatch::Parent && !final(self).spec_child_active(),
    {
        if self.child_active {
            let child_event = event.clone();
            let handled = child_dispatch(&mut self.child, child_event);
            if handled {
                let terminated = self.child.is_terminated();
                if terminated {
                    if child_completion(&mut self.parent) {
                        self.child_active = false;
                        return HierarchicalDispatch::Parent;
                    }
                    return HierarchicalDispatch::ChildTerminated;
                }
                return HierarchicalDispatch::Child;
            }
        }
        if parent_dispatch(&mut self.parent, event) {
            HierarchicalDispatch::Parent
        } else {
            HierarchicalDispatch::Unhandled
        }
    }
}

} // verus!
