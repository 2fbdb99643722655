//! Scripting constructs.
//!
//! Each node may carry a script binding: a start routine that runs once,
//! a frame routine that runs every tick, and an optional event-handler
//! routine.  Dispatch walks the tree and *schedules* one task per
//! invocation; nothing runs synchronously during the walk.  The executor
//! then drains the task queue, asking its host to poll each task, and
//! reconciles the structural changes the scripts requested.

pub mod executor;
pub mod globals;
pub mod swap;

use vstd::prelude::*;

use crate::registration::id::ID;

verus! {

/// The work queue is bounded; trying to schedule beyond this is a fatal
/// overload of the engine and is excluded by precondition.
pub const MAX_QUEUED_TASKS: usize = 10000;

/// Which of a script's routines an invocation runs.
#[derive(Clone, Copy, Debug, PartialEq, Eq, Structural)]
pub enum RoutineKind {
    /// The run-once start routine.
    Start,
    /// The per-tick frame routine.
    Frame,
    /// The external-event routine, with the position of the event it
    /// answers in the batch the host drained for this pass — so that a
    /// pass dispatching several events stays correlated.
    EventHandler(usize),
}

/// One scheduled script invocation: a routine of the node with the given
/// identifier.
#[derive(Clone, Copy, Debug, PartialEq, Eq, Structural)]
pub struct Invocation {
    pub target: ID,
    pub routine: RoutineKind,
}

/// A script binding attached to a node.
///
/// The routines themselves live with the executor's host; the binding
/// records the lifecycle state the dispatcher needs: whether the start
/// routine has run, whether an event handler exists, and the script's
/// private state slot.
pub struct Script<G> {
    pub has_started: bool,
    pub globals: Option<G>,
    pub has_event_handler: bool,
}

impl<G> Script<G> {
    /// A fresh binding: not yet started, no state stored.
    pub fn new(has_event_handler: bool) -> (s: Script<G>)
        ensures
            !s.has_started,
            s.globals is None,
            s.has_event_handler == has_event_handler,
    {
        Script { has_started: false, globals: None, has_event_handler }
    }
}

} // verus!
