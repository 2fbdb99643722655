//! Engine events and user-defined event containers.
//!
//! Scripts do not reach into other live nodes; a cross-node effect is
//! expressed as an event pushed into the same channel the engine's native
//! input events travel through, and picked up by the target node's own
//! event routine on the next dispatch pass.

use vstd::prelude::*;

use crate::registration::id::ID;

verus! {

/// An engine event, with room for application-defined payloads.
#[derive(Clone, Debug)]
pub enum UserEvent<T> {
    /// The presentation surface must be rebuilt.
    RebuildSwapchain,
    /// Two nodes, named by identifier, collided.
    Collision(ID, ID),
    /// An application-defined event.
    UserEvent(T),
    /// No event.
    NoEvent,
}

/// Anything sized can serve as an engine error value.
pub trait Error: Sized {

}

impl<T: Sized> Error for T {

}

} // verus!
