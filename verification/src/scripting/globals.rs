//! Shared state slots for scripts.
//!
//! A script keeps its private mutable state across frames in a "global":
//! any cloneable value the script author chooses.  The engine never looks
//! inside the value; it only stores it on the node and hands clones back.
//! A script must read back the same concrete type it wrote, which is
//! guaranteed here by making the state type a parameter of the scene
//! rather than an erased box.

use vstd::prelude::*;

verus! {

/// Cloning for script state.  Every cloneable type gets this for free.
pub trait GlobalClone: Sized {
    fn clone_global(&self) -> Self;
}

impl<T: Clone> GlobalClone for T {
    fn clone_global(&self) -> Self {
        self.clone()
    }
}

/// A value usable as a script's private state slot.
pub trait Global: GlobalClone {

}

} // verus!
