//! Deferred structural mutation requests.
//!
//! A script must not restructure the tree while its own node is being
//! ticked, so it *describes* the change instead.  The requests are
//! collected during a scheduling pass and applied by reconciliation once
//! the pass has drained.

use vstd::prelude::*;

use crate::registration::id::ID;
use crate::scene::game_object::GameObjectNode;

verus! {

/// A deferred structural change to the scene tree.
pub enum Swap<G> {
    /// Replace the node with the given identifier by the carried node,
    /// keeping the old node's children: they are re-parented onto the
    /// replacement, after the replacement's own children.
    SwapParent(ID, GameObjectNode<G>),
    /// Replace the node with the given identifier, and its whole subtree,
    /// by the carried node and its subtree.
    SwapFull(ID, GameObjectNode<G>),
    /// Delete the node with the given identifier, and its whole subtree.
    Delete(ID),
    /// No change requested.
    NoSwap,
}

impl<G> Swap<G> {
    /// The identifier this request targets, if it targets one.
    pub fn get_id(&self) -> (r: Result<&ID, &'static str>)
        ensures
            match self {
                Swap::SwapParent(id, _) => r == Result::<&ID, &'static str>::Ok(id),
                Swap::SwapFull(id, _) => r == Result::<&ID, &'static str>::Ok(id),
                Swap::Delete(id) => r == Result::<&ID, &'static str>::Ok(id),
                Swap::NoSwap => r is Err,
            },
    {
        match self {
            Swap::SwapParent(id, _) => Ok(id),
            Swap::SwapFull(id, _) => Ok(id),
            Swap::Delete(id) => Ok(id),
            Swap::NoSwap => Err("None type has no ID"),
        }
    }

    /// The identifier this request targets, at the spec level.
    pub open spec fn spec_target(self) -> Option<ID> {
        match self {
            Swap::SwapParent(id, _) => Some(id),
            Swap::SwapFull(id, _) => Some(id),
            Swap::Delete(id) => Some(id),
            Swap::NoSwap => None,
        }
    }
}

} // verus!
