//! A vertex definition spanning three separate vertex buffers.

use vstd::prelude::*;

verus! {

/// A vertex-definition marker for pipelines that read positions, normals
/// and texture indices from three separate buffers.
pub struct ThreeBuffersDefinition<T, U, I>(pub core::marker::PhantomData<(T, U, I)>);

impl<T, U, I> ThreeBuffersDefinition<T, U, I> {
    /// The marker value.
    pub fn new() -> ThreeBuffersDefinition<T, U, I> {
        ThreeBuffersDefinition(core::marker::PhantomData)
    }
}

} // verus!
