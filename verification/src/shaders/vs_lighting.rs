//! Interface of the vertex shader of the lighting passes.

use vstd::prelude::*;

verus! {

/// The input interface of the lighting vertex shader.
#[derive(Clone, Copy, Debug, PartialEq, Eq, Structural)]
pub struct VertInput;

impl VertInput {
    /// A cursor over the entries of this interface.
    pub fn elements(&self) -> (it: VertInputIter)
        ensures
            it.0 == 0,
    {
        VertInputIter(0)
    }
}

/// Counter-driven cursor over the entries of [`VertInput`].
#[derive(Clone, Copy, Debug)]
pub struct VertInputIter(pub u16);

impl VertInputIter {
    /// The next interface entry, if any.
    pub fn next(&mut self) -> (r: Option<crate::shaders::InterfaceEntry>)
        ensures
            old(self).0 == 0 ==> final(self).0 == 1 && (r matches Some(e) &&
                e.location_start == 0 && e.location_end == 1 && e.format
                        == crate::shaders::AttributeFormat::R32G32Sfloat && e.name@ == "position"@),
            old(self).0 >= 1 ==> r is None && final(self).0 == old(self).0,
    {
        if self.0 == 0 {
            self.0 = self.0 + 1;
            Some(crate::shaders::InterfaceEntry {
                location_start: 0,
                location_end: 1,
                format: crate::shaders::AttributeFormat::R32G32Sfloat,
                name: "position",
            })
        } else {
            None
        }
    }

    /// How many entries remain: exact lower and upper bound.
    pub fn size_hint(&self) -> (r: (usize, Option<usize>))
        requires
            self.0 <= 1,
        ensures
            r.0 == 1 - self.0 && r.1 == Some((1 - self.0) as usize),
    {
        let len: usize = (1 - self.0) as usize;
        (len, Some(len))
    }
}

/// The output interface of the lighting vertex shader.
#[derive(Clone, Copy, Debug, PartialEq, Eq, Structural)]
pub struct VertOutput;

impl VertOutput {
    /// A cursor over the entries of this interface.
    pub fn elements(&self) -> (it: VertOutputIter)
        ensures
            it.0 == 0,
    {
        VertOutputIter(0)
    }
}

/// Counter-driven cursor over the entries of [`VertOutput`].
#[derive(Clone, Copy, Debug)]
pub struct VertOutputIter(pub u16);

impl VertOutputIter {
    /// The next interface entry, if any.
    pub fn next(&mut self) -> (r: Option<crate::shaders::InterfaceEntry>)
        ensures
            r is None,
            final(self).0 == old(self).0,
    {
        None
    }

    /// How many entries remain: exact lower and upper bound.
    pub fn size_hint(&self) -> (r: (usize, Option<usize>))
        ensures
            r.0 == 0 && r.1 == Some(0usize),
    {
        (0, Some(0))
    }
}

} // verus!
