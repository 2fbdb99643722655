//! Interface of the fragment shader of the ambient pass.

use vstd::prelude::*;

verus! {

/// The input interface of the ambient fragment shader.
#[derive(Clone, Copy, Debug, PartialEq, Eq, Structural)]
pub struct FragInput;

impl FragInput {
    /// A cursor over the entries of this interface.
    pub fn elements(&self) -> (it: FragInputIter)
        ensures
            it.0 == 0,
    {
        FragInputIter(0)
    }
}

/// Counter-driven cursor over the entries of [`FragInput`].
#[derive(Clone, Copy, Debug)]
pub struct FragInputIter(pub u16);

impl FragInputIter {
    /// The next interface entry, if any.
    pub fn next(&mut self) -> (r: Option<crate::shaders::InterfaceEntry>)
        ensures
            r is None,
            final(self).0 == old(self).0,
    {
        None
    }

    /// How many entries remain: exact lower and upper bound.
    pub fn size_hint(&self) -> (r: (usize, Option<usize>))
        ensures
            r.0 == 0 && r.1 == Some(0usize),
    {
        (0, Some(0))
    }
}

/// The output interface of the ambient fragment shader.
#[derive(Clone, Copy, Debug, PartialEq, Eq, Structural)]
pub struct FragOutput;

impl FragOutput {
    /// A cursor over the entries of this interface.
    pub fn elements(&self) -> (it: FragOutputIter)
        ensures
            it.0 == 0,
    {
        FragOutputIter(0)
    }
}

/// Counter-driven cursor over the entries of [`FragOutput`].
#[derive(Clone, Copy, Debug)]
pub struct FragOutputIter(pub u16);

impl FragOutputIter {
    /// The next interface entry, if any.
    pub fn next(&mut self) -> (r: Option<crate::shaders::InterfaceEntry>)
        ensures
            old(self).0 == 0 ==> final(self).0 == 1 && (r matches Some(e) &&
                e.location_start == 0 && e.location_end == 1 && e.format
                        == crate::shaders::AttributeFormat::R32G32B32A32Sfloat && e.name@ == "f_color"@),
            old(self).0 >= 1 ==> r is None && final(self).0 == old(self).0,
    {
        if self.0 == 0 {
            self.0 = self.0 + 1;
            Some(crate::shaders::InterfaceEntry {
                location_start: 0,
                location_end: 1,
                format: crate::shaders::AttributeFormat::R32G32B32A32Sfloat,
                name: "f_color",
            })
        } else {
            None
        }
    }

    /// How many entries remain: exact lower and upper bound.
    pub fn size_hint(&self) -> (r: (usize, Option<usize>))
        requires
            self.0 <= 1,
        ensures
            r.0 == 1 - self.0 && r.1 == Some((1 - self.0) as usize),
    {
        let len: usize = (1 - self.0) as usize;
        (len, Some(len))
    }
}

} // verus!
