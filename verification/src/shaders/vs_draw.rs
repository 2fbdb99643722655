//! Interface of the vertex shader that draws models.

use vstd::prelude::*;

verus! {

/// The input interface of the draw vertex shader.
#[derive(Clone, Copy, Debug, PartialEq, Eq, Structural)]
pub struct VertInput;

impl VertInput {
    /// A cursor over the entries of this interface.
    pub fn elements(&self) -> (it: VertInputIter)
        ensures
            it.0 == 0,
    {
        VertInputIter(0)
    }
}

/// Counter-driven cursor over the entries of [`VertInput`].
#[derive(Clone, Copy, Debug)]
pub struct VertInputIter(pub u16);

impl VertInputIter {
    /// The next interface entry, if any.
    pub fn next(&mut self) -> (r: Option<crate::shaders::InterfaceEntry>)
        ensures
            old(self).0 == 0 ==> final(self).0 == 1 && (r matches Some(e) &&
                e.location_start == 2 && e.location_end == 3 && e.format
                        == crate::shaders::AttributeFormat::R32G32Sfloat && e.name@ == "texture_index"@),
            old(self).0 == 1 ==> final(self).0 == 2 && (r matches Some(e) &&
                e.location_start == 1 && e.location_end == 2 && e.format
                        == crate::shaders::AttributeFormat::R32G32B32Sfloat && e.name@ == "normal"@),
            old(self).0 == 2 ==> final(self).0 == 3 && (r matches Some(e) &&
                e.location_start == 0 && e.location_end == 1 && e.format
                        == crate::shaders::AttributeFormat::R32G32B32Sfloat && e.name@ == "position"@),
            old(self).0 >= 3 ==> r is None && final(self).0 == old(self).0,
    {
        if self.0 == 0 {
            self.0 = self.0 + 1;
            Some(crate::shaders::InterfaceEntry {
                location_start: 2,
                location_end: 3,
                format: crate::shaders::AttributeFormat::R32G32Sfloat,
                name: "texture_index",
            })
        } else if self.0 == 1 {
            self.0 = self.0 + 1;
            Some(crate::shaders::InterfaceEntry {
                location_start: 1,
                location_end: 2,
                format: crate::shaders::AttributeFormat::R32G32B32Sfloat,
                name: "normal",
            })
        } else if self.0 == 2 {
            self.0 = self.0 + 1;
            Some(crate::shaders::InterfaceEntry {
                location_start: 0,
                location_end: 1,
                format: crate::shaders::AttributeFormat::R32G32B32Sfloat,
                name: "position",
            })
        } else {
            None
        }
    }

    /// How many entries remain: exact lower and upper bound.
    pub fn size_hint(&self) -> (r: (usize, Option<usize>))
        requires
            self.0 <= 3,
        ensures
            r.0 == 3 - self.0 && r.1 == Some((3 - self.0) as usize),
    {
        let len: usize = (3 - self.0) as usize;
        (len, Some(len))
    }
}

/// The output interface of the draw vertex shader.
#[derive(Clone, Copy, Debug, PartialEq, Eq, Structural)]
pub struct VertOutput;

impl VertOutput {
    /// A cursor over the entries of this interface.
    pub fn elements(&self) -> (it: VertOutputIter)
        ensures
            it.0 == 0,
    {
        VertOutputIter(0)
    }
}

/// Counter-driven cursor over the entries of [`VertOutput`].
#[derive(Clone, Copy, Debug)]
pub struct VertOutputIter(pub u16);

impl VertOutputIter {
    /// The next interface entry, if any.
    pub fn next(&mut self) -> (r: Option<crate::shaders::InterfaceEntry>)
        ensures
            old(self).0 == 0 ==> final(self).0 == 1 && (r matches Some(e) &&
                e.location_start == 2 && e.location_end == 3 && e.format
                        == crate::shaders::AttributeFormat::R32G32Sfloat && e.name@ == "v_camspace_xy"@),
            old(self).0 == 1 ==> final(self).0 == 2 && (r matches Some(e) &&
                e.location_start == 1 && e.location_end == 2 && e.format
                        == crate::shaders::AttributeFormat::R32G32Sfloat && e.name@ == "v_texture_index"@),
            old(self).0 == 2 ==> final(self).0 == 3 && (r matches Some(e) &&
                e.location_start == 0 && e.location_end == 1 && e.format
                        == crate::shaders::AttributeFormat::R32G32B32Sfloat && e.name@ == "v_normal"@),
            old(self).0 >= 3 ==> r is None && final(self).0 == old(self).0,
    {
        if self.0 == 0 {
            self.0 = self.0 + 1;
            Some(crate::shaders::InterfaceEntry {
                location_start: 2,
                location_end: 3,
                format: crate::shaders::AttributeFormat::R32G32Sfloat,
                name: "v_camspace_xy",
            })
        } else if self.0 == 1 {
            self.0 = self.0 + 1;
            Some(crate::shaders::InterfaceEntry {
                location_start: 1,
                location_end: 2,
                format: crate::shaders::AttributeFormat::R32G32Sfloat,
                name: "v_texture_index",
            })
        } else if self.0 == 2 {
            self.0 = self.0 + 1;
            Some(crate::shaders::InterfaceEntry {
                location_start: 0,
                location_end: 1,
                format: crate::shaders::AttributeFormat::R32G32B32Sfloat,
                name: "v_normal",
            })
        } else {
            None
        }
    }

    /// How many entries remain: exact lower and upper bound.
    pub fn size_hint(&self) -> (r: (usize, Option<usize>))
        requires
            self.0 <= 3,
        ensures
            r.0 == 3 - self.0 && r.1 == Some((3 - self.0) as usize),
    {
        let len: usize = (3 - self.0) as usize;
        (len, Some(len))
    }
}

} // verus!
