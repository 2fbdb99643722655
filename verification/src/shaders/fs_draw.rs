//! Interface of the fragment shader that draws models.

use vstd::prelude::*;

verus! {

/// The input interface of the draw fragment shader.
#[derive(Clone, Copy, Debug, PartialEq, Eq, Structural)]
pub struct FragInput;

impl FragInput {
    /// A cursor over the entries of this interface.
    pub fn elements(&self) -> (it: FragInputIter)
        ensures
            it.0 == 0,
    {
        FragInputIter(0)
    }
}

/// Counter-driven cursor over the entries of [`FragInput`].
#[derive(Clone, Copy, Debug)]
pub struct FragInputIter(pub u16);

impl FragInputIter {
    /// The next interface entry, if any.
    pub fn next(&mut self) -> (r: Option<crate::shaders::InterfaceEntry>)
        ensures
            old(self).0 == 0 ==> final(self).0 == 1 && (r matches Some(e) &&
                e.location_start == 0 && e.location_end == 1 && e.format
                        == crate::shaders::AttributeFormat::R32G32B32Sfloat && e.name@ == "v_normal"@),
            old(self).0 == 1 ==> final(self).0 == 2 && (r matches Some(e) &&
                e.location_start == 1 && e.location_end == 2 && e.format
                        == crate::shaders::AttributeFormat::R32G32Sfloat && e.name@ == "v_texture_index"@),
            old(self).0 == 2 ==> final(self).0 == 3 && (r matches Some(e) &&
                e.location_start == 2 && e.location_end == 3 && e.format
                        == crate::shaders::AttributeFormat::R32G32Sfloat && e.name@ == "v_camspace_xy"@),
            old(self).0 >= 3 ==> r is None && final(self).0 == old(self).0,
    {
        if self.0 == 0 {
            self.0 = self.0 + 1;
            Some(crate::shaders::InterfaceEntry {
                location_start: 0,
                location_end: 1,
                format: crate::shaders::AttributeFormat::R32G32B32Sfloat,
                name: "v_normal",
            })
        } else if self.0 == 1 {
            self.0 = self.0 + 1;
            Some(crate::shaders::InterfaceEntry {
                location_start: 1,
                location_end: 2,
                format: crate::shaders::AttributeFormat::R32G32Sfloat,
                name: "v_texture_index",
            })
        } else if self.0 == 2 {
            self.0 = self.0 + 1;
            Some(crate::shaders::InterfaceEntry {
                location_start: 2,
                location_end: 3,
                format: crate::shaders::AttributeFormat::R32G32Sfloat,
                name: "v_camspace_xy",
            })
        } else {
            None
        }
    }

    /// How many entries remain: exact lower and upper bound.
    pub fn size_hint(&self) -> (r: (usize, Option<usize>))
        requires
            self.0 <= 3,
        ensures
            r.0 == 3 - self.0 && r.1 == Some((3 - self.0) as usize),
    {
        let len: usize = (3 - self.0) as usize;
        (len, Some(len))
    }
}

/// The output interface of the draw fragment shader.
#[derive(Clone, Copy, Debug, PartialEq, Eq, Structural)]
pub struct FragOutput;

impl FragOutput {
    /// A cursor over the entries of this interface.
    pub fn elements(&self) -> (it: FragOutputIter)
        ensures
            it.0 == 0,
    {
        FragOutputIter(0)
    }
}

/// Counter-driven cursor over the entries of [`FragOutput`].
#[derive(Clone, Copy, Debug)]
pub struct FragOutputIter(pub u16);

impl FragOutputIter {
    /// The next interface entry, if any.
    pub fn next(&mut self) -> (r: Option<crate::shaders::InterfaceEntry>)
        ensures
            old(self).0 == 0 ==> final(self).0 == 1 && (r matches Some(e) &&
                e.location_start == 3 && e.location_end == 4 && e.format
                        == crate::shaders::AttributeFormat::R32G32B32A32Sfloat && e.name@ == "f_specular"@),
            old(self).0 == 1 ==> final(self).0 == 2 && (r matches Some(e) &&
                e.location_start == 2 && e.location_end == 3 && e.format
                        == crate::shaders::AttributeFormat::R32G32B32A32Sfloat && e.name@ == "f_ambient"@),
            old(self).0 == 2 ==> final(self).0 == 3 && (r matches Some(e) &&
                e.location_start == 1 && e.location_end == 2 && e.format
                        == crate::shaders::AttributeFormat::R32G32B32A32Sfloat && e.name@ == "f_diffuse"@),
            old(self).0 == 3 ==> final(self).0 == 4 && (r matches Some(e) &&
                e.location_start == 0 && e.location_end == 1 && e.format
                        == crate::shaders::AttributeFormat::R32G32B32A32Sfloat && e.name@ == "f_normals"@),
            old(self).0 >= 4 ==> r is None && final(self).0 == old(self).0,
    {
        if self.0 == 0 {
            self.0 = self.0 + 1;
            Some(crate::shaders::InterfaceEntry {
                location_start: 3,
                location_end: 4,
                format: crate::shaders::AttributeFormat::R32G32B32A32Sfloat,
                name: "f_specular",
            })
        } else if self.0 == 1 {
            self.0 = self.0 + 1;
            Some(crate::shaders::InterfaceEntry {
                location_start: 2,
                location_end: 3,
                format: crate::shaders::AttributeFormat::R32G32B32A32Sfloat,
                name: "f_ambient",
            })
        } else if self.0 == 2 {
            self.0 = self.0 + 1;
            Some(crate::shaders::InterfaceEntry {
                location_start: 1,
                location_end: 2,
                format: crate::shaders::AttributeFormat::R32G32B32A32Sfloat,
                name: "f_diffuse",
            })
        } else if self.0 == 3 {
            self.0 = self.0 + 1;
            Some(crate::shaders::InterfaceEntry {
                location_start: 0,
                location_end: 1,
                format: crate::shaders::AttributeFormat::R32G32B32A32Sfloat,
                name: "f_normals",
            })
        } else {
            None
        }
    }

    /// How many entries remain: exact lower and upper bound.
    pub fn size_hint(&self) -> (r: (usize, Option<usize>))
        requires
            self.0 <= 4,
        ensures
            r.0 == 4 - self.0 && r.1 == Some((4 - self.0) as usize),
    {
        let len: usize = (4 - self.0) as usize;
        (len, Some(len))
    }
}

} // verus!
