//! Shader interface descriptions.
//!
//! Each shader module describes the inputs and outputs of one compiled
//! shader stage: for every attribute, its location range, its format and
//! its name.  The descriptions are walked through small counter-driven
//! cursors, one entry per step.

pub mod fs_draw;
pub mod fs_lighting_ambient;
pub mod fs_lighting_directional;
pub mod fs_lighting_point;
pub mod vs_draw;
pub mod vs_lighting;

use vstd::prelude::*;

verus! {

/// The format of one shader interface attribute.
#[derive(Clone, Copy, Debug, PartialEq, Eq, Structural)]
pub enum AttributeFormat {
    /// Two 32-bit signed floats.
    R32G32Sfloat,
    /// Three 32-bit signed floats.
    R32G32B32Sfloat,
    /// Four 32-bit signed floats.
    R32G32B32A32Sfloat,
}

/// One entry of a shader stage's interface: an attribute with its
/// location range, format and name.
#[derive(Clone, Copy, Debug)]
pub struct InterfaceEntry {
    pub location_start: u32,
    pub location_end: u32,
    pub format: AttributeFormat,
    pub name: &'static str,
}

} // verus!
