//! Scripting and scene-mutation core of a real-time 3D engine.
//!
//! Scripts attach to nodes of a scene graph, are scheduled cooperatively
//! once per frame and on input events, and restructure the graph through a
//! deferred-mutation protocol that is reconciled only after a scheduling
//! pass has drained.

pub mod event;
pub mod graphics;
pub mod registration;
pub mod scene;
pub mod scripting;
pub mod shaders;
pub mod space;
