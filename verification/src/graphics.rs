//! Graphics-pipeline helpers owned by this crate.

pub mod three_vertex_buffers_definition;
