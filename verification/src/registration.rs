//! Registration: identity and class bookkeeping for scene entities.

pub mod class;
pub mod relation;
pub mod id;
