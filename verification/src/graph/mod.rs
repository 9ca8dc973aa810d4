//! The call graph that summarises a profile.

pub mod builder;
pub mod info;
pub mod laws;
pub mod node;
