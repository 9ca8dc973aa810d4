//! Decoding, linking, validation and rendering of pprof performance profiles,
//! and the call graph that is built from a decoded profile.

pub mod errors;
pub mod graph;
pub mod http_server;
pub mod keyed;
pub mod text;
pub mod profile;
pub mod reports;
