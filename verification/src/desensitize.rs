//! Words that must not be recognised: each of their occurrences is split by a space of no width.
pub mod engine;
pub mod state;
pub mod service;
pub mod remote;
pub mod splitting_laws;
