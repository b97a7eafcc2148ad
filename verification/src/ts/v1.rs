//! The first version of the repository's interface.

pub mod models;
pub mod package;
