//! The records that the repository hands out.

pub mod ecosystem;
pub mod package;
