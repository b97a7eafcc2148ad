//! The games that a project is set up for.

pub mod import;
pub mod registry;
