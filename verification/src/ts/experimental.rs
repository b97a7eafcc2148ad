//! The catalog of the repository.

pub mod index;
