//! Packages: the local index of the catalog, the dependency graph and its
//! resolution, and the protocol spoken with installers.

pub mod backend;
pub mod index;
pub mod install;
pub mod resolver;
