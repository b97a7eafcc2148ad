//! Core of a package manager for a community mod ecosystem.
//!
//! A project names the packages it wants. The library reads the catalog of
//! the repository into a local index, resolves the packages of a project and
//! everything they depend on into a graph, and works out what has to be
//! removed and installed to get from the graph that is installed to the one
//! that is wanted. It keeps the books on what installers put where, so that
//! a package can be removed again and a game be launched with its mods.
//!
//! - `ts`: package references, versions and the records of the repository.
//! - `package`: the index of the catalog, the dependency graph and its
//!   resolution, and the protocol spoken with installers.
//! - `project`: the layout of a project, its lock file and its state.
//! - `game`: the games that are imported into a project.
//! - `util`: text, digests, directory trees and what helps the rest.
//!
//! The library reads no files and talks to nobody: it is handed what was read
//! and says what is to be done.

pub mod error;
pub mod game;
pub mod package;
pub mod project;
pub mod ts;
pub mod util;
