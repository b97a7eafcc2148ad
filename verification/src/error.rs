//! The errors that reach the user of the library.

use crate::ts::version::Version;
use vstd::prelude::*;

verus! {

/// What can go wrong when a project is created or an installer is talked to.
/// Paths are carried as text.
#[derive(Debug, PartialEq, Eq)]
pub enum Error {
    /// The path of a project names a file.
    ProjectDirIsFile(String),
    /// A project manifest exists at the path already.
    ProjectAlreadyExists(String),
    /// The installer has no executable for this system.
    InstallerNotExecutable,
    /// The installer speaks another major version of the protocol.
    InstallerBadVersion { package_id: String, given_version: Version, our_version: Version },
    /// The installer answered with something else than was asked for.
    InstallerBadResponse { package_id: String, message: String },
    /// The installer reported an error.
    InstallerError { message: String },
}

} // verus!
