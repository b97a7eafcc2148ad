//! The requests and responses of the installer protocol.

use crate::error::Error;
use crate::ts::package_reference::PackageReference;
use crate::ts::version::Version;
use vstd::prelude::*;
use vstd::string::StringExecFns;

verus! {

/// What an installer did to a file.
#[derive(Clone, Copy, Debug, PartialEq, Eq, Structural)]
pub enum FileAction {
    Create,
    Remove,
    Modify,
}

/// One effect of an installer on the file system.
#[derive(Clone, Debug, PartialEq, Eq)]
pub struct TrackedFile {
    pub action: FileAction,
    pub path: String,
    pub context: Option<String>,
}

/// What is asked of an installer.
#[derive(Debug, PartialEq, Eq)]
pub enum Request {
    Version,
    PackageInstall {
        is_modloader: bool,
        package: PackageReference,
        package_deps: Vec<PackageReference>,
        package_dir: String,
        state_dir: String,
        staging_dir: String,
    },
    PackageUninstall {
        is_modloader: bool,
        package: PackageReference,
        package_deps: Vec<PackageReference>,
        package_dir: String,
        state_dir: String,
        staging_dir: String,
        tracked_files: Vec<TrackedFile>,
    },
    StartGame {
        mods_enabled: bool,
        project_state: String,
        game_dir: String,
        game_exe: String,
        args: Vec<String>,
    },
}

/// What an installer answers.
#[derive(Debug, PartialEq, Eq)]
pub enum Response {
    Version { author: String, identifier: PackageReference, protocol: Version },
    PackageInstall { tracked_files: Vec<TrackedFile>, post_hook_context: Option<String> },
    PackageUninstall { post_hook_context: Option<String> },
    StartGame { pid: u32 },
    Error { message: String },
}

/// The version of the protocol that this library speaks.
pub fn protocol_version() -> (v: Version)
    ensures
        v == (Version { major: 1, minor: 0, patch: 0 }),
{
    Version::new(1, 0, 0)
}

impl TrackedFile {
    /// A copy of this record.
    pub fn duplicate(&self) -> (r: TrackedFile)
        ensures
            r == *self,
    {
        TrackedFile {
            action: self.action,
            path: self.path.clone(),
            context: match &self.context {
                Some(context) => Some(context.clone()),
                None => None,
            },
        }
    }
}

/// The message that stands in for an answer of the wrong kind.
pub open spec fn unexpected_response_text() -> Seq<char> {
    "The installer answered with a response of another kind."@
}

/// An answer of the wrong kind, as an error.
pub open spec fn is_bad_response(e: Error, package_id: Seq<char>) -> bool {
    e matches Error::InstallerBadResponse { package_id: id, message } && id@ == package_id && message@
        == unexpected_response_text()
}

/// The message that stands in for an answer of the wrong kind.
pub fn unexpected_response() -> (s: String)
    ensures
        s@ == unexpected_response_text(),
{
    String::from_str("The installer answered with a response of another kind.")
}

impl Response {
    /// Checks the answer to a `Version` request.
    ///
    /// The installer is accepted when the major number of its protocol
    /// version is the one of this library; minor and patch number do not
    /// count. An `Error` response gives the installer's error, and any other
    /// answer is a bad response.
    pub fn accept_version(self, package_id: &str) -> (r: Result<(), Error>)
        ensures
            match self {
                Response::Version { author, identifier, protocol } => if protocol.major == 1 {
                    r is Ok
                } else {
                    r matches Err(
                        Error::InstallerBadVersion { package_id: id, given_version, our_version },
                    ) && id@ == package_id@ && given_version == protocol && our_version == (Version {
                        major: 1,
                        minor: 0,
                        patch: 0,
                    })
                },
                Response::Error { message } => r matches Err(Error::InstallerError { message: m })
                    && m@ == message@,
                _ => r matches Err(e) && is_bad_response(e, package_id@),
            },
    {
        match self {
            Response::Version { author, identifier, protocol } => {
                let ours = protocol_version();
                if protocol.major == ours.major {
                    Ok(())
                } else {
                    Err(
                        Error::InstallerBadVersion {
                            package_id: String::from_str(package_id),
                            given_version: protocol,
                            our_version: ours,
                        },
                    )
                }
            },
            Response::Error { message } => Err(Error::InstallerError { message }),
            _ => Err(
                Error::InstallerBadResponse {
                    package_id: String::from_str(package_id),
                    message: unexpected_response(),
                },
            ),
        }
    }

    /// The files that the installer reports in its answer to a
    /// `PackageInstall` request. An `Error` response gives the installer's
    /// error, and any other answer is a bad response.
    pub fn into_tracked_files(self, package_id: &str) -> (r: Result<Vec<TrackedFile>, Error>)
        ensures
            match self {
                Response::PackageInstall { tracked_files, post_hook_context } => r == Ok::<
                    Vec<TrackedFile>,
                    Error,
                >(tracked_files),
                Response::Error { message } => r matches Err(Error::InstallerError { message: m })
                    && m@ == message@,
                _ => r matches Err(e) && is_bad_response(e, package_id@),
            },
    {
        match self {
            Response::PackageInstall { tracked_files, post_hook_context } => Ok(tracked_files),
            Response::Error { message } => Err(Error::InstallerError { message }),
            _ => Err(
                Error::InstallerBadResponse {
                    package_id: String::from_str(package_id),
                    message: unexpected_response(),
                },
            ),
        }
    }

    /// Checks the answer to a `PackageUninstall` request. An `Error` response
    /// gives the installer's error, and any other answer is a bad response.
    pub fn accept_uninstall(self, package_id: &str) -> (r: Result<(), Error>)
        ensures
            match self {
                Response::PackageUninstall { post_hook_context } => r is Ok,
                Response::Error { message } => r matches Err(Error::InstallerError { message: m })
                    && m@ == message@,
                _ => r matches Err(e) && is_bad_response(e, package_id@),
            },
    {
        match self {
            Response::PackageUninstall { post_hook_context } => Ok(()),
            Response::Error { message } => Err(Error::InstallerError { message }),
            _ => Err(
                Error::InstallerBadResponse {
                    package_id: String::from_str(package_id),
                    message: unexpected_response(),
                },
            ),
        }
    }

    /// The process that the installer started in answer to a `StartGame`
    /// request. An `Error` response gives the installer's error, and any
    /// other answer is a bad response.
    pub fn into_pid(self, package_id: &str) -> (r: Result<u32, Error>)
        ensures
            match self {
                Response::StartGame { pid } => r == Ok::<u32, Error>(pid),
                Response::Error { message } => r matches Err(Error::InstallerError { message: m })
                    && m@ == message@,
                _ => r matches Err(e) && is_bad_response(e, package_id@),
            },
    {
        match self {
            Response::StartGame { pid } => Ok(pid),
            Response::Error { message } => Err(Error::InstallerError { message }),
            _ => Err(
                Error::InstallerBadResponse {
                    package_id: String::from_str(package_id),
                    message: unexpected_response(),
                },
            ),
        }
    }
}

} // verus!
