//! The manifest of an installer package.

use crate::error::Error;
use crate::util::os::{Arch, OS};
use vstd::prelude::*;

verus! {

/// What an installer package offers: the version of the installer and its
/// executables.
#[derive(Debug, PartialEq, Eq)]
pub struct InstallerManifest {
    pub installer_version: u32,
    pub matrix: Vec<InstallerMatrix>,
}

/// The executable of an installer for one operating system and architecture.
#[derive(Debug, PartialEq, Eq)]
pub struct InstallerMatrix {
    pub target_os: OS,
    pub architecture: Arch,
    pub executable: String,
}

impl InstallerMatrix {
    /// Whether the executable is built for `os` on `arch`.
    pub open spec fn serves(self, os: OS, arch: Arch) -> bool {
        self.target_os == os && self.architecture == arch
    }
}

impl InstallerManifest {
    /// The position of the first executable for `os` on `arch`, or the
    /// number of executables when there is none.
    pub open spec fn first_for(matrix: Seq<InstallerMatrix>, os: OS, arch: Arch, from: int) -> int
        decreases matrix.len() - from,
    {
        if from < 0 || from >= matrix.len() {
            matrix.len() as int
        } else if matrix[from].serves(os, arch) {
            from
        } else {
            InstallerManifest::first_for(matrix, os, arch, from + 1)
        }
    }

    /// The executable to run on the host: the first one of the manifest that
    /// is built for `os` on `arch`.
    pub fn executable_for(&self, os: OS, arch: Arch) -> (r: Result<String, Error>)
        ensures
            ({
                let at = InstallerManifest::first_for(self.matrix@, os, arch, 0);
                match r {
                    Ok(executable) => at < self.matrix@.len() && executable@
                        == self.matrix@[at].executable@,
                    Err(e) => at >= self.matrix@.len() && e is InstallerNotExecutable,
                }
            }),
    {
        let mut k: usize = 0;
        while k < self.matrix.len()
            invariant
                k <= self.matrix.len(),
                InstallerManifest::first_for(self.matrix@, os, arch, 0) == InstallerManifest::first_for(
                    self.matrix@,
                    os,
                    arch,
                    k as int,
                ),
            decreases self.matrix.len() - k,
        {
            let entry = &self.matrix[k];
            let os_matches = match (entry.target_os, os) {
                (OS::Windows, OS::Windows) | (OS::Mac, OS::Mac) | (OS::Linux, OS::Linux) => true,
                _ => false,
            };
            let arch_matches = match (entry.architecture, arch) {
                (Arch::X86_64, Arch::X86_64)
                | (Arch::X86, Arch::X86)
                | (Arch::AArch64, Arch::AArch64)
                | (Arch::Arm, Arch::Arm) => true,
                _ => false,
            };
            if os_matches && arch_matches {
                return Ok(entry.executable.clone());
            }
            k += 1;
        }
        Err(Error::InstallerNotExecutable)
    }
}

} // verus!
