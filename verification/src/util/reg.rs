//! What is read from the registry of the system.

use vstd::prelude::*;

verus! {

/// Why the registry could not be read.
#[derive(Debug, PartialEq, Eq)]
pub enum Error {
    /// The key could not be read.
    RegistrySubkeyRead(String),
    /// The key has no value of the name, or the value could not be read. The
    /// key comes first, the name second.
    RegistryValueRead(String, String),
}

/// The roots of the registry.
#[derive(Clone, Copy, Debug, PartialEq, Eq, Structural)]
pub enum HKey {
    LocalMachine,
}

/// A value of a key of the registry, with its name.
#[derive(Debug, PartialEq, Eq)]
pub struct RegKeyVal {
    pub key: String,
    pub val: String,
}

} // verus!
