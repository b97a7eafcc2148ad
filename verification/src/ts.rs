//! Identities of published packages and the records of the repository.

pub mod experimental;
pub mod package_reference;
pub mod v1;
pub mod version;
