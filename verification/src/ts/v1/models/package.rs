//! The listing of a package in the repository.

use vstd::prelude::*;

verus! {

/// A package with all its versions.
#[derive(Debug, PartialEq, Eq)]
pub struct PackageListing {
    pub name: String,
    pub full_name: String,
    pub owner: String,
    pub package_url: String,
    pub date_created: String,
    pub date_updated: String,
    pub uuid4: String,
    pub rating_score: u32,
    pub is_pinned: bool,
    pub is_deprecated: bool,
    pub has_nsfw_content: bool,
    pub categories: Vec<String>,
    pub versions: Vec<PackageVersion>,
}

/// One version of a package.
#[derive(Debug, PartialEq, Eq)]
pub struct PackageVersion {
    pub name: String,
    pub full_name: String,
    pub description: String,
    pub icon: String,
    pub version_number: String,
    pub dependencies: Vec<String>,
    pub download_url: String,
    pub downloads: u32,
    pub website_url: String,
    pub is_active: bool,
    pub date_created: String,
    pub uuid4: String,
    pub file_size: u64,
}

} // verus!
