//! Where the archives of packages are fetched from.

use crate::ts::package_reference::{PackageReference, PackageReferenceView};
use crate::util::text::push_str;
use vstd::prelude::*;
use vstd::string::StringExecFns;

verus! {

/// The address of the archive of a package:
/// `https://thunderstore.io/package/download/<namespace>/<name>/<version>/`.
pub open spec fn download_url(ident: PackageReferenceView) -> Seq<char> {
    "https://thunderstore.io/package/download/"@ + ident.namespace + "/"@ + ident.name + "/"@
        + ident.version.text() + "/"@
}

/// The address from which the archive of `ident` is fetched.
pub fn download_for_package(ident: &PackageReference) -> (url: String)
    ensures
        url@ == download_url(ident@),
{
    let mut url = String::from_str("https://thunderstore.io/package/download/");
    push_str(&mut url, ident.namespace.as_str());
    push_str(&mut url, "/");
    push_str(&mut url, ident.name.as_str());
    push_str(&mut url, "/");
    ident.version.write_to(&mut url);
    push_str(&mut url, "/");
    url
}

} // verus!
