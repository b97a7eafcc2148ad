//! What the command line may set in place of the values of a manifest.

use crate::ts::version::Version;
use vstd::prelude::*;

verus! {

/// The values that take the place of those of a project manifest. A value
/// that is not set leaves the manifest as it is.
#[derive(Debug, PartialEq, Eq)]
pub struct ProjectOverrides {
    pub namespace: Option<String>,
    pub name: Option<String>,
    pub version: Option<Version>,
    pub output_dir: Option<String>,
    pub repository: Option<String>,
}

impl ProjectOverrides {
    /// Overrides that set nothing.
    pub fn new() -> (o: ProjectOverrides)
        ensures
            o.namespace is None,
            o.name is None,
            o.version is None,
            o.output_dir is None,
            o.repository is None,
    {
        ProjectOverrides {
            namespace: None,
            name: None,
            version: None,
            output_dir: None,
            repository: None,
        }
    }

    pub fn namespace_override(self, namespace: Option<String>) -> (o: ProjectOverrides)
        ensures
            o == (ProjectOverrides { namespace, ..self }),
    {
        ProjectOverrides { namespace, ..self }
    }

    pub fn name_override(self, name: Option<String>) -> (o: ProjectOverrides)
        ensures
            o == (ProjectOverrides { name, ..self }),
    {
        ProjectOverrides { name, ..self }
    }

    pub fn version_override(self, version: Option<Version>) -> (o: ProjectOverrides)
        ensures
            o == (ProjectOverrides { version, ..self }),
    {
        ProjectOverrides { version, ..self }
    }

    pub fn output_dir_override(self, output_dir: Option<String>) -> (o: ProjectOverrides)
        ensures
            o == (ProjectOverrides { output_dir, ..self }),
    {
        ProjectOverrides { output_dir, ..self }
    }

    pub fn repository_override(self, repository: Option<String>) -> (o: ProjectOverrides)
        ensures
            o == (ProjectOverrides { repository, ..self }),
    {
        ProjectOverrides { repository, ..self }
    }
}

} // verus!
