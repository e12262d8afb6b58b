use vstd::prelude::*;
use vstd::string::StringExecFns;

verus! {

/// Failure conditions of the clustering pipeline.
///
/// Both are fatal: the run either fully succeeds or surfaces one of these.
#[derive(Clone, Copy, Debug, PartialEq, Eq, Structural)]
pub enum ClusterError {
    /// The object collection is empty, or the feature-vector lengths are
    /// inconsistent across objects.
    InvalidInput,
    /// The external rendering step exited with a non-zero status. The linkage
    /// file has already been written when this is raised.
    ExternalProcessFailure,
}

impl ClusterError {
    /// A short description of the failure.
    pub fn message(&self) -> (s: String)
        ensures
            *self is InvalidInput ==> s@ == "invalid input: no objects, or feature lengths differ"@,
            *self is ExternalProcessFailure ==> s@ == "external render process failed"@,
    {
        match self {
            ClusterError::InvalidInput => String::from_str(
                "invalid input: no objects, or feature lengths differ",
            ),
            ClusterError::ExternalProcessFailure => String::from_str(
                "external render process failed",
            ),
        }
    }
}

} // verus!
