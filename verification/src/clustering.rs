use vstd::prelude::*;
use crate::errors::ClusterError;
use crate::objects::{objects_consistent, Object};

verus! {

/// Entry point of the clustering procedure.
///
/// The verified pipeline is: [`ClusteringSolver::validate`] gates the input,
/// the caller derives the pairwise dissimilarity keys of the admitted
/// objects, [`crate::matrix::DistanceMatrix::build`] assembles the table,
/// [`crate::engine::MergeEngine::run`] produces the merge log, and
/// [`crate::serializer::serialize_linkage`] renders it. Reading the input,
/// writing the file and dispatching the external renderer are the caller's
/// I/O.
pub struct ClusteringSolver;

impl ClusteringSolver {
    /// Admit a problem instance, or reject it with `InvalidInput`: the
    /// instance passes exactly when it holds at least one object and all
    /// feature vectors are of one length. This runs before any distance is
    /// derived; a rejected instance reaches no other pipeline stage.
    pub fn validate(objects: &Vec<Object>) -> (r: Result<(), ClusterError>)
        ensures
            r is Ok <==> objects_consistent(objects@),
            r is Err ==> r == Err::<(), ClusterError>(ClusterError::InvalidInput),
    {
        if objects.len() == 0 {
            return Err(ClusterError::InvalidInput);
        }
        let flen = objects[0].features.len();
        let mut i: usize = 1;
        while i < objects.len()
            invariant
                1 <= i <= objects@.len(),
                flen == objects@[0].features@.len(),
                forall|k: int| 0 <= k < i ==> (#[trigger] objects@[k]).features@.len() == flen,
            decreases objects@.len() - i,
        {
            if objects[i].features.len() != flen {
                return Err(ClusterError::InvalidInput);
            }
            i += 1;
        }
        Ok(())
    }
}

} // verus!
