use vstd::prelude::*;

verus! {

/// One input item: a unique identifier and an ordered feature vector.
///
/// Each feature is carried as the 64-bit encoding of the measured value.
/// The clustering core never decodes features: it checks only that every
/// object has the same number of them, and the pairwise dissimilarities are
/// computed by the caller on the decoded values and handed to the
/// distance-matrix builder as order keys.
pub struct Object {
    pub id: String,
    pub features: Vec<u64>,
}

/// A problem instance is well formed when at least one object is present and
/// every feature vector has the same length as the first one.
pub open spec fn objects_consistent(objs: Seq<Object>) -> bool {
    objs.len() >= 1 && forall|i: int|
        0 <= i < objs.len() ==> (#[trigger] objs[i]).features@.len() == objs[0].features@.len()
}

} // verus!
