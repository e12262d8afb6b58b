//! Decision-support toolkit whose verified core is hierarchical agglomerative
//! clustering with single linkage.
//!
//! The pipeline has three verified stages: a distance-matrix builder that
//! assembles a symmetric dissimilarity table, a merge engine that repeatedly
//! joins the two closest clusters and logs each merge, and a serializer that
//! renders the merge log in the linkage-matrix text format. Dissimilarities
//! are carried as `u64` order keys on a totally ordered non-negative scale;
//! callers that measure dissimilarity on another scale map it to keys through
//! any order-preserving encoding before handing it to the builder.

pub mod clustering;
pub mod engine;
pub mod errors;
pub mod matrix;
pub mod objects;
pub mod properties;
pub mod serializer;
pub mod solvers;
