//! Matching of remote bibliographic search hits against local paper records,
//! and the merge policy that folds a matching hit into a record.

pub mod authors;
pub mod batch;
pub mod model;
pub mod reconcile;
pub mod similarity;
pub mod stats;
pub mod text;
