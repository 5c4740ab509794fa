//! Finalization of faceted aggregation results.
//!
//! The library turns intermediate aggregation state (partial accumulators
//! gathered while scanning matching documents) together with the request
//! schema into the final, client-facing, recursively nested result tree.

use vstd::prelude::*;

pub mod f64bits;
pub mod agg_req;
pub mod intermediate;
pub mod agg_result;
pub mod model;
pub mod laws;

verus! {

/// The identifier of a bucket: a term, or a numeric key given by its
/// double-precision bit pattern.
#[derive(Clone, Debug, PartialEq)]
pub enum Key {
    /// A numeric key.
    F64(crate::f64bits::F64Bits),
    /// A string key.
    Str(String),
}

/// The single internal-consistency error kind.  Every variant signals an
/// upstream programming defect, never invalid user input: requests are
/// validated before finalization runs.
#[derive(Clone, Copy, Debug, PartialEq, Eq, Structural)]
pub enum InternalError {
    /// An aggregation name was looked up that the result tree does not hold.
    MissingAggregation,
    /// A scalar value was requested from a bucket aggregation.
    ScalarOnBucket,
    /// A metric property name was looked up that the metric does not expose.
    UnknownProperty,
    /// The number of intermediate results of a category disagrees with the
    /// schema's count for that category.
    ArityMismatch,
    /// An intermediate result's kind disagrees with its schema entry's kind.
    KindMismatch,
}

} // verus!
