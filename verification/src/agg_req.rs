//! The request schema: a tree of named aggregation definitions, split into
//! a bucket group and a metric group.  Finalization pairs intermediate
//! results positionally with these entries; the schema alone fixes the
//! shape of the final tree.

use vstd::prelude::*;
use crate::f64bits::F64Bits;

verus! {

/// One requested range.  `key` is the bucket key the request assigned to
/// the range (computed during request parsing, upstream of this engine);
/// an absent bound is unbounded.
#[derive(Debug)]
pub struct RangeSpec {
    /// The key under which this range's bucket is reported.
    pub key: String,
    /// Lower bound; absent means unbounded below.
    pub from: Option<F64Bits>,
    /// Upper bound; absent means unbounded above.
    pub to: Option<F64Bits>,
}

/// A range bucket aggregation request: the ranges documents are put into.
#[derive(Debug)]
pub struct RangeAggregation {
    /// The requested ranges.
    pub ranges: Vec<RangeSpec>,
}

/// The closed set of bucket aggregation kinds.  Gap filling (histogram) and
/// top-N selection (terms) run upstream of finalization, so only the range
/// kind carries data this engine reads.
#[derive(Debug)]
pub enum BucketAggregationType {
    /// Buckets documents into requested ranges.
    Range(RangeAggregation),
    /// Buckets documents into fixed-width intervals.
    Histogram,
    /// Buckets documents by term.
    Terms,
}

/// A bucket aggregation request together with its nested sub-aggregations.
#[derive(Debug)]
pub struct BucketAggregation {
    /// The bucket kind requested.
    pub bucket_agg: BucketAggregationType,
    /// The aggregations computed inside each bucket.
    pub sub_aggregation: Aggregations,
}

/// The closed set of metric aggregation kinds.
#[derive(Clone, Copy, Debug, PartialEq, Eq, Structural)]
pub enum MetricAggregation {
    /// The arithmetic mean of a field.
    Average,
    /// Count, sum, minimum, maximum and mean of a field.
    Stats,
}

/// A tree of named aggregation definitions, bucket and metric entries in
/// separate groups.  Names are unique across both groups of one level.
#[derive(Debug)]
pub struct Aggregations {
    /// The named bucket aggregations, in request order.
    pub buckets: Vec<(String, BucketAggregation)>,
    /// The named metric aggregations, in request order.
    pub metrics: Vec<(String, MetricAggregation)>,
}

/// The names a schema level declares: bucket names then metric names.
pub open spec fn schema_names(s: Aggregations) -> Seq<Seq<char>> {
    s.buckets@.map(|i: int, p: (String, BucketAggregation)| p.0@)
        + s.metrics@.map(|i: int, p: (String, MetricAggregation)| p.0@)
}

/// Pairwise distinctness of a sequence of names.
pub open spec fn distinct_names(names: Seq<Seq<char>>) -> bool {
    forall|i: int, j: int| 0 <= i < j < names.len() ==> names[i] != names[j]
}

} // verus!
