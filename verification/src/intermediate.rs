//! Intermediate aggregation results: the partial, mergeable accumulator
//! state produced while scanning matching documents, before any final
//! numeric derivation.  The tree mirrors the request schema.

use vstd::prelude::*;
use crate::f64bits::{F64Bits, avg_bits, f64_bits_div, f64_bits_from_u64, F64_INF_POS_BITS,
    F64_INF_NEG_BITS};
use crate::agg_req::{BucketAggregationType, MetricAggregation};
use crate::Key;

verus! {

/// An intermediate aggregation result tree.  Each category is either
/// entirely present or entirely absent; absence means no aggregation of
/// that category contributed, and finalization synthesizes the empty form
/// of every requested entry.
#[derive(Debug)]
pub struct IntermediateAggregationResults {
    /// The named bucket results, positionally paired with the schema's
    /// bucket entries when present.
    pub buckets: Option<Vec<(String, IntermediateBucketResult)>>,
    /// The named metric results, positionally paired with the schema's
    /// metric entries when present.
    pub metrics: Option<Vec<(String, IntermediateMetricResult)>>,
}

/// An intermediate bucket result of one of the closed set of kinds.
#[derive(Debug)]
pub enum IntermediateBucketResult {
    /// Range buckets, in collection order; finalization sorts them.
    Range(Vec<IntermediateRangeBucketEntry>),
    /// Histogram buckets.  When the request asks for gap filling, the
    /// external gap-filling routine has already run upstream: its output
    /// contract is a contiguous ascending entry sequence, synthesized
    /// zero-count entries carrying an empty sub-aggregation tree.
    Histogram(Vec<IntermediateHistogramBucketEntry>),
    /// Term buckets as selected by the external top-N routine, consumed
    /// here only through its output contract.
    Terms(IntermediateTermBucketResult),
}

/// One intermediate range bucket.
#[derive(Debug)]
pub struct IntermediateRangeBucketEntry {
    /// The bucket key.
    pub key: Key,
    /// Number of documents in the bucket.
    pub doc_count: u64,
    /// Lower bound of the range; absent means unbounded below.
    pub from: Option<F64Bits>,
    /// Upper bound of the range; absent means unbounded above.
    pub to: Option<F64Bits>,
    /// The intermediate results of the nested aggregations.
    pub sub_aggregation: IntermediateAggregationResults,
}

/// One intermediate histogram bucket.
#[derive(Debug)]
pub struct IntermediateHistogramBucketEntry {
    /// The bucket key: the lower bound of its interval.
    pub key: F64Bits,
    /// Number of documents in the bucket.
    pub doc_count: u64,
    /// The intermediate results of the nested aggregations.
    pub sub_aggregation: IntermediateAggregationResults,
}

/// The output of the external top-N term selection, consumed through its
/// contract: the selected term buckets in reporting order, the total count
/// of the excluded terms, and the worst-case undercount bound when the
/// collection was distributed.
#[derive(Debug)]
pub struct IntermediateTermBucketResult {
    /// The selected term buckets, keyed by term, in reporting order.
    pub entries: Vec<(String, IntermediateTermBucketEntry)>,
    /// Total document count of the terms that were not selected.
    pub sum_other_doc_count: u64,
    /// Worst-case undercount of any reported term's document count.
    pub doc_count_error_upper_bound: Option<u64>,
}

/// One intermediate term bucket.
#[derive(Debug)]
pub struct IntermediateTermBucketEntry {
    /// Number of documents with the term.
    pub doc_count: u64,
    /// The intermediate results of the nested aggregations.
    pub sub_aggregation: IntermediateAggregationResults,
}

/// An intermediate metric result of one of the closed set of kinds.
#[derive(Debug)]
pub enum IntermediateMetricResult {
    /// Running state of an average metric.
    Average(IntermediateAverage),
    /// Running state of a stats metric.
    Stats(IntermediateStats),
}

/// Running state of an average metric: the sum of the contributing values
/// and how many there were.
#[derive(Clone, Copy, Debug, PartialEq, Eq, Structural)]
pub struct IntermediateAverage {
    /// Sum of the contributing values.
    pub sum: F64Bits,
    /// Number of contributing values.
    pub count: u64,
}

/// Running state of a stats metric.  At `count == 0` the minimum and
/// maximum hold the unreached sentinels positive and negative infinity.
#[derive(Clone, Copy, Debug, PartialEq, Eq, Structural)]
pub struct IntermediateStats {
    /// Number of contributing values.
    pub count: u64,
    /// Sum of the contributing values.
    pub sum: F64Bits,
    /// Smallest contributing value.
    pub min: F64Bits,
    /// Largest contributing value.
    pub max: F64Bits,
}

/// The finalized value of an average accumulator: absent when nothing
/// contributed — never zero, never NaN — and otherwise the IEEE quotient
/// of sum by count.
pub open spec fn spec_finalize_average(a: IntermediateAverage) -> Option<F64Bits> {
    if a.count == 0 {
        None
    } else {
        Some(F64Bits(avg_bits(a.sum.0, a.count)))
    }
}

impl IntermediateAverage {
    /// Derive the final average: `sum / count`, absent when `count == 0`.
    pub fn finalize(&self) -> (r: Option<F64Bits>)
        ensures
            r == spec_finalize_average(*self),
    {
        if self.count == 0 {
            None
        } else {
            Some(F64Bits(f64_bits_div(self.sum.0, f64_bits_from_u64(self.count))))
        }
    }

    /// The empty accumulator: no contributing values.
    pub fn empty() -> (r: Self)
        ensures
            r.count == 0,
            r.sum == (F64Bits(0)),
    {
        IntermediateAverage { sum: F64Bits(0), count: 0 }
    }
}

impl IntermediateStats {
    /// The empty accumulator: no contributing values, sentinel bounds.
    pub fn empty() -> (r: Self)
        ensures
            r == (IntermediateStats {
                count: 0,
                sum: F64Bits(0),
                min: F64Bits(F64_INF_POS_BITS),
                max: F64Bits(F64_INF_NEG_BITS),
            }),
    {
        IntermediateStats {
            count: 0,
            sum: F64Bits(0),
            min: F64Bits(F64_INF_POS_BITS),
            max: F64Bits(F64_INF_NEG_BITS),
        }
    }
}

impl IntermediateMetricResult {
    /// The empty intermediate metric of the requested kind, used when the
    /// metric category is wholly absent so that the final tree keeps its
    /// shape.
    pub fn empty_from_req(req: &MetricAggregation) -> (r: Self)
        ensures
            r == spec_empty_metric(*req),
    {
        match req {
            MetricAggregation::Average => {
                IntermediateMetricResult::Average(IntermediateAverage::empty())
            }
            MetricAggregation::Stats => {
                IntermediateMetricResult::Stats(IntermediateStats::empty())
            }
        }
    }
}

/// The empty intermediate metric of each requested kind.
pub open spec fn spec_empty_metric(req: MetricAggregation) -> IntermediateMetricResult {
    match req {
        MetricAggregation::Average => IntermediateMetricResult::Average(
            IntermediateAverage { sum: F64Bits(0), count: 0 },
        ),
        MetricAggregation::Stats => IntermediateMetricResult::Stats(
            IntermediateStats {
                count: 0,
                sum: F64Bits(0),
                min: F64Bits(F64_INF_POS_BITS),
                max: F64Bits(F64_INF_NEG_BITS),
            },
        ),
    }
}

impl IntermediateAggregationResults {
    /// The wholly empty intermediate tree: neither category contributed.
    pub fn empty() -> (r: Self)
        ensures
            r == spec_empty_intermediate(),
    {
        IntermediateAggregationResults { buckets: None, metrics: None }
    }
}

/// The wholly empty intermediate tree.
pub open spec fn spec_empty_intermediate() -> IntermediateAggregationResults {
    IntermediateAggregationResults { buckets: None, metrics: None }
}

impl IntermediateBucketResult {
    /// The empty intermediate bucket result of the requested kind: ranges
    /// keep one zero-count entry per requested range (their normal shape),
    /// histogram and terms keep no entries.
    pub fn empty_from_req(req: &BucketAggregationType) -> (r: Self)
        ensures
            (match (r, *req) {
                (
                    IntermediateBucketResult::Range(v),
                    BucketAggregationType::Range(range_req),
                ) => v@ == spec_empty_range_entries(range_req.ranges@),
                (IntermediateBucketResult::Histogram(v), BucketAggregationType::Histogram) => v@
                    == Seq::<IntermediateHistogramBucketEntry>::empty(),
                (IntermediateBucketResult::Terms(t), BucketAggregationType::Terms) => t.entries@
                    == Seq::<(String, IntermediateTermBucketEntry)>::empty()
                    && t.sum_other_doc_count == 0 && t.doc_count_error_upper_bound is None,
                _ => false,
            }),
    {
        match req {
            BucketAggregationType::Range(range_req) => {
                let mut entries: Vec<IntermediateRangeBucketEntry> = Vec::new();
                let mut i: usize = 0;
                while i < range_req.ranges.len()
                    invariant
                        i <= range_req.ranges@.len(),
                        entries@ == spec_empty_range_entries(range_req.ranges@.take(i as int)),
                    decreases range_req.ranges@.len() - i,
                {
                    let spec = &range_req.ranges[i];
                    entries.push(IntermediateRangeBucketEntry {
                        key: Key::Str(spec.key.clone()),
                        doc_count: 0,
                        from: spec.from,
                        to: spec.to,
                        sub_aggregation: IntermediateAggregationResults::empty(),
                    });
                    proof {
                        assert(range_req.ranges@.take(i as int + 1).drop_last()
                            =~= range_req.ranges@.take(i as int));
                        assert(entries@.drop_last()
                            =~= spec_empty_range_entries(range_req.ranges@.take(i as int)));
                        assert(entries@ =~= spec_empty_range_entries(
                            range_req.ranges@.take(i as int + 1)));
                    }
                    i = i + 1;
                }
                proof {
                    assert(range_req.ranges@.take(range_req.ranges@.len() as int)
                        =~= range_req.ranges@);
                }
                IntermediateBucketResult::Range(entries)
            }
            BucketAggregationType::Histogram => IntermediateBucketResult::Histogram(Vec::new()),
            BucketAggregationType::Terms => IntermediateBucketResult::Terms(
                IntermediateTermBucketResult {
                    entries: Vec::new(),
                    sum_other_doc_count: 0,
                    doc_count_error_upper_bound: None,
                },
            ),
        }
    }
}

/// The zero-count intermediate range entries for a sequence of requested
/// ranges, in request order.
pub open spec fn spec_empty_range_entries(specs: Seq<crate::agg_req::RangeSpec>)
    -> Seq<IntermediateRangeBucketEntry>
    decreases specs.len(),
{
    if specs.len() == 0 {
        Seq::empty()
    } else {
        spec_empty_range_entries(specs.drop_last()).push(IntermediateRangeBucketEntry {
            key: Key::Str(specs.last().key),
            doc_count: 0,
            from: specs.last().from,
            to: specs.last().to,
            sub_aggregation: spec_empty_intermediate(),
        })
    }
}

} // verus!
