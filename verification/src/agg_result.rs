//! The final aggregation result tree, and the engine that derives it from
//! an intermediate tree and its request schema.  The conversion computes
//! the final values: an intermediate average carries a sum and a count, the
//! actual average appears on the step from intermediate to final tree.

use vstd::prelude::*;
use crate::InternalError;
use crate::Key;
use crate::f64bits::{F64Bits, F64_MIN_BITS, f64_lt_exec, f64_bits_from_u64};
use crate::agg_req::{Aggregations, BucketAggregation, BucketAggregationType, MetricAggregation};
use crate::intermediate::{IntermediateAggregationResults, IntermediateBucketResult,
    IntermediateRangeBucketEntry, IntermediateHistogramBucketEntry, IntermediateTermBucketEntry,
    IntermediateMetricResult, IntermediateAverage};
use crate::model::{GAgg, GBucket, GEntry, GRangeEntry, vaggs, vaggs_seq, vagg, vbucket,
    ventry, ventries, vrentry, vrentries, vmetric, opt_bits, gt_range,
    sinsert_range, ssort_ranges, sfinalize, sconv_buckets, sbucket_conv, sconv_range_entries,
    sconv_range_entry, sconv_hist_entries, sconv_hist_entry, sconv_term_entries, sconv_term_entry,
    sconv_metrics, smetric_conv, sempty_buckets, sempty_bucket,
    sempty_metrics, smetric_empty, sget_value, smetric_get, lemma_vrentries_index,
    lemma_sconv_buckets_err_extend, lemma_sconv_metrics_err_extend,
    lemma_sconv_range_entries_err_extend, lemma_sconv_hist_entries_err_extend,
    lemma_sconv_term_entries_err_extend, lemma_empty_range_entries_conv,
    lemma_vaggs_contains, lemma_vaggs_at, lemma_sconv_range_entries_step,
    lemma_sconv_hist_entries_step, lemma_sconv_term_entries_step, lemma_sconv_buckets_step,
    lemma_sconv_metrics_step, lemma_sempty_buckets_step, lemma_sempty_metrics_step};

verus! {

/// The final aggregation result tree: named results, bucket results first,
/// then metric results, each group in schema order.  Names are unique.
#[derive(Debug)]
pub struct AggregationResults(pub Vec<(String, AggregationResult)>);

/// An aggregation is either a bucket or a metric.
#[derive(Debug)]
pub enum AggregationResult {
    /// Bucket result variant.
    BucketResult(BucketResult),
    /// Metric result variant.
    MetricResult(MetricResult),
}

/// A finalized metric result.
#[derive(Debug)]
pub enum MetricResult {
    /// Average metric result.
    Average(SingleMetricResult),
    /// Stats metric result.
    Stats(Stats),
}

/// A single finalized metric value; absent when no documents contributed.
#[derive(Clone, Copy, Debug, PartialEq, Eq, Structural)]
pub struct SingleMetricResult {
    /// The value, absent when no documents contributed.
    pub value: Option<F64Bits>,
}

/// Finalized stats: count, sum, minimum, maximum and the derived average.
/// At count zero the minimum and maximum keep their unreached sentinels and
/// the average is absent.
#[derive(Clone, Copy, Debug, PartialEq, Eq, Structural)]
pub struct Stats {
    /// Number of contributing documents.
    pub count: u64,
    /// Sum of the contributing values.
    pub sum: F64Bits,
    /// Smallest contributing value.
    pub min: F64Bits,
    /// Largest contributing value.
    pub max: F64Bits,
    /// The derived average, absent when the count is zero.
    pub avg: Option<F64Bits>,
}

/// A finalized bucket result of one of the closed set of kinds.
#[derive(Debug)]
pub enum BucketResult {
    /// The range buckets, sorted ascending by lower bound.
    Range {
        /// The range buckets sorted by range.
        buckets: Vec<RangeBucketEntry>,
    },
    /// The histogram buckets, in intermediate (ascending) order.
    Histogram {
        /// The buckets; whether gaps were filled depends on the request's
        /// minimum document count, applied by the upstream gap filler.
        buckets: Vec<BucketEntry>,
    },
    /// The term buckets selected by the upstream top-N routine.
    Terms {
        /// The selected buckets.
        buckets: Vec<BucketEntry>,
        /// Number of documents that did not make it into the top N.
        sum_other_doc_count: u64,
        /// The upper bound error for the document count of each term.
        doc_count_error_upper_bound: Option<u64>,
    },
}

/// A histogram or term bucket: a key, a document count and the finalized
/// nested aggregations.
#[derive(Debug)]
pub struct BucketEntry {
    /// The identifier of the bucket.
    pub key: Key,
    /// Number of documents in the bucket.
    pub doc_count: u64,
    /// Sub-aggregations in this bucket.
    pub sub_aggregation: AggregationResults,
}

/// A range bucket: as a plain bucket, plus its optional bounds.  An absent
/// bound means unbounded; for ordering it compares as the smallest finite
/// double, but the stored field stays absent.
#[derive(Debug)]
pub struct RangeBucketEntry {
    /// The identifier of the bucket.
    pub key: Key,
    /// Number of documents in the bucket.
    pub doc_count: u64,
    /// Sub-aggregations in this bucket.
    pub sub_aggregation: AggregationResults,
    /// The lower bound of the bucket's range; absent means unbounded.
    pub from: Option<F64Bits>,
    /// The upper bound of the bucket's range; absent means unbounded.
    pub to: Option<F64Bits>,
}

impl BucketEntry {
    /// The document count of the bucket.
    pub fn doc_count(&self) -> (r: u64)
        ensures
            r == self.doc_count,
    {
        self.doc_count
    }
}

// ---------------------------------------------------------------------------
// Sorting of range buckets.

/// Whether `a` sorts strictly after `b`: the IEEE order of the lower
/// bounds, an absent bound standing for the smallest finite double,
/// incomparable bounds equal.
fn gt_range_exec(a: &RangeBucketEntry, b: &RangeBucketEntry) -> (r: bool)
    ensures
        r == gt_range(vrentry(*a), vrentry(*b)),
{
    let fa = match a.from {
        Some(x) => x.0,
        None => F64_MIN_BITS,
    };
    let fb = match b.from {
        Some(x) => x.0,
        None => F64_MIN_BITS,
    };
    f64_lt_exec(fb, fa)
}

/// Inserting before the maximal strictly-greater suffix is exactly the
/// insertion step of the stable insertion sort.
proof fn lemma_sinsert_at(s: Seq<GRangeEntry>, x: GRangeEntry, pos: int)
    requires
        0 <= pos <= s.len(),
        forall|k: int| pos <= k < s.len() ==> gt_range(s[k], x),
        pos > 0 ==> !gt_range(s[pos - 1], x),
    ensures
        sinsert_range(s, x) == s.take(pos).push(x) + s.skip(pos),
    decreases s.len() - pos,
{
    if pos == s.len() {
        assert(!(s.len() > 0 && gt_range(s.last(), x)));
        assert(s.take(pos) =~= s);
        assert(s.take(pos).push(x) + s.skip(pos) =~= s.push(x));
    } else {
        assert(gt_range(s[s.len() - 1], x));
        let sd = s.drop_last();
        assert(forall|k: int| pos <= k < sd.len() ==> sd[k] == s[k]);
        lemma_sinsert_at(sd, x, pos);
        assert(sd.take(pos) =~= s.take(pos));
        assert((sd.take(pos).push(x) + sd.skip(pos)).push(s.last())
            =~= s.take(pos).push(x) + s.skip(pos));
    }
}

/// Sort range buckets ascending by lower bound: a stable insertion sort;
/// an absent bound compares as the smallest finite double and incomparable
/// bounds compare as equal.
#[verifier::loop_isolation(false)]
pub fn sort_range_buckets(buckets: Vec<RangeBucketEntry>) -> (r: Vec<RangeBucketEntry>)
    ensures
        vrentries(r@) == ssort_ranges(vrentries(buckets@)),
{
    let ghost os = buckets@;
    let mut rest = buckets;
    let mut out: Vec<RangeBucketEntry> = Vec::new();
    let n = rest.len();
    let mut j: usize = 0;
    while j < n
        invariant
            j <= n,
            os.len() == n,
            rest@ =~= os.skip(j as int),
            vrentries(out@) == ssort_ranges(vrentries(os.take(j as int))),
            out@.len() == j,
        decreases n - j,
    {
        let e = rest.remove(0);
        proof {
            assert(e == os[j as int]);
            assert(os.skip(j as int).remove(0) =~= os.skip(j as int + 1));
        }
        let ghost x = vrentry(e);
        let mut pos: usize = out.len();
        while pos > 0 && gt_range_exec(&out[pos - 1], &e)
            invariant
                pos <= out@.len(),
                forall|k: int| pos <= k < out@.len() ==> #[trigger] gt_range(vrentry(out@[k]),
                    x),
            decreases pos,
        {
            pos = pos - 1;
        }
        let ghost pre = out@;
        out.insert(pos, e);
        proof {
            lemma_vrentries_index(pre);
            lemma_sinsert_at(vrentries(pre), x, pos as int);
            lemma_vrentries_index(pre.insert(pos as int, e));
            assert(vrentries(pre.insert(pos as int, e))
                =~= vrentries(pre).take(pos as int).push(x) + vrentries(pre).skip(pos as int));
            assert(vrentries(out@) == sinsert_range(vrentries(pre), x));
            let tj1 = os.take(j as int + 1);
            assert(tj1.drop_last() =~= os.take(j as int));
            assert(tj1.last() == os[j as int]);
            assert(vrentries(tj1) == vrentries(os.take(j as int)).push(x));
            let s1 = vrentries(tj1);
            assert(s1.drop_last() =~= vrentries(os.take(j as int)));
            assert(s1.last() == x);
            assert(ssort_ranges(s1) == sinsert_range(ssort_ranges(vrentries(os.take(j as int))),
                x));
            assert(vrentries(out@) == ssort_ranges(vrentries(os.take(j as int + 1))));
        }
        j = j + 1;
    }
    proof {
        assert(os.take(n as int) =~= os);
    }
    out
}

// ---------------------------------------------------------------------------
// Entry conversion.

impl RangeBucketEntry {
    /// Convert one intermediate range entry, finalizing its nested
    /// aggregations against the sub-schema.
    pub fn from_intermediate_and_req(entry: IntermediateRangeBucketEntry, req: &Aggregations)
        -> (r: Result<RangeBucketEntry, InternalError>)
        ensures
            (match r {
                Ok(rbe) => sconv_range_entry(entry, *req) == Ok::<GRangeEntry, InternalError>(
                    vrentry(rbe),
                ),
                Err(e) => sconv_range_entry(entry, *req) == Err::<GRangeEntry, InternalError>(e),
            }),
        decreases *req, 2nat,
    {
        match AggregationResults::from_intermediate_and_req_internal(entry.sub_aggregation, req) {
            Err(e) => Err(e),
            Ok(sub) => Ok(RangeBucketEntry {
                key: entry.key,
                doc_count: entry.doc_count,
                sub_aggregation: sub,
                from: entry.from,
                to: entry.to,
            }),
        }
    }
}

impl BucketEntry {
    /// Convert one intermediate histogram entry, finalizing its nested
    /// aggregations against the sub-schema.
    pub fn from_intermediate_and_req(entry: IntermediateHistogramBucketEntry, req: &Aggregations)
        -> (r: Result<BucketEntry, InternalError>)
        ensures
            (match r {
                Ok(be) => sconv_hist_entry(entry, *req) == Ok::<GEntry, InternalError>(ventry(be)),
                Err(e) => sconv_hist_entry(entry, *req) == Err::<GEntry, InternalError>(e),
            }),
        decreases *req, 2nat,
    {
        match AggregationResults::from_intermediate_and_req_internal(entry.sub_aggregation, req) {
            Err(e) => Err(e),
            Ok(sub) => Ok(BucketEntry {
                key: Key::F64(entry.key),
                doc_count: entry.doc_count,
                sub_aggregation: sub,
            }),
        }
    }

    /// Convert one selected term entry, finalizing its nested aggregations
    /// against the sub-schema.
    pub fn from_term_and_req(term: String, entry: IntermediateTermBucketEntry, req: &Aggregations)
        -> (r: Result<BucketEntry, InternalError>)
        ensures
            (match r {
                Ok(be) => sconv_term_entry(term, entry, *req) == Ok::<GEntry, InternalError>(
                    ventry(be),
                ),
                Err(e) => sconv_term_entry(term, entry, *req) == Err::<GEntry, InternalError>(e),
            }),
        decreases *req, 2nat,
    {
        match AggregationResults::from_intermediate_and_req_internal(entry.sub_aggregation, req) {
            Err(e) => Err(e),
            Ok(sub) => Ok(BucketEntry {
                key: Key::Str(term),
                doc_count: entry.doc_count,
                sub_aggregation: sub,
            }),
        }
    }
}

// ---------------------------------------------------------------------------
// Bucket conversion.

impl BucketResult {
    /// The empty form of a requested bucket aggregation, used when the
    /// bucket category is wholly absent so that the final tree keeps its
    /// shape: ranges keep one zero-count bucket per requested range,
    /// histogram keeps no buckets, terms keeps no buckets, zero excluded
    /// documents and no error bound.
    #[verifier::loop_isolation(false)]
    pub fn empty_from_req(req: &BucketAggregation) -> (r: Result<BucketResult, InternalError>)
        ensures
            (match r {
                Ok(br) => vbucket(br) == sempty_bucket(*req),
                Err(_) => false,
            }),
        decreases *req, 5nat,
    {
        let empty_bucket = IntermediateBucketResult::empty_from_req(&req.bucket_agg);
        proof {
            let ba = req.bucket_agg;
            match ba {
                BucketAggregationType::Range(rr) => {
                    lemma_empty_range_entries_conv(rr.ranges@, req.sub_aggregation);
                }
                BucketAggregationType::Histogram => {}
                BucketAggregationType::Terms => {}
            }
        }
        let r = BucketResult::from_intermediate_and_req(empty_bucket, req);
        match r {
            Ok(br) => Ok(br),
            Err(e) => {
                proof {
                    assert(false);
                }
                Err(e)
            }
        }
    }

    /// Convert one intermediate bucket result against its schema entry.
    /// The kinds must agree; each bucket's nested aggregations are
    /// finalized recursively; range buckets are sorted ascending by lower
    /// bound, ties stable, incomparable bounds equal.
    #[verifier::rlimit(100)]
    #[verifier::loop_isolation(false)]
    pub fn from_intermediate_and_req(bucket_result: IntermediateBucketResult,
        req: &BucketAggregation) -> (r: Result<BucketResult, InternalError>)
        ensures
            (match r {
                Ok(br) => sbucket_conv(bucket_result, *req) == Ok::<GBucket, InternalError>(
                    vbucket(br),
                ),
                Err(e) => sbucket_conv(bucket_result, *req) == Err::<GBucket, InternalError>(e),
            }),
        decreases *req, 4nat,
    {
        let ghost gb = bucket_result;
        match bucket_result {
            IntermediateBucketResult::Range(entries) => match &req.bucket_agg {
                BucketAggregationType::Range(_) => {
                    let ghost oes = entries@;
                    let mut rest = entries;
                    let mut buckets: Vec<RangeBucketEntry> = Vec::new();
                    let n = rest.len();
                    let mut j: usize = 0;
                    while j < n
                        invariant
                            j <= n,
                            oes.len() == n,
                            rest@ =~= oes.skip(j as int),
                            sconv_range_entries(oes.take(j as int), req.sub_aggregation)
                                == Ok::<Seq<GRangeEntry>, InternalError>(vrentries(buckets@)),
                            buckets@.len() == j,
                        decreases n - j,
                    {
                        let e = rest.remove(0);
                        proof {
                            assert(e == oes[j as int]);
                            assert(oes.skip(j as int).remove(0) =~= oes.skip(j as int + 1));
                            assert(oes.take(j as int + 1).drop_last() =~= oes.take(j as int));
                            assert(oes.take(j as int + 1).last() == oes[j as int]);
                            lemma_sconv_range_entries_step(oes, req.sub_aggregation, j as int);
                        }
                        match RangeBucketEntry::from_intermediate_and_req(e,
                            &req.sub_aggregation) {
                            Err(err) => {
                                proof {
                                    lemma_sconv_range_entries_err_extend(oes,
                                        req.sub_aggregation, j as int + 1, err);
                                }
                                return Err(err);
                            }
                            Ok(rbe) => {
                                let ghost pre = buckets@;
                                buckets.push(rbe);
                                proof {
                                    assert(buckets@.drop_last() =~= pre);
                                    assert(buckets@.last() == rbe);
                                    assert(vrentries(buckets@)
                                        == vrentries(pre).push(vrentry(rbe)));
                                    assert(sconv_range_entries(oes.take(j as int + 1),
                                        req.sub_aggregation)
                                        == Ok::<Seq<GRangeEntry>, InternalError>(
                                        vrentries(buckets@)));
                                }
                            }
                        }
                        j = j + 1;
                    }
                    proof {
                        assert(oes.take(n as int) =~= oes);
                    }
                    let ghost pre_sorted = vrentries(buckets@);
                    let buckets = sort_range_buckets(buckets);
                    proof {
                        assert(sbucket_conv(gb, *req) == Ok::<GBucket, InternalError>(
                            GBucket::Range(ssort_ranges(pre_sorted))));
                        assert(vbucket(BucketResult::Range { buckets })
                            == GBucket::Range(vrentries(buckets@)));
                    }
                    Ok(BucketResult::Range { buckets })
                }
                _ => Err(InternalError::KindMismatch),
            },
            IntermediateBucketResult::Histogram(entries) => match &req.bucket_agg {
                BucketAggregationType::Histogram => {
                    let ghost oes = entries@;
                    let mut rest = entries;
                    let mut buckets: Vec<BucketEntry> = Vec::new();
                    let n = rest.len();
                    let mut j: usize = 0;
                    while j < n
                        invariant
                            j <= n,
                            oes.len() == n,
                            rest@ =~= oes.skip(j as int),
                            sconv_hist_entries(oes.take(j as int), req.sub_aggregation)
                                == Ok::<Seq<GEntry>, InternalError>(ventries(buckets@)),
                            buckets@.len() == j,
                        decreases n - j,
                    {
                        let e = rest.remove(0);
                        proof {
                            assert(e == oes[j as int]);
                            assert(oes.skip(j as int).remove(0) =~= oes.skip(j as int + 1));
                            assert(oes.take(j as int + 1).drop_last() =~= oes.take(j as int));
                            assert(oes.take(j as int + 1).last() == oes[j as int]);
                            lemma_sconv_hist_entries_step(oes, req.sub_aggregation, j as int);
                        }
                        match BucketEntry::from_intermediate_and_req(e, &req.sub_aggregation) {
                            Err(err) => {
                                proof {
                                    lemma_sconv_hist_entries_err_extend(oes,
                                        req.sub_aggregation, j as int + 1, err);
                                }
                                return Err(err);
                            }
                            Ok(be) => {
                                let ghost pre = buckets@;
                                buckets.push(be);
                                proof {
                                    assert(buckets@.drop_last() =~= pre);
                                    assert(buckets@.last() == be);
                                    assert(ventries(buckets@)
                                        == ventries(pre).push(ventry(be)));
                                    assert(sconv_hist_entries(oes.take(j as int + 1),
                                        req.sub_aggregation)
                                        == Ok::<Seq<GEntry>, InternalError>(ventries(buckets@)));
                                }
                            }
                        }
                        j = j + 1;
                    }
                    proof {
                        assert(oes.take(n as int) =~= oes);
                        assert(sbucket_conv(gb, *req) == Ok::<GBucket, InternalError>(
                            GBucket::Histogram(ventries(buckets@))));
                    }
                    Ok(BucketResult::Histogram { buckets })
                }
                _ => Err(InternalError::KindMismatch),
            },
            IntermediateBucketResult::Terms(t) => match &req.bucket_agg {
                BucketAggregationType::Terms => {
                    let ghost oes = t.entries@;
                    let mut rest = t.entries;
                    let mut buckets: Vec<BucketEntry> = Vec::new();
                    let n = rest.len();
                    let mut j: usize = 0;
                    while j < n
                        invariant
                            j <= n,
                            oes.len() == n,
                            rest@ =~= oes.skip(j as int),
                            sconv_term_entries(oes.take(j as int), req.sub_aggregation)
                                == Ok::<Seq<GEntry>, InternalError>(ventries(buckets@)),
                            buckets@.len() == j,
                        decreases n - j,
                    {
                        let (term, e) = rest.remove(0);
                        proof {
                            assert((term, e) == oes[j as int]);
                            assert(oes.skip(j as int).remove(0) =~= oes.skip(j as int + 1));
                            assert(oes.take(j as int + 1).drop_last() =~= oes.take(j as int));
                            assert(oes.take(j as int + 1).last() == oes[j as int]);
                            lemma_sconv_term_entries_step(oes, req.sub_aggregation, j as int);
                        }
                        match BucketEntry::from_term_and_req(term, e, &req.sub_aggregation) {
                            Err(err) => {
                                proof {
                                    lemma_sconv_term_entries_err_extend(oes,
                                        req.sub_aggregation, j as int + 1, err);
                                }
                                return Err(err);
                            }
                            Ok(be) => {
                                let ghost pre = buckets@;
                                buckets.push(be);
                                proof {
                                    assert(buckets@.drop_last() =~= pre);
                                    assert(buckets@.last() == be);
                                    assert(ventries(buckets@)
                                        == ventries(pre).push(ventry(be)));
                                    assert(sconv_term_entries(oes.take(j as int + 1),
                                        req.sub_aggregation)
                                        == Ok::<Seq<GEntry>, InternalError>(ventries(buckets@)));
                                }
                            }
                        }
                        j = j + 1;
                    }
                    proof {
                        assert(oes.take(n as int) =~= oes);
                    }
                    Ok(BucketResult::Terms {
                        buckets,
                        sum_other_doc_count: t.sum_other_doc_count,
                        doc_count_error_upper_bound: t.doc_count_error_upper_bound,
                    })
                }
                _ => Err(InternalError::KindMismatch),
            },
        }
    }
}

// ---------------------------------------------------------------------------
// Metric conversion.

impl MetricResult {
    /// Finalize one intermediate metric against its schema kind.  The
    /// kinds must agree; the average follows the zero-count rule.
    pub fn from_intermediate_and_req(metric: IntermediateMetricResult, req: &MetricAggregation)
        -> (r: Result<MetricResult, InternalError>)
        ensures
            (match r {
                Ok(m) => smetric_conv(metric, *req) == Ok::<crate::model::GMetric, InternalError>(
                    vmetric(m),
                ),
                Err(e) => smetric_conv(metric, *req) == Err::<crate::model::GMetric,
                    InternalError>(e),
            }),
    {
        match (metric, req) {
            (IntermediateMetricResult::Average(a), MetricAggregation::Average) => Ok(
                MetricResult::Average(SingleMetricResult { value: a.finalize() }),
            ),
            (IntermediateMetricResult::Stats(st), MetricAggregation::Stats) => {
                let avg = IntermediateAverage { sum: st.sum, count: st.count }.finalize();
                Ok(MetricResult::Stats(Stats {
                    count: st.count,
                    sum: st.sum,
                    min: st.min,
                    max: st.max,
                    avg,
                }))
            }
            _ => Err(InternalError::KindMismatch),
        }
    }
}

// ---------------------------------------------------------------------------
// The finalization engine.

impl AggregationResults {
    /// Convert an intermediate result tree and its aggregation request to
    /// the final result tree.
    pub fn from_intermediate_and_req(results: IntermediateAggregationResults, agg: Aggregations)
        -> (r: Result<AggregationResults, InternalError>)
        ensures
            (match r {
                Ok(res) => sfinalize(results, agg) == Ok::<Map<Seq<char>, GAgg>, InternalError>(
                    vaggs(res),
                ) && crate::model::result_names(res) == crate::agg_req::schema_names(agg),
                Err(e) => sfinalize(results, agg) == Err::<Map<Seq<char>, GAgg>, InternalError>(e),
            }),
    {
        AggregationResults::from_intermediate_and_req_internal(results, &agg)
    }

    /// The recursive worker of finalization: one entry per schema name, in
    /// schema order, buckets before metrics; a present category is
    /// positionally converted, an absent one synthesized empty.
    #[verifier::rlimit(100)]
    #[verifier::loop_isolation(false)]
    pub fn from_intermediate_and_req_internal(
        intermediate_results: IntermediateAggregationResults,
        req: &Aggregations,
    ) -> (r: Result<AggregationResults, InternalError>)
        ensures
            (match r {
                Ok(res) => sfinalize(intermediate_results, *req)
                    == Ok::<Map<Seq<char>, GAgg>, InternalError>(vaggs(res))
                    && crate::model::result_names(res) == crate::agg_req::schema_names(*req),
                Err(e) => sfinalize(intermediate_results, *req)
                    == Err::<Map<Seq<char>, GAgg>, InternalError>(e),
            }),
        decreases *req, 0nat,
    {
        let ghost gi = intermediate_results;
        let IntermediateAggregationResults { buckets, metrics } = intermediate_results;
        let mut out: Vec<(String, AggregationResult)> = Vec::new();

        match buckets {
            Some(bs) => {
                if bs.len() != req.buckets.len() {
                    return Err(InternalError::ArityMismatch);
                }
                let ghost obs = bs@;
                let mut rest = bs;
                let n = req.buckets.len();
                let mut j: usize = 0;
                while j < n
                    invariant
                        j <= n,
                        obs.len() == n,
                        req.buckets@.len() == n,
                        rest@ =~= obs.skip(j as int),
                        sconv_buckets(obs.take(j as int), req.buckets@.take(j as int))
                            == Ok::<Map<Seq<char>, GAgg>, InternalError>(vaggs_seq(out@)),
                        out@.len() == j,
                        forall|k: int| 0 <= k < j ==> (#[trigger] out@[k]).0@
                            == req.buckets@[k].0@ && out@[k].1 is BucketResult,
                    decreases n - j,
                {
                    let (_iname, b) = rest.remove(0);
                    proof {
                        assert((_iname, b) == obs[j as int]);
                        assert(obs.skip(j as int).remove(0) =~= obs.skip(j as int + 1));
                        assert(obs.take(j as int + 1).drop_last() =~= obs.take(j as int));
                        assert(req.buckets@.take(j as int + 1).drop_last()
                            =~= req.buckets@.take(j as int));
                        assert(obs.take(j as int + 1).last() == obs[j as int]);
                        assert(req.buckets@.take(j as int + 1).last() == req.buckets@[j as int]);
                        lemma_sconv_buckets_step(obs, req.buckets@, j as int);
                    }
                    let name = req.buckets[j].0.clone();
                    match BucketResult::from_intermediate_and_req(b, &req.buckets[j].1) {
                        Err(e) => {
                            proof {
                                lemma_sconv_buckets_err_extend(obs, req.buckets@, j as int + 1,
                                    e);
                            }
                            return Err(e);
                        }
                        Ok(br) => {
                            let ghost pre = out@;
                            out.push((name, AggregationResult::BucketResult(br)));
                            proof {
                                assert(out@.drop_last() =~= pre);
                                assert(out@.last().0@ == req.buckets@[j as int].0@);
                                assert(vaggs_seq(out@) == vaggs_seq(pre).insert(
                                    out@.last().0@, vagg(out@.last().1)));
                                assert(sconv_buckets(obs.take(j as int + 1),
                                    req.buckets@.take(j as int + 1))
                                    == Ok::<Map<Seq<char>, GAgg>, InternalError>(
                                    vaggs_seq(out@)));
                            }
                        }
                    }
                    j = j + 1;
                }
                proof {
                    assert(obs.take(n as int) =~= obs);
                    assert(req.buckets@.take(n as int) =~= req.buckets@);
                }
            }
            None => {
                let n = req.buckets.len();
                let mut j: usize = 0;
                while j < n
                    invariant
                        j <= n,
                        req.buckets@.len() == n,
                        vaggs_seq(out@) == sempty_buckets(req.buckets@.take(j as int)),
                        out@.len() == j,
                        forall|k: int| 0 <= k < j ==> (#[trigger] out@[k]).0@
                            == req.buckets@[k].0@ && out@[k].1 is BucketResult,
                    decreases n - j,
                {
                    proof {
                        assert(req.buckets@.take(j as int + 1).drop_last()
                            =~= req.buckets@.take(j as int));
                        assert(req.buckets@.take(j as int + 1).last() == req.buckets@[j as int]);
                        lemma_sempty_buckets_step(req.buckets@, j as int);
                    }
                    let name = req.buckets[j].0.clone();
                    match BucketResult::empty_from_req(&req.buckets[j].1) {
                        Err(e) => {
                            return Err(e);
                        }
                        Ok(br) => {
                            let ghost pre = out@;
                            out.push((name, AggregationResult::BucketResult(br)));
                            proof {
                                assert(out@.drop_last() =~= pre);
                                assert(out@.last().0@ == req.buckets@[j as int].0@);
                                assert(vaggs_seq(out@) == vaggs_seq(pre).insert(
                                    out@.last().0@, vagg(out@.last().1)));
                                assert(vaggs_seq(out@) == sempty_buckets(
                                    req.buckets@.take(j as int + 1)));
                            }
                        }
                    }
                    j = j + 1;
                }
                proof {
                    assert(req.buckets@.take(n as int) =~= req.buckets@);
                }
            }
        }

        let ghost nb = out@.len();
        let ghost out_b = out@;
        let ghost bmap = vaggs_seq(out@);

        match metrics {
            Some(ms) => {
                if ms.len() != req.metrics.len() {
                    return Err(InternalError::ArityMismatch);
                }
                let ghost oms = ms@;
                let mut rest = ms;
                let n = req.metrics.len();
                let mut j: usize = 0;
                while j < n
                    invariant
                        j <= n,
                        oms.len() == n,
                        req.metrics@.len() == n,
                        rest@ =~= oms.skip(j as int),
                        sconv_metrics(oms.take(j as int), req.metrics@.take(j as int))
                            matches Ok(mm) && vaggs_seq(out@) == bmap.union_prefer_right(mm),
                        out@.len() == nb + j,
                        out@.take(nb as int) =~= out_b,
                        forall|k: int| 0 <= k < j ==> (#[trigger] out@[nb + k]).0@
                            == req.metrics@[k].0@ && out@[nb + k].1 is MetricResult,
                    decreases n - j,
                {
                    let (_iname, m) = rest.remove(0);
                    proof {
                        assert((_iname, m) == oms[j as int]);
                        assert(oms.skip(j as int).remove(0) =~= oms.skip(j as int + 1));
                        assert(oms.take(j as int + 1).drop_last() =~= oms.take(j as int));
                        assert(req.metrics@.take(j as int + 1).drop_last()
                            =~= req.metrics@.take(j as int));
                        assert(oms.take(j as int + 1).last() == oms[j as int]);
                        assert(req.metrics@.take(j as int + 1).last() == req.metrics@[j as int]);
                        lemma_sconv_metrics_step(oms, req.metrics@, j as int);
                    }
                    let name = req.metrics[j].0.clone();
                    match MetricResult::from_intermediate_and_req(m, &req.metrics[j].1) {
                        Err(e) => {
                            proof {
                                lemma_sconv_metrics_err_extend(oms, req.metrics@, j as int + 1,
                                    e);
                            }
                            return Err(e);
                        }
                        Ok(mr) => {
                            let ghost pre = out@;
                            out.push((name, AggregationResult::MetricResult(mr)));
                            proof {
                                assert(out@.drop_last() =~= pre);
                                assert(out@.last().0@ == req.metrics@[j as int].0@);
                                assert(vaggs_seq(out@) == vaggs_seq(pre).insert(
                                    out@.last().0@, vagg(out@.last().1)));
                                let mm = sconv_metrics(oms.take(j as int),
                                    req.metrics@.take(j as int))->Ok_0;
                                assert(bmap.union_prefer_right(mm).insert(out@.last().0@,
                                    vagg(out@.last().1)) =~= bmap.union_prefer_right(
                                    mm.insert(out@.last().0@, vagg(out@.last().1))));
                                assert(sconv_metrics(oms.take(j as int + 1),
                                    req.metrics@.take(j as int + 1))
                                    == Ok::<Map<Seq<char>, GAgg>, InternalError>(
                                    mm.insert(out@.last().0@, vagg(out@.last().1))));
                                assert(vaggs_seq(out@) == bmap.union_prefer_right(
                                    mm.insert(out@.last().0@, vagg(out@.last().1))));
                                assert(out@.take(nb as int) =~= out_b);
                            }
                        }
                    }
                    j = j + 1;
                }
                proof {
                    assert(oms.take(n as int) =~= oms);
                    assert(req.metrics@.take(n as int) =~= req.metrics@);
                }
            }
            None => {
                let n = req.metrics.len();
                let mut j: usize = 0;
                while j < n
                    invariant
                        j <= n,
                        req.metrics@.len() == n,
                        vaggs_seq(out@) == bmap.union_prefer_right(
                            sempty_metrics(req.metrics@.take(j as int))),
                        out@.len() == nb + j,
                        out@.take(nb as int) =~= out_b,
                        forall|k: int| 0 <= k < j ==> (#[trigger] out@[nb + k]).0@
                            == req.metrics@[k].0@ && out@[nb + k].1 is MetricResult,
                    decreases n - j,
                {
                    proof {
                        assert(req.metrics@.take(j as int + 1).drop_last()
                            =~= req.metrics@.take(j as int));
                        assert(req.metrics@.take(j as int + 1).last() == req.metrics@[j as int]);
                        lemma_sempty_metrics_step(req.metrics@, j as int);
                    }
                    let name = req.metrics[j].0.clone();
                    let empty_metric = IntermediateMetricResult::empty_from_req(&req.metrics[j].1);
                    proof {
                        crate::model::lemma_smetric_empty_conv(req.metrics@[j as int].1);
                    }
                    match MetricResult::from_intermediate_and_req(empty_metric,
                        &req.metrics[j].1) {
                        Err(e) => {
                            proof {
                                assert(false);
                            }
                            return Err(e);
                        }
                        Ok(mr) => {
                            proof {
                                assert(vmetric(mr) == smetric_empty(req.metrics@[j as int].1));
                            }
                            let ghost pre = out@;
                            out.push((name, AggregationResult::MetricResult(mr)));
                            proof {
                                assert(out@.drop_last() =~= pre);
                                assert(out@.last().0@ == req.metrics@[j as int].0@);
                                assert(vaggs_seq(out@) == vaggs_seq(pre).insert(
                                    out@.last().0@, vagg(out@.last().1)));
                                let mm = sempty_metrics(req.metrics@.take(j as int));
                                assert(bmap.union_prefer_right(mm).insert(out@.last().0@,
                                    vagg(out@.last().1)) =~= bmap.union_prefer_right(
                                    mm.insert(out@.last().0@, vagg(out@.last().1))));
                                assert(sempty_metrics(req.metrics@.take(j as int + 1))
                                    == mm.insert(out@.last().0@, vagg(out@.last().1)));
                                assert(vaggs_seq(out@) == bmap.union_prefer_right(
                                    sempty_metrics(req.metrics@.take(j as int + 1))));
                                assert(out@.take(nb as int) =~= out_b);
                            }
                        }
                    }
                    j = j + 1;
                }
                proof {
                    assert(req.metrics@.take(n as int) =~= req.metrics@);
                }
            }
        }

        let res = AggregationResults(out);
        proof {
            let names = crate::model::result_names(res);
            let snames = crate::agg_req::schema_names(*req);
            assert(nb == req.buckets@.len());
            assert(names.len() == snames.len());
            assert forall|k: int| 0 <= k < names.len() implies names[k] == snames[k] by {
                assert(names[k] == out@[k].0@);
                if k < nb {
                    assert(out@.take(nb as int)[k] == out@[k]);
                    assert(out_b[k].0@ == req.buckets@[k].0@);
                    assert(snames[k] == req.buckets@[k].0@);
                } else {
                    assert(out@[nb as int + (k - nb)].0@ == req.metrics@[k - nb].0@);
                    assert(snames[k] == req.metrics@[k - nb].0@);
                }
            }
            assert(names =~= snames);
        }
        Ok(res)
    }

    /// Look up the named scalar `agg_property` of the aggregation `name`.
    /// An unknown name is an internal error (validation runs upstream); a
    /// bucket result is an internal error (a scalar was asked of a bucket);
    /// a metric delegates to its property accessor.
    #[verifier::loop_isolation(false)]
    pub fn get_value_from_aggregation(&self, name: &str, agg_property: &str)
        -> (r: Result<Option<F64Bits>, InternalError>)
        requires
            crate::agg_req::distinct_names(crate::model::result_names(*self)),
        ensures
            (match r {
                Ok(v) => sget_value(vaggs(*self), name@, agg_property@)
                    == Ok::<Option<u64>, InternalError>(opt_bits(v)),
                Err(e) => sget_value(vaggs(*self), name@, agg_property@)
                    == Err::<Option<u64>, InternalError>(e),
            }),
    {
        let target = String::from_str(name);
        let n = self.0.len();
        let mut j: usize = 0;
        proof {
            lemma_vaggs_contains(self.0@, name@);
        }
        while j < n
            invariant
                j <= n,
                self.0@.len() == n,
                target@ == name@,
                crate::agg_req::distinct_names(crate::model::result_names(*self)),
                forall|k: int| 0 <= k < j ==> (#[trigger] self.0@[k]).0@ != name@,
            decreases n - j,
        {
            if self.0[j].0 == target {
                proof {
                    assert(self.0@[j as int].0@ == name@);
                    let names = crate::model::result_names(*self);
                    assert forall|k: int| j < k < n implies (#[trigger] self.0@[k]).0@ != name@
                    by {
                        assert(names[j as int] == self.0@[j as int].0@);
                        assert(names[k] == self.0@[k].0@);
                        assert(names[j as int] != names[k]);
                    }
                    lemma_vaggs_at(self.0@, name@, j as int);
                    assert(vaggs(*self)[name@] == vagg(self.0@[j as int].1));
                }
                return self.0[j].1.get_value_from_aggregation(name, agg_property);
            }
            j = j + 1;
        }
        proof {
            assert(!vaggs(*self).contains_key(name@));
        }
        Err(InternalError::MissingAggregation)
    }
}

impl AggregationResult {
    /// The named scalar of this result: an internal error for a bucket,
    /// the metric's property otherwise.
    pub fn get_value_from_aggregation(&self, _name: &str, agg_property: &str)
        -> (r: Result<Option<F64Bits>, InternalError>)
        ensures
            (match r {
                Ok(v) => (match vagg(*self) {
                    GAgg::Bucket(_) => false,
                    GAgg::Metric(gm) => smetric_get(gm, agg_property@)
                        == Ok::<Option<u64>, InternalError>(opt_bits(v)),
                }),
                Err(e) => (match vagg(*self) {
                    GAgg::Bucket(_) => e == InternalError::ScalarOnBucket,
                    GAgg::Metric(gm) => smetric_get(gm, agg_property@)
                        == Err::<Option<u64>, InternalError>(e),
                }),
            }),
    {
        match self {
            AggregationResult::BucketResult(_bucket) => Err(InternalError::ScalarOnBucket),
            AggregationResult::MetricResult(metric) => metric.get_value(agg_property),
        }
    }
}

impl MetricResult {
    /// The named scalar of this metric: an average answers every property
    /// with its value, stats delegate to their property accessor.
    pub fn get_value(&self, agg_property: &str) -> (r: Result<Option<F64Bits>, InternalError>)
        ensures
            (match r {
                Ok(v) => smetric_get(vmetric(*self), agg_property@)
                    == Ok::<Option<u64>, InternalError>(opt_bits(v)),
                Err(e) => smetric_get(vmetric(*self), agg_property@)
                    == Err::<Option<u64>, InternalError>(e),
            }),
    {
        match self {
            MetricResult::Average(avg) => Ok(avg.value),
            MetricResult::Stats(stats) => stats.get_value(agg_property),
        }
    }
}

impl Stats {
    /// The named scalar properties stats expose: `count`, `sum`, `min`,
    /// `max` and `avg`; anything else is an internal error.
    pub fn get_value(&self, agg_property: &str) -> (r: Result<Option<F64Bits>, InternalError>)
        ensures
            (match r {
                Ok(v) => smetric_get(vmetric(MetricResult::Stats(*self)), agg_property@)
                    == Ok::<Option<u64>, InternalError>(opt_bits(v)),
                Err(e) => smetric_get(vmetric(MetricResult::Stats(*self)), agg_property@)
                    == Err::<Option<u64>, InternalError>(e),
            }),
    {
        let prop = String::from_str(agg_property);
        if prop == String::from_str("count") {
            Ok(Some(F64Bits(f64_bits_from_u64(self.count))))
        } else if prop == String::from_str("sum") {
            Ok(Some(self.sum))
        } else if prop == String::from_str("min") {
            Ok(Some(self.min))
        } else if prop == String::from_str("max") {
            Ok(Some(self.max))
        } else if prop == String::from_str("avg") {
            Ok(self.avg)
        } else {
            Err(InternalError::UnknownProperty)
        }
    }
}

} // verus!
