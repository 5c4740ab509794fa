//! The mathematical model of finalization.
//!
//! The ghost tree (`GAgg` and friends) abstracts a final result tree: names
//! become character sequences, each level becomes a map (names are unique,
//! insertion order carries no meaning), bucket sequences stay ordered.  The
//! `sfinalize` family is the specification of the whole transformation; the
//! executable engine is proved to return exactly what it says.

use vstd::prelude::*;
use crate::InternalError;
use crate::Key;
use crate::f64bits::{F64Bits, avg_bits, f64_lt, F64_MIN_BITS, F64_INF_POS_BITS, F64_INF_NEG_BITS};
use crate::agg_req::{Aggregations, BucketAggregation, BucketAggregationType, MetricAggregation,
    RangeSpec};
use crate::intermediate::{IntermediateAggregationResults, IntermediateBucketResult,
    IntermediateRangeBucketEntry, IntermediateHistogramBucketEntry, IntermediateTermBucketEntry,
    IntermediateMetricResult, spec_finalize_average, spec_empty_intermediate};
use crate::agg_result::{AggregationResults, AggregationResult, BucketResult, MetricResult,
    BucketEntry, RangeBucketEntry};

verus! {

/// Model of a bucket key.
pub enum GKey {
    /// A numeric key, as a double's bit pattern.
    F64(u64),
    /// A string key.
    Str(Seq<char>),
}

/// Model of a finalized metric.
pub enum GMetric {
    /// A finalized average: absent when nothing contributed.
    Average(Option<u64>),
    /// Finalized stats; `avg` is absent when nothing contributed.
    Stats { count: u64, sum: u64, min: u64, max: u64, avg: Option<u64> },
}

/// Model of one histogram or term bucket.
pub struct GEntry {
    /// The bucket key.
    pub key: GKey,
    /// Number of documents in the bucket.
    pub doc_count: u64,
    /// The finalized nested aggregations.
    pub sub: Map<Seq<char>, GAgg>,
}

/// Model of one range bucket.
pub struct GRangeEntry {
    /// The bucket key.
    pub key: GKey,
    /// Number of documents in the bucket.
    pub doc_count: u64,
    /// Lower bound; absent means unbounded below.
    pub from: Option<u64>,
    /// Upper bound; absent means unbounded above.
    pub to: Option<u64>,
    /// The finalized nested aggregations.
    pub sub: Map<Seq<char>, GAgg>,
}

/// Model of a finalized bucket aggregation.
pub enum GBucket {
    /// Range buckets, ascending by lower bound.
    Range(Seq<GRangeEntry>),
    /// Histogram buckets, in intermediate order.
    Histogram(Seq<GEntry>),
    /// Term buckets with the count of excluded terms and the optional
    /// worst-case undercount bound.
    Terms {
        buckets: Seq<GEntry>,
        sum_other_doc_count: u64,
        doc_count_error_upper_bound: Option<u64>,
    },
}

/// Model of one finalized aggregation: a bucket or a metric.
pub enum GAgg {
    /// A bucket result.
    Bucket(GBucket),
    /// A metric result.
    Metric(GMetric),
}

/// The bits of an optional double.
pub open spec fn opt_bits(o: Option<F64Bits>) -> Option<u64> {
    match o {
        Some(x) => Some(x.0),
        None => None,
    }
}

/// Model of a key.
pub open spec fn vkey(k: Key) -> GKey {
    match k {
        Key::F64(b) => GKey::F64(b.0),
        Key::Str(s) => GKey::Str(s@),
    }
}

/// Model of a finalized metric result.
pub open spec fn vmetric(m: MetricResult) -> GMetric {
    match m {
        MetricResult::Average(s) => GMetric::Average(opt_bits(s.value)),
        MetricResult::Stats(st) => GMetric::Stats {
            count: st.count,
            sum: st.sum.0,
            min: st.min.0,
            max: st.max.0,
            avg: opt_bits(st.avg),
        },
    }
}

/// Model of a final result tree: the name-to-result map.
pub open spec fn vaggs(r: AggregationResults) -> Map<Seq<char>, GAgg>
    decreases r,
{
    vaggs_seq(r.0@)
}

/// The map a sequence of named results denotes; a later entry overrides an
/// earlier one of the same name.
pub open spec fn vaggs_seq(s: Seq<(String, AggregationResult)>) -> Map<Seq<char>, GAgg>
    decreases s,
{
    if s.len() == 0 {
        Map::empty()
    } else {
        vaggs_seq(s.drop_last()).insert(s.last().0@, vagg(s.last().1))
    }
}

/// Model of one aggregation result.
pub open spec fn vagg(a: AggregationResult) -> GAgg
    decreases a,
{
    match a {
        AggregationResult::BucketResult(b) => GAgg::Bucket(vbucket(b)),
        AggregationResult::MetricResult(m) => GAgg::Metric(vmetric(m)),
    }
}

/// Model of one bucket result.
pub open spec fn vbucket(b: BucketResult) -> GBucket
    decreases b,
{
    match b {
        BucketResult::Range { buckets } => GBucket::Range(vrentries(buckets@)),
        BucketResult::Histogram { buckets } => GBucket::Histogram(ventries(buckets@)),
        BucketResult::Terms { buckets, sum_other_doc_count, doc_count_error_upper_bound } => {
            GBucket::Terms {
                buckets: ventries(buckets@),
                sum_other_doc_count,
                doc_count_error_upper_bound,
            }
        }
    }
}

/// Model of a sequence of plain bucket entries.
pub open spec fn ventries(es: Seq<BucketEntry>) -> Seq<GEntry>
    decreases es,
{
    if es.len() == 0 {
        Seq::empty()
    } else {
        ventries(es.drop_last()).push(ventry(es.last()))
    }
}

/// Model of one plain bucket entry.
pub open spec fn ventry(e: BucketEntry) -> GEntry
    decreases e,
{
    GEntry { key: vkey(e.key), doc_count: e.doc_count, sub: vaggs(e.sub_aggregation) }
}

/// Model of a sequence of range bucket entries.
pub open spec fn vrentries(es: Seq<RangeBucketEntry>) -> Seq<GRangeEntry>
    decreases es,
{
    if es.len() == 0 {
        Seq::empty()
    } else {
        vrentries(es.drop_last()).push(vrentry(es.last()))
    }
}

/// Model of one range bucket entry.
pub open spec fn vrentry(e: RangeBucketEntry) -> GRangeEntry
    decreases e,
{
    GRangeEntry {
        key: vkey(e.key),
        doc_count: e.doc_count,
        from: opt_bits(e.from),
        to: opt_bits(e.to),
        sub: vaggs(e.sub_aggregation),
    }
}

// ---------------------------------------------------------------------------
// Ordering of range buckets.

/// The bits a model range entry's lower bound is compared as: an absent
/// bound stands for the smallest finite double.
pub open spec fn gfrom_bits(e: GRangeEntry) -> u64 {
    match e.from {
        Some(x) => x,
        None => F64_MIN_BITS,
    }
}

/// Whether `a` sorts strictly after `b`: the IEEE order of the lower
/// bounds, incomparable bounds equal.
pub open spec fn gt_range(a: GRangeEntry, b: GRangeEntry) -> bool {
    f64_lt(gfrom_bits(b), gfrom_bits(a))
}

/// Insert `x` into `s` from the right, before every element that sorts
/// strictly after it: the insertion step of a stable insertion sort.
pub open spec fn sinsert_range(s: Seq<GRangeEntry>, x: GRangeEntry) -> Seq<GRangeEntry>
    decreases s.len(),
{
    if s.len() > 0 && gt_range(s.last(), x) {
        sinsert_range(s.drop_last(), x).push(s.last())
    } else {
        s.push(x)
    }
}

/// Stable insertion sort of range entries, ascending by lower bound.
pub open spec fn ssort_ranges(s: Seq<GRangeEntry>) -> Seq<GRangeEntry>
    decreases s.len(),
{
    if s.len() == 0 {
        Seq::empty()
    } else {
        sinsert_range(ssort_ranges(s.drop_last()), s.last())
    }
}

// ---------------------------------------------------------------------------
// The finalization transformation.

/// The specification of finalization: convert an intermediate tree against
/// its schema.  A present category must have the schema's arity; each entry
/// is converted against its positional schema entry under the schema's
/// name; an absent category is synthesized in its empty form.
pub open spec fn sfinalize(i: IntermediateAggregationResults, s: Aggregations)
    -> Result<Map<Seq<char>, GAgg>, InternalError>
    decreases s, 0nat,
{
    let bres = match i.buckets {
        Some(bs) => if bs@.len() != s.buckets@.len() {
            Err(InternalError::ArityMismatch)
        } else {
            sconv_buckets(bs@, s.buckets@)
        },
        None => Ok(sempty_buckets(s.buckets@)),
    };
    let mres = match i.metrics {
        Some(ms) => if ms@.len() != s.metrics@.len() {
            Err(InternalError::ArityMismatch)
        } else {
            sconv_metrics(ms@, s.metrics@)
        },
        None => Ok(sempty_metrics(s.metrics@)),
    };
    match (bres, mres) {
        (Err(e), _) => Err(e),
        (Ok(_), Err(e)) => Err(e),
        (Ok(b), Ok(m)) => Ok(b.union_prefer_right(m)),
    }
}

/// Positional conversion of the bucket category, leftmost error first.
pub open spec fn sconv_buckets(
    bs: Seq<(String, IntermediateBucketResult)>,
    reqs: Seq<(String, BucketAggregation)>,
) -> Result<Map<Seq<char>, GAgg>, InternalError>
    recommends
        bs.len() == reqs.len(),
    decreases reqs, 0nat,
{
    if reqs.len() == 0 || bs.len() == 0 {
        Ok(Map::empty())
    } else {
        match sconv_buckets(bs.drop_last(), reqs.drop_last()) {
            Err(e) => Err(e),
            Ok(m) => match sbucket_conv(bs.last().1, reqs.last().1) {
                Err(e) => Err(e),
                Ok(g) => Ok(m.insert(reqs.last().0@, GAgg::Bucket(g))),
            },
        }
    }
}

/// Conversion of one intermediate bucket result against its schema entry.
/// The kinds must agree; range buckets are sorted after conversion.
pub open spec fn sbucket_conv(b: IntermediateBucketResult, req: BucketAggregation)
    -> Result<GBucket, InternalError>
    decreases req, 4nat,
{
    match b {
        IntermediateBucketResult::Range(entries) => match req.bucket_agg {
            BucketAggregationType::Range(_) => {
                match sconv_range_entries(entries@, req.sub_aggregation) {
                    Err(e) => Err(e),
                    Ok(ges) => Ok(GBucket::Range(ssort_ranges(ges))),
                }
            }
            _ => Err(InternalError::KindMismatch),
        },
        IntermediateBucketResult::Histogram(entries) => match req.bucket_agg {
            BucketAggregationType::Histogram => {
                match sconv_hist_entries(entries@, req.sub_aggregation) {
                    Err(e) => Err(e),
                    Ok(ges) => Ok(GBucket::Histogram(ges)),
                }
            }
            _ => Err(InternalError::KindMismatch),
        },
        IntermediateBucketResult::Terms(t) => match req.bucket_agg {
            BucketAggregationType::Terms => {
                match sconv_term_entries(t.entries@, req.sub_aggregation) {
                    Err(e) => Err(e),
                    Ok(ges) => Ok(GBucket::Terms {
                        buckets: ges,
                        sum_other_doc_count: t.sum_other_doc_count,
                        doc_count_error_upper_bound: t.doc_count_error_upper_bound,
                    }),
                }
            }
            _ => Err(InternalError::KindMismatch),
        },
    }
}

/// Conversion of a sequence of intermediate range entries, in order.
pub open spec fn sconv_range_entries(es: Seq<IntermediateRangeBucketEntry>, sub: Aggregations)
    -> Result<Seq<GRangeEntry>, InternalError>
    decreases sub, es.len() + 2nat,
{
    if es.len() == 0 {
        Ok(Seq::empty())
    } else {
        match sconv_range_entries(es.drop_last(), sub) {
            Err(e) => Err(e),
            Ok(rest) => match sconv_range_entry(es.last(), sub) {
                Err(e) => Err(e),
                Ok(g) => Ok(rest.push(g)),
            },
        }
    }
}

/// Conversion of one intermediate range entry: the nested tree is
/// finalized recursively, everything else is carried over.
pub open spec fn sconv_range_entry(e: IntermediateRangeBucketEntry, sub: Aggregations)
    -> Result<GRangeEntry, InternalError>
    decreases sub, 1nat,
{
    match sfinalize(e.sub_aggregation, sub) {
        Err(err) => Err(err),
        Ok(m) => Ok(GRangeEntry {
            key: vkey(e.key),
            doc_count: e.doc_count,
            from: opt_bits(e.from),
            to: opt_bits(e.to),
            sub: m,
        }),
    }
}

/// Conversion of a sequence of intermediate histogram entries, in order.
pub open spec fn sconv_hist_entries(es: Seq<IntermediateHistogramBucketEntry>, sub: Aggregations)
    -> Result<Seq<GEntry>, InternalError>
    decreases sub, es.len() + 2nat,
{
    if es.len() == 0 {
        Ok(Seq::empty())
    } else {
        match sconv_hist_entries(es.drop_last(), sub) {
            Err(e) => Err(e),
            Ok(rest) => match sconv_hist_entry(es.last(), sub) {
                Err(e) => Err(e),
                Ok(g) => Ok(rest.push(g)),
            },
        }
    }
}

/// Conversion of one intermediate histogram entry: the key becomes a
/// numeric bucket key, the nested tree is finalized recursively.
pub open spec fn sconv_hist_entry(e: IntermediateHistogramBucketEntry, sub: Aggregations)
    -> Result<GEntry, InternalError>
    decreases sub, 1nat,
{
    match sfinalize(e.sub_aggregation, sub) {
        Err(err) => Err(err),
        Ok(m) => Ok(GEntry { key: GKey::F64(e.key.0), doc_count: e.doc_count, sub: m }),
    }
}

/// Conversion of the selected term entries, in reporting order.
pub open spec fn sconv_term_entries(
    es: Seq<(String, IntermediateTermBucketEntry)>,
    sub: Aggregations,
) -> Result<Seq<GEntry>, InternalError>
    decreases sub, es.len() + 2nat,
{
    if es.len() == 0 {
        Ok(Seq::empty())
    } else {
        match sconv_term_entries(es.drop_last(), sub) {
            Err(e) => Err(e),
            Ok(rest) => match sconv_term_entry(es.last().0, es.last().1, sub) {
                Err(e) => Err(e),
                Ok(g) => Ok(rest.push(g)),
            },
        }
    }
}

/// Conversion of one selected term entry: the term becomes the key, the
/// nested tree is finalized recursively.
pub open spec fn sconv_term_entry(
    term: String,
    e: IntermediateTermBucketEntry,
    sub: Aggregations,
) -> Result<GEntry, InternalError>
    decreases sub, 1nat,
{
    match sfinalize(e.sub_aggregation, sub) {
        Err(err) => Err(err),
        Ok(m) => Ok(GEntry { key: GKey::Str(term@), doc_count: e.doc_count, sub: m }),
    }
}

// ---------------------------------------------------------------------------
// Empty synthesis: the shape the schema fixes when a category is absent.

/// One synthesized empty result per requested bucket aggregation.
pub open spec fn sempty_buckets(reqs: Seq<(String, BucketAggregation)>)
    -> Map<Seq<char>, GAgg>
    decreases reqs, 0nat,
{
    if reqs.len() == 0 {
        Map::empty()
    } else {
        sempty_buckets(reqs.drop_last()).insert(
            reqs.last().0@,
            GAgg::Bucket(sempty_bucket(reqs.last().1)),
        )
    }
}

/// The empty form of one requested bucket aggregation: range keeps its
/// normal shape with zero counts, histogram and terms keep no buckets and
/// terms reports zero excluded documents and no error bound.
pub open spec fn sempty_bucket(req: BucketAggregation) -> GBucket
    decreases req, 4nat,
{
    match req.bucket_agg {
        BucketAggregationType::Range(rr) => GBucket::Range(
            ssort_ranges(sempty_ranges(rr.ranges@, req.sub_aggregation)),
        ),
        BucketAggregationType::Histogram => GBucket::Histogram(Seq::empty()),
        BucketAggregationType::Terms => GBucket::Terms {
            buckets: Seq::empty(),
            sum_other_doc_count: 0,
            doc_count_error_upper_bound: None,
        },
    }
}

/// The zero-count range entries of the requested ranges, each nesting the
/// empty form of the sub-schema.
pub open spec fn sempty_ranges(specs: Seq<RangeSpec>, sub: Aggregations) -> Seq<GRangeEntry>
    decreases sub, specs.len() + 2nat,
{
    if specs.len() == 0 {
        Seq::empty()
    } else {
        sempty_ranges(specs.drop_last(), sub).push(GRangeEntry {
            key: GKey::Str(specs.last().key@),
            doc_count: 0,
            from: opt_bits(specs.last().from),
            to: opt_bits(specs.last().to),
            sub: sempty_aggs(sub),
        })
    }
}

/// The wholly empty finalization of a schema: what finalizing the empty
/// intermediate tree yields.
pub open spec fn sempty_aggs(s: Aggregations) -> Map<Seq<char>, GAgg>
    decreases s, 1nat,
{
    sempty_buckets(s.buckets@).union_prefer_right(sempty_metrics(s.metrics@))
}

/// One synthesized empty result per requested metric aggregation.
pub open spec fn sempty_metrics(reqs: Seq<(String, MetricAggregation)>)
    -> Map<Seq<char>, GAgg>
    decreases reqs.len(),
{
    if reqs.len() == 0 {
        Map::empty()
    } else {
        sempty_metrics(reqs.drop_last()).insert(
            reqs.last().0@,
            GAgg::Metric(smetric_empty(reqs.last().1)),
        )
    }
}

/// The empty form of one requested metric: an absent average; stats with
/// zero count, zero sum, sentinel bounds and an absent average.
pub open spec fn smetric_empty(req: MetricAggregation) -> GMetric {
    match req {
        MetricAggregation::Average => GMetric::Average(None),
        MetricAggregation::Stats => GMetric::Stats {
            count: 0,
            sum: 0,
            min: F64_INF_POS_BITS,
            max: F64_INF_NEG_BITS,
            avg: None,
        },
    }
}

// ---------------------------------------------------------------------------
// Metric conversion.

/// Positional conversion of the metric category, leftmost error first.
pub open spec fn sconv_metrics(
    ms: Seq<(String, IntermediateMetricResult)>,
    reqs: Seq<(String, MetricAggregation)>,
) -> Result<Map<Seq<char>, GAgg>, InternalError>
    recommends
        ms.len() == reqs.len(),
    decreases reqs.len(),
{
    if reqs.len() == 0 || ms.len() == 0 {
        Ok(Map::empty())
    } else {
        match sconv_metrics(ms.drop_last(), reqs.drop_last()) {
            Err(e) => Err(e),
            Ok(m) => match smetric_conv(ms.last().1, reqs.last().1) {
                Err(e) => Err(e),
                Ok(g) => Ok(m.insert(reqs.last().0@, GAgg::Metric(g))),
            },
        }
    }
}

/// Finalization of one intermediate metric against its schema kind: the
/// kinds must agree; the average is absent exactly when nothing
/// contributed, and otherwise the IEEE quotient of sum by count.
pub open spec fn smetric_conv(m: IntermediateMetricResult, req: MetricAggregation)
    -> Result<GMetric, InternalError>
{
    match (m, req) {
        (IntermediateMetricResult::Average(a), MetricAggregation::Average) => Ok(
            GMetric::Average(opt_bits(spec_finalize_average(a))),
        ),
        (IntermediateMetricResult::Stats(st), MetricAggregation::Stats) => Ok(GMetric::Stats {
            count: st.count,
            sum: st.sum.0,
            min: st.min.0,
            max: st.max.0,
            avg: if st.count == 0 {
                None
            } else {
                Some(avg_bits(st.sum.0, st.count))
            },
        }),
        _ => Err(InternalError::KindMismatch),
    }
}

// ---------------------------------------------------------------------------
// Scalar lookup.

/// Lookup of a named scalar in a finalized tree: an unknown name or a
/// bucket result is an internal error; a metric delegates to its property
/// accessor.
pub open spec fn sget_value(m: Map<Seq<char>, GAgg>, name: Seq<char>, prop: Seq<char>)
    -> Result<Option<u64>, InternalError>
{
    if !m.contains_key(name) {
        Err(InternalError::MissingAggregation)
    } else {
        match m[name] {
            GAgg::Bucket(_) => Err(InternalError::ScalarOnBucket),
            GAgg::Metric(gm) => smetric_get(gm, prop),
        }
    }
}

/// The named scalar properties a metric exposes.  An average answers every
/// property with its value; stats answer `count`, `sum`, `min`, `max` and
/// `avg` and refuse anything else.
pub open spec fn smetric_get(gm: GMetric, prop: Seq<char>) -> Result<Option<u64>, InternalError> {
    match gm {
        GMetric::Average(v) => Ok(v),
        GMetric::Stats { count, sum, min, max, avg } => if prop == "count"@ {
            Ok(Some(crate::f64bits::f64_bits_of_u64(count)))
        } else if prop == "sum"@ {
            Ok(Some(sum))
        } else if prop == "min"@ {
            Ok(Some(min))
        } else if prop == "max"@ {
            Ok(Some(max))
        } else if prop == "avg"@ {
            Ok(avg)
        } else {
            Err(InternalError::UnknownProperty)
        },
    }
}

/// The names of a final result tree, in stored order.
pub open spec fn result_names(r: AggregationResults) -> Seq<Seq<char>> {
    r.0@.map(|i: int, p: (String, AggregationResult)| p.0@)
}

// ---------------------------------------------------------------------------
// Supporting lemmas.

/// Finalizing the empty intermediate metric of a kind against that kind
/// yields the kind's empty form.
pub proof fn lemma_smetric_empty_conv(req: MetricAggregation)
    ensures
        smetric_conv(crate::intermediate::spec_empty_metric(req), req)
            == Ok::<GMetric, InternalError>(smetric_empty(req)),
{
}

/// The model of an entry sequence is its pointwise model.
pub proof fn lemma_vrentries_index(s: Seq<RangeBucketEntry>)
    ensures
        vrentries(s).len() == s.len(),
        forall|i: int| 0 <= i < s.len() ==> vrentries(s)[i] == vrentry(s[i]),
    decreases s.len(),
{
    if s.len() > 0 {
        lemma_vrentries_index(s.drop_last());
    }
}

/// A failing prefix decides the whole bucket conversion.
pub proof fn lemma_sconv_buckets_err_extend(
    bs: Seq<(String, IntermediateBucketResult)>,
    reqs: Seq<(String, BucketAggregation)>,
    j: int,
    e: InternalError,
)
    requires
        0 <= j <= reqs.len(),
        bs.len() == reqs.len(),
        sconv_buckets(bs.take(j), reqs.take(j)) == Err::<Map<Seq<char>, GAgg>, InternalError>(e),
    ensures
        sconv_buckets(bs, reqs) == Err::<Map<Seq<char>, GAgg>, InternalError>(e),
    decreases reqs.len() - j,
{
    if j == reqs.len() {
        assert(bs.take(j) =~= bs);
        assert(reqs.take(j) =~= reqs);
    } else {
        assert(bs.take(j + 1).drop_last() =~= bs.take(j));
        assert(reqs.take(j + 1).drop_last() =~= reqs.take(j));
        lemma_sconv_buckets_err_extend(bs, reqs, j + 1, e);
    }
}

/// A failing prefix decides the whole metric conversion.
pub proof fn lemma_sconv_metrics_err_extend(
    ms: Seq<(String, IntermediateMetricResult)>,
    reqs: Seq<(String, MetricAggregation)>,
    j: int,
    e: InternalError,
)
    requires
        0 <= j <= reqs.len(),
        ms.len() == reqs.len(),
        sconv_metrics(ms.take(j), reqs.take(j)) == Err::<Map<Seq<char>, GAgg>, InternalError>(e),
    ensures
        sconv_metrics(ms, reqs) == Err::<Map<Seq<char>, GAgg>, InternalError>(e),
    decreases reqs.len() - j,
{
    if j == reqs.len() {
        assert(ms.take(j) =~= ms);
        assert(reqs.take(j) =~= reqs);
    } else {
        assert(ms.take(j + 1).drop_last() =~= ms.take(j));
        assert(reqs.take(j + 1).drop_last() =~= reqs.take(j));
        lemma_sconv_metrics_err_extend(ms, reqs, j + 1, e);
    }
}

/// A failing prefix decides the whole range entry conversion.
pub proof fn lemma_sconv_range_entries_err_extend(
    es: Seq<IntermediateRangeBucketEntry>,
    sub: Aggregations,
    j: int,
    e: InternalError,
)
    requires
        0 <= j <= es.len(),
        sconv_range_entries(es.take(j), sub) == Err::<Seq<GRangeEntry>, InternalError>(e),
    ensures
        sconv_range_entries(es, sub) == Err::<Seq<GRangeEntry>, InternalError>(e),
    decreases es.len() - j,
{
    if j == es.len() {
        assert(es.take(j) =~= es);
    } else {
        assert(es.take(j + 1).drop_last() =~= es.take(j));
        lemma_sconv_range_entries_err_extend(es, sub, j + 1, e);
    }
}

/// A failing prefix decides the whole histogram entry conversion.
pub proof fn lemma_sconv_hist_entries_err_extend(
    es: Seq<IntermediateHistogramBucketEntry>,
    sub: Aggregations,
    j: int,
    e: InternalError,
)
    requires
        0 <= j <= es.len(),
        sconv_hist_entries(es.take(j), sub) == Err::<Seq<GEntry>, InternalError>(e),
    ensures
        sconv_hist_entries(es, sub) == Err::<Seq<GEntry>, InternalError>(e),
    decreases es.len() - j,
{
    if j == es.len() {
        assert(es.take(j) =~= es);
    } else {
        assert(es.take(j + 1).drop_last() =~= es.take(j));
        lemma_sconv_hist_entries_err_extend(es, sub, j + 1, e);
    }
}

/// A failing prefix decides the whole term entry conversion.
pub proof fn lemma_sconv_term_entries_err_extend(
    es: Seq<(String, IntermediateTermBucketEntry)>,
    sub: Aggregations,
    j: int,
    e: InternalError,
)
    requires
        0 <= j <= es.len(),
        sconv_term_entries(es.take(j), sub) == Err::<Seq<GEntry>, InternalError>(e),
    ensures
        sconv_term_entries(es, sub) == Err::<Seq<GEntry>, InternalError>(e),
    decreases es.len() - j,
{
    if j == es.len() {
        assert(es.take(j) =~= es);
    } else {
        assert(es.take(j + 1).drop_last() =~= es.take(j));
        lemma_sconv_term_entries_err_extend(es, sub, j + 1, e);
    }
}

/// One step of the range entry conversion, on a growing prefix.
pub proof fn lemma_sconv_range_entries_step(
    es: Seq<IntermediateRangeBucketEntry>,
    sub: Aggregations,
    j: int,
)
    requires
        0 <= j < es.len(),
    ensures
        sconv_range_entries(es.take(j + 1), sub) == (match (
            sconv_range_entries(es.take(j), sub),
            sconv_range_entry(es[j], sub),
        ) {
            (Err(e), _) => Err::<Seq<GRangeEntry>, InternalError>(e),
            (Ok(_), Err(e)) => Err::<Seq<GRangeEntry>, InternalError>(e),
            (Ok(rest), Ok(g)) => Ok::<Seq<GRangeEntry>, InternalError>(rest.push(g)),
        }),
{
    let t1 = es.take(j + 1);
    assert(t1.drop_last() =~= es.take(j));
    assert(t1.last() == es[j]);
}

/// One step of the histogram entry conversion, on a growing prefix.
pub proof fn lemma_sconv_hist_entries_step(
    es: Seq<IntermediateHistogramBucketEntry>,
    sub: Aggregations,
    j: int,
)
    requires
        0 <= j < es.len(),
    ensures
        sconv_hist_entries(es.take(j + 1), sub) == (match (
            sconv_hist_entries(es.take(j), sub),
            sconv_hist_entry(es[j], sub),
        ) {
            (Err(e), _) => Err::<Seq<GEntry>, InternalError>(e),
            (Ok(_), Err(e)) => Err::<Seq<GEntry>, InternalError>(e),
            (Ok(rest), Ok(g)) => Ok::<Seq<GEntry>, InternalError>(rest.push(g)),
        }),
{
    let t1 = es.take(j + 1);
    assert(t1.drop_last() =~= es.take(j));
    assert(t1.last() == es[j]);
}

/// One step of the term entry conversion, on a growing prefix.
pub proof fn lemma_sconv_term_entries_step(
    es: Seq<(String, IntermediateTermBucketEntry)>,
    sub: Aggregations,
    j: int,
)
    requires
        0 <= j < es.len(),
    ensures
        sconv_term_entries(es.take(j + 1), sub) == (match (
            sconv_term_entries(es.take(j), sub),
            sconv_term_entry(es[j].0, es[j].1, sub),
        ) {
            (Err(e), _) => Err::<Seq<GEntry>, InternalError>(e),
            (Ok(_), Err(e)) => Err::<Seq<GEntry>, InternalError>(e),
            (Ok(rest), Ok(g)) => Ok::<Seq<GEntry>, InternalError>(rest.push(g)),
        }),
{
    let t1 = es.take(j + 1);
    assert(t1.drop_last() =~= es.take(j));
    assert(t1.last() == es[j]);
}

/// One step of the bucket category conversion, on growing prefixes.
pub proof fn lemma_sconv_buckets_step(
    bs: Seq<(String, IntermediateBucketResult)>,
    reqs: Seq<(String, BucketAggregation)>,
    j: int,
)
    requires
        0 <= j < reqs.len(),
        j < bs.len(),
    ensures
        sconv_buckets(bs.take(j + 1), reqs.take(j + 1)) == (match (
            sconv_buckets(bs.take(j), reqs.take(j)),
            sbucket_conv(bs[j].1, reqs[j].1),
        ) {
            (Err(e), _) => Err::<Map<Seq<char>, GAgg>, InternalError>(e),
            (Ok(_), Err(e)) => Err::<Map<Seq<char>, GAgg>, InternalError>(e),
            (Ok(m), Ok(g)) => Ok::<Map<Seq<char>, GAgg>, InternalError>(
                m.insert(reqs[j].0@, GAgg::Bucket(g)),
            ),
        }),
{
    let b1 = bs.take(j + 1);
    let r1 = reqs.take(j + 1);
    assert(b1.drop_last() =~= bs.take(j));
    assert(r1.drop_last() =~= reqs.take(j));
    assert(b1.last() == bs[j]);
    assert(r1.last() == reqs[j]);
}

/// One step of the metric category conversion, on growing prefixes.
pub proof fn lemma_sconv_metrics_step(
    ms: Seq<(String, IntermediateMetricResult)>,
    reqs: Seq<(String, MetricAggregation)>,
    j: int,
)
    requires
        0 <= j < reqs.len(),
        j < ms.len(),
    ensures
        sconv_metrics(ms.take(j + 1), reqs.take(j + 1)) == (match (
            sconv_metrics(ms.take(j), reqs.take(j)),
            smetric_conv(ms[j].1, reqs[j].1),
        ) {
            (Err(e), _) => Err::<Map<Seq<char>, GAgg>, InternalError>(e),
            (Ok(_), Err(e)) => Err::<Map<Seq<char>, GAgg>, InternalError>(e),
            (Ok(m), Ok(g)) => Ok::<Map<Seq<char>, GAgg>, InternalError>(
                m.insert(reqs[j].0@, GAgg::Metric(g)),
            ),
        }),
{
    let m1 = ms.take(j + 1);
    let r1 = reqs.take(j + 1);
    assert(m1.drop_last() =~= ms.take(j));
    assert(r1.drop_last() =~= reqs.take(j));
    assert(m1.last() == ms[j]);
    assert(r1.last() == reqs[j]);
}

/// One step of the empty bucket synthesis, on a growing prefix.
pub proof fn lemma_sempty_buckets_step(reqs: Seq<(String, BucketAggregation)>, j: int)
    requires
        0 <= j < reqs.len(),
    ensures
        sempty_buckets(reqs.take(j + 1)) == sempty_buckets(reqs.take(j)).insert(
            reqs[j].0@,
            GAgg::Bucket(sempty_bucket(reqs[j].1)),
        ),
{
    let r1 = reqs.take(j + 1);
    assert(r1.drop_last() =~= reqs.take(j));
    assert(r1.last() == reqs[j]);
}

/// One step of the empty metric synthesis, on a growing prefix.
pub proof fn lemma_sempty_metrics_step(reqs: Seq<(String, MetricAggregation)>, j: int)
    requires
        0 <= j < reqs.len(),
    ensures
        sempty_metrics(reqs.take(j + 1)) == sempty_metrics(reqs.take(j)).insert(
            reqs[j].0@,
            GAgg::Metric(smetric_empty(reqs[j].1)),
        ),
{
    let r1 = reqs.take(j + 1);
    assert(r1.drop_last() =~= reqs.take(j));
    assert(r1.last() == reqs[j]);
}

/// Finalizing the wholly empty intermediate tree always succeeds, with the
/// schema's empty form.
pub proof fn lemma_sfinalize_empty(s: Aggregations)
    ensures
        sfinalize(spec_empty_intermediate(), s) == Ok::<Map<Seq<char>, GAgg>, InternalError>(
            sempty_aggs(s),
        ),
{
}

/// Converting the synthesized zero-count range entries yields exactly the
/// schema's empty range shape.
pub proof fn lemma_empty_range_entries_conv(specs: Seq<RangeSpec>, sub: Aggregations)
    ensures
        sconv_range_entries(crate::intermediate::spec_empty_range_entries(specs), sub)
            == Ok::<Seq<GRangeEntry>, InternalError>(sempty_ranges(specs, sub)),
        crate::intermediate::spec_empty_range_entries(specs).len() == specs.len(),
    decreases specs.len(),
{
    let es = crate::intermediate::spec_empty_range_entries(specs);
    if specs.len() == 0 {
    } else {
        lemma_empty_range_entries_conv(specs.drop_last(), sub);
        lemma_sfinalize_empty(sub);
        assert(es.drop_last() =~= crate::intermediate::spec_empty_range_entries(
            specs.drop_last()));
        let last = es.last();
        assert(last.sub_aggregation == spec_empty_intermediate());
        assert(sconv_range_entry(last, sub) == Ok::<GRangeEntry, InternalError>(GRangeEntry {
            key: GKey::Str(specs.last().key@),
            doc_count: 0,
            from: opt_bits(specs.last().from),
            to: opt_bits(specs.last().to),
            sub: sempty_aggs(sub),
        }));
        assert(sconv_range_entries(es, sub) == Ok::<Seq<GRangeEntry>, InternalError>(
            sempty_ranges(specs.drop_last(), sub).push(GRangeEntry {
                key: GKey::Str(specs.last().key@),
                doc_count: 0,
                from: opt_bits(specs.last().from),
                to: opt_bits(specs.last().to),
                sub: sempty_aggs(sub),
            }),
        ));
    }
}

/// A name is in the model of a result sequence exactly when some entry
/// carries it.
pub proof fn lemma_vaggs_contains(s: Seq<(String, AggregationResult)>, name: Seq<char>)
    ensures
        vaggs_seq(s).contains_key(name) <==> exists|j: int|
            0 <= j < s.len() && s[j].0@ == name,
    decreases s.len(),
{
    if s.len() > 0 {
        let sd = s.drop_last();
        lemma_vaggs_contains(sd, name);
        assert(forall|j: int| 0 <= j < sd.len() ==> sd[j] == s[j]);
        if s.last().0@ == name {
            assert(s[s.len() - 1].0@ == name);
        } else {
            if exists|j: int| 0 <= j < s.len() && s[j].0@ == name {
                let j = choose|j: int| 0 <= j < s.len() && s[j].0@ == name;
                assert(j < sd.len());
                assert(sd[j].0@ == name);
            }
        }
    }
}

/// The model maps a name to the model of the last entry that carries it.
pub proof fn lemma_vaggs_at(s: Seq<(String, AggregationResult)>, name: Seq<char>, j: int)
    requires
        0 <= j < s.len(),
        s[j].0@ == name,
        forall|k: int| j < k < s.len() ==> (#[trigger] s[k]).0@ != name,
    ensures
        vaggs_seq(s).contains_key(name),
        vaggs_seq(s)[name] == vagg(s[j].1),
    decreases s.len(),
{
    if j == s.len() - 1 {
    } else {
        let sd = s.drop_last();
        assert(forall|k: int| 0 <= k < sd.len() ==> sd[k] == s[k]);
        lemma_vaggs_at(sd, name, j);
        assert(s[s.len() - 1].0@ != name);
        assert(s.last().0@ != name);
    }
}

} // verus!
