//! The laws the finalization engine obeys, stated and proved once over the
//! model: the schema alone fixes the output's names and kinds, the empty
//! intermediate tree finalizes to the schema's empty form, an arity
//! mismatch always fails, and sorted range output is ascending when every
//! bound is comparable.

use vstd::prelude::*;
use crate::InternalError;
use crate::f64bits::is_nan_bits;
use crate::agg_req::{Aggregations, BucketAggregation, MetricAggregation};
use crate::intermediate::{IntermediateAggregationResults, IntermediateBucketResult,
    IntermediateMetricResult, spec_empty_intermediate};
use crate::model::{GAgg, GBucket, GMetric, GRangeEntry, gfrom_bits, gt_range, sinsert_range,
    ssort_ranges, sfinalize, sconv_buckets, sbucket_conv, sconv_metrics, smetric_conv,
    sempty_buckets, sempty_bucket, sempty_metrics, smetric_empty, sempty_aggs,
    lemma_sfinalize_empty};

verus! {

/// The kind of a finalized aggregation: what shape the client sees.
pub enum AggKind {
    /// A range bucket result.
    Range,
    /// A histogram bucket result.
    Histogram,
    /// A terms bucket result.
    Terms,
    /// An average metric result.
    Average,
    /// A stats metric result.
    Stats,
}

/// The kind of a model aggregation result.
pub open spec fn gkind(g: GAgg) -> AggKind {
    match g {
        GAgg::Bucket(GBucket::Range(_)) => AggKind::Range,
        GAgg::Bucket(GBucket::Histogram(_)) => AggKind::Histogram,
        GAgg::Bucket(GBucket::Terms { .. }) => AggKind::Terms,
        GAgg::Metric(GMetric::Average(_)) => AggKind::Average,
        GAgg::Metric(GMetric::Stats { .. }) => AggKind::Stats,
    }
}

/// A successful bucket conversion has the kind its schema entry declares:
/// the kind of the synthesized empty bucket of that entry.
proof fn lemma_sbucket_conv_kind(b: IntermediateBucketResult, req: BucketAggregation)
    requires
        sbucket_conv(b, req) is Ok,
    ensures
        gkind(GAgg::Bucket(sbucket_conv(b, req)->Ok_0))
            == gkind(GAgg::Bucket(sempty_bucket(req))),
{
}

/// A successful metric conversion has the kind its schema entry declares.
proof fn lemma_smetric_conv_kind(m: IntermediateMetricResult, req: MetricAggregation)
    requires
        smetric_conv(m, req) is Ok,
    ensures
        gkind(GAgg::Metric(smetric_conv(m, req)->Ok_0))
            == gkind(GAgg::Metric(smetric_empty(req))),
{
}

/// A successful bucket category conversion has the same domain and the same
/// per-name kinds as the empty synthesis of the same schema entries.
proof fn lemma_sconv_buckets_shape(
    bs: Seq<(String, IntermediateBucketResult)>,
    reqs: Seq<(String, BucketAggregation)>,
)
    requires
        bs.len() == reqs.len(),
        sconv_buckets(bs, reqs) is Ok,
    ensures
        sconv_buckets(bs, reqs)->Ok_0.dom() == sempty_buckets(reqs).dom(),
        forall|k: Seq<char>| sempty_buckets(reqs).dom().contains(k)
            ==> gkind(#[trigger] sconv_buckets(bs, reqs)->Ok_0[k])
                == gkind(sempty_buckets(reqs)[k]),
    decreases reqs.len(),
{
    if reqs.len() == 0 {
        assert(sconv_buckets(bs, reqs)->Ok_0.dom() =~= sempty_buckets(reqs).dom());
    } else {
        lemma_sconv_buckets_shape(bs.drop_last(), reqs.drop_last());
        lemma_sbucket_conv_kind(bs.last().1, reqs.last().1);
        assert(sconv_buckets(bs, reqs)->Ok_0.dom() =~= sempty_buckets(reqs).dom());
    }
}

/// A successful metric category conversion has the same domain and the same
/// per-name kinds as the empty synthesis of the same schema entries.
proof fn lemma_sconv_metrics_shape(
    ms: Seq<(String, IntermediateMetricResult)>,
    reqs: Seq<(String, MetricAggregation)>,
)
    requires
        ms.len() == reqs.len(),
        sconv_metrics(ms, reqs) is Ok,
    ensures
        sconv_metrics(ms, reqs)->Ok_0.dom() == sempty_metrics(reqs).dom(),
        forall|k: Seq<char>| sempty_metrics(reqs).dom().contains(k)
            ==> gkind(#[trigger] sconv_metrics(ms, reqs)->Ok_0[k])
                == gkind(sempty_metrics(reqs)[k]),
    decreases reqs.len(),
{
    if reqs.len() == 0 {
        assert(sconv_metrics(ms, reqs)->Ok_0.dom() =~= sempty_metrics(reqs).dom());
    } else {
        lemma_sconv_metrics_shape(ms.drop_last(), reqs.drop_last());
        lemma_smetric_conv_kind(ms.last().1, reqs.last().1);
        assert(sconv_metrics(ms, reqs)->Ok_0.dom() =~= sempty_metrics(reqs).dom());
    }
}

/// Every successful finalization has the shape of the schema's empty form:
/// the same names and, per name, the same kind.  The data never influences
/// the shape.
pub proof fn lemma_finalize_shape(i: IntermediateAggregationResults, s: Aggregations)
    requires
        sfinalize(i, s) is Ok,
    ensures
        sfinalize(i, s)->Ok_0.dom() == sempty_aggs(s).dom(),
        forall|k: Seq<char>| sempty_aggs(s).dom().contains(k)
            ==> gkind(#[trigger] sfinalize(i, s)->Ok_0[k]) == gkind(sempty_aggs(s)[k]),
{
    let m = sfinalize(i, s)->Ok_0;
    let e = sempty_aggs(s);
    match i.buckets {
        Some(bs) => {
            lemma_sconv_buckets_shape(bs@, s.buckets@);
        }
        None => {}
    }
    match i.metrics {
        Some(ms) => {
            lemma_sconv_metrics_shape(ms@, s.metrics@);
        }
        None => {}
    }
    assert(m.dom() =~= e.dom());
}

/// Shape stability: for one schema, any two successful finalizations have
/// identical name sets and identical per-name kinds, whatever the
/// intermediate data was.
pub proof fn lemma_shape_stability(
    i1: IntermediateAggregationResults,
    i2: IntermediateAggregationResults,
    s: Aggregations,
)
    requires
        sfinalize(i1, s) is Ok,
        sfinalize(i2, s) is Ok,
    ensures
        sfinalize(i1, s)->Ok_0.dom() == sfinalize(i2, s)->Ok_0.dom(),
        forall|k: Seq<char>| sfinalize(i1, s)->Ok_0.dom().contains(k)
            ==> gkind(#[trigger] sfinalize(i1, s)->Ok_0[k])
                == gkind(sfinalize(i2, s)->Ok_0[k]),
{
    lemma_finalize_shape(i1, s);
    lemma_finalize_shape(i2, s);
}

/// Empty synthesis: finalizing the wholly empty intermediate tree always
/// succeeds and yields exactly the schema's empty form, one entry per
/// requested aggregation: the empty bucket shape per bucket entry and the
/// empty metric per metric entry.
pub proof fn lemma_empty_synthesis(s: Aggregations)
    ensures
        sfinalize(spec_empty_intermediate(), s) == Ok::<Map<Seq<char>, GAgg>, InternalError>(
            sempty_aggs(s),
        ),
        sempty_aggs(s) == sempty_buckets(s.buckets@).union_prefer_right(
            sempty_metrics(s.metrics@),
        ),
{
    lemma_sfinalize_empty(s);
}

/// The last schema entry of the empty synthesis is reported under its name
/// in the schema's empty form; every requested name is present.
pub proof fn lemma_sempty_buckets_at(reqs: Seq<(String, BucketAggregation)>, j: int)
    requires
        0 <= j < reqs.len(),
        forall|k: int| j < k < reqs.len() ==> (#[trigger] reqs[k]).0@ != reqs[j].0@,
    ensures
        sempty_buckets(reqs).contains_key(reqs[j].0@),
        sempty_buckets(reqs)[reqs[j].0@] == GAgg::Bucket(sempty_bucket(reqs[j].1)),
    decreases reqs.len(),
{
    if j == reqs.len() - 1 {
    } else {
        let rd = reqs.drop_last();
        assert(forall|k: int| 0 <= k < rd.len() ==> rd[k] == reqs[k]);
        lemma_sempty_buckets_at(rd, j);
        assert(reqs[reqs.len() - 1].0@ != reqs[j].0@);
        assert(reqs.last().0@ != reqs[j].0@);
    }
}

/// As [`lemma_sempty_buckets_at`], for the metric group.
pub proof fn lemma_sempty_metrics_at(reqs: Seq<(String, MetricAggregation)>, j: int)
    requires
        0 <= j < reqs.len(),
        forall|k: int| j < k < reqs.len() ==> (#[trigger] reqs[k]).0@ != reqs[j].0@,
    ensures
        sempty_metrics(reqs).contains_key(reqs[j].0@),
        sempty_metrics(reqs)[reqs[j].0@] == GAgg::Metric(smetric_empty(reqs[j].1)),
    decreases reqs.len(),
{
    if j == reqs.len() - 1 {
    } else {
        let rd = reqs.drop_last();
        assert(forall|k: int| 0 <= k < rd.len() ==> rd[k] == reqs[k]);
        lemma_sempty_metrics_at(rd, j);
        assert(reqs[reqs.len() - 1].0@ != reqs[j].0@);
        assert(reqs.last().0@ != reqs[j].0@);
    }
}

/// Arity violation: a present bucket category whose count disagrees with
/// the schema's bucket count fails with the internal-consistency error; no
/// partial result is returned.
pub proof fn lemma_arity_violation(i: IntermediateAggregationResults, s: Aggregations)
    requires
        i.buckets matches Some(bs) && bs@.len() != s.buckets@.len(),
    ensures
        sfinalize(i, s) == Err::<Map<Seq<char>, GAgg>, InternalError>(
            InternalError::ArityMismatch,
        ),
{
}

/// Whether every lower bound of a model range entry sequence is comparable
/// (not NaN).
pub open spec fn all_bounds_comparable(s: Seq<GRangeEntry>) -> bool {
    forall|k: int| 0 <= k < s.len() ==> !is_nan_bits(gfrom_bits(#[trigger] s[k]))
}

/// Ascending by lower bound: no earlier entry sorts strictly after a later
/// one.
pub open spec fn sorted_by_from(s: Seq<GRangeEntry>) -> bool {
    forall|a: int, b: int| 0 <= a <= b < s.len() ==> !gt_range(#[trigger] s[a], #[trigger] s[b])
}

/// The insertion step keeps a sorted sequence of comparable bounds sorted.
proof fn lemma_sinsert_sorted(s: Seq<GRangeEntry>, x: GRangeEntry)
    requires
        sorted_by_from(s),
        all_bounds_comparable(s),
        !is_nan_bits(gfrom_bits(x)),
    ensures
        sorted_by_from(sinsert_range(s, x)),
        all_bounds_comparable(sinsert_range(s, x)),
        sinsert_range(s, x).len() == s.len() + 1,
    decreases s.len(),
{
    if s.len() > 0 && gt_range(s.last(), x) {
        let sd = s.drop_last();
        assert(forall|k: int| 0 <= k < sd.len() ==> sd[k] == s[k]);
        lemma_sinsert_sorted(sd, x);
        let r = sinsert_range(sd, x).push(s.last());
        assert forall|a: int, b: int| 0 <= a <= b < r.len() implies !gt_range(r[a], r[b]) by {
            if b < r.len() - 1 {
                assert(!gt_range(sinsert_range(sd, x)[a], sinsert_range(sd, x)[b]));
            } else if a < r.len() - 1 {
                // every element of the insertion into the prefix does not
                // sort after the old last element
                let ra = r[a];
                lemma_sinsert_member(sd, x, a);
                if exists|k: int| 0 <= k < sd.len() && sinsert_range(sd, x)[a] == sd[k] {
                    let k = choose|k: int| 0 <= k < sd.len() && sinsert_range(sd, x)[a] == sd[k];
                    assert(!gt_range(s[k], s[s.len() - 1]));
                    assert(!gt_range(sd[k], s.last()));
                } else {
                    assert(sinsert_range(sd, x)[a] == x);
                    assert(gt_range(s.last(), x));
                    assert(!gt_range(x, s.last()));
                }
            }
        }
    } else {
        let r = s.push(x);
        assert forall|a: int, b: int| 0 <= a <= b < r.len() implies !gt_range(r[a], r[b]) by {
            if b == r.len() - 1 && a < b {
                if s.len() > 0 {
                    assert(!gt_range(s.last(), x));
                    assert(!gt_range(s[a], s[s.len() - 1]));
                    assert(!gt_range(s[a], x));
                }
            }
        }
    }
}

/// Every element of an insertion is the inserted element or one of the old
/// ones.
proof fn lemma_sinsert_member(s: Seq<GRangeEntry>, x: GRangeEntry, a: int)
    requires
        0 <= a < sinsert_range(s, x).len(),
    ensures
        sinsert_range(s, x)[a] == x || exists|k: int| 0 <= k < s.len()
            && sinsert_range(s, x)[a] == s[k],
    decreases s.len(),
{
    if s.len() > 0 && gt_range(s.last(), x) {
        let sd = s.drop_last();
        assert(forall|k: int| 0 <= k < sd.len() ==> sd[k] == s[k]);
        if a < sinsert_range(sd, x).len() {
            lemma_sinsert_member(sd, x, a);
            if exists|k: int| 0 <= k < sd.len() && sinsert_range(sd, x)[a] == sd[k] {
                let k = choose|k: int| 0 <= k < sd.len() && sinsert_range(sd, x)[a] == sd[k];
                assert(sinsert_range(s, x)[a] == s[k]);
            }
        } else {
            assert(sinsert_range(s, x)[a] == s[s.len() - 1]);
        }
    } else {
        if a < s.len() {
            assert(sinsert_range(s, x)[a] == s[a]);
        }
    }
}

/// Range ordering: when every lower bound is comparable, the sorted range
/// sequence is ascending by lower bound (an absent bound standing for the
/// smallest finite double); incomparable bounds never make sorting fail,
/// they only compare as equal.
pub proof fn lemma_range_sort_sorted(s: Seq<GRangeEntry>)
    requires
        all_bounds_comparable(s),
    ensures
        sorted_by_from(ssort_ranges(s)),
        ssort_ranges(s).len() == s.len(),
    decreases s.len(),
{
    if s.len() > 0 {
        let sd = s.drop_last();
        assert(forall|k: int| 0 <= k < sd.len() ==> sd[k] == s[k]);
        lemma_range_sort_sorted(sd);
        lemma_ssort_comparable(sd);
        lemma_sinsert_sorted(ssort_ranges(sd), s.last());
    }
}

/// Sorting keeps every bound comparable when the input's bounds are.
proof fn lemma_ssort_comparable(s: Seq<GRangeEntry>)
    requires
        all_bounds_comparable(s),
    ensures
        all_bounds_comparable(ssort_ranges(s)),
        ssort_ranges(s).len() == s.len(),
    decreases s.len(),
{
    if s.len() > 0 {
        let sd = s.drop_last();
        assert(forall|k: int| 0 <= k < sd.len() ==> sd[k] == s[k]);
        lemma_ssort_comparable(sd);
        lemma_sinsert_comparable(ssort_ranges(sd), s.last());
    }
}

/// The insertion step keeps every bound comparable.
proof fn lemma_sinsert_comparable(s: Seq<GRangeEntry>, x: GRangeEntry)
    requires
        all_bounds_comparable(s),
        !is_nan_bits(gfrom_bits(x)),
    ensures
        all_bounds_comparable(sinsert_range(s, x)),
        sinsert_range(s, x).len() == s.len() + 1,
    decreases s.len(),
{
    if s.len() > 0 && gt_range(s.last(), x) {
        let sd = s.drop_last();
        assert(forall|k: int| 0 <= k < sd.len() ==> sd[k] == s[k]);
        lemma_sinsert_comparable(sd, x);
        let r = sinsert_range(sd, x).push(s.last());
        assert forall|k: int| 0 <= k < r.len() implies !is_nan_bits(gfrom_bits(r[k])) by {
            if k < r.len() - 1 {
                assert(!is_nan_bits(gfrom_bits(sinsert_range(sd, x)[k])));
            }
        }
    }
}

} // verus!
