use agg_finalize::agg_req::{
    Aggregations, BucketAggregation, BucketAggregationType, MetricAggregation, RangeAggregation,
    RangeSpec,
};
use agg_finalize::agg_result::{
    AggregationResult, AggregationResults, BucketResult, MetricResult,
};
use agg_finalize::f64bits::{f64_lt_exec, F64Bits, F64_MIN_BITS};
use agg_finalize::intermediate::{
    IntermediateAggregationResults, IntermediateAverage, IntermediateBucketResult,
    IntermediateHistogramBucketEntry, IntermediateMetricResult, IntermediateRangeBucketEntry,
    IntermediateStats, IntermediateTermBucketEntry, IntermediateTermBucketResult,
};
use agg_finalize::{InternalError, Key};

fn bits(x: f64) -> F64Bits {
    F64Bits(x.to_bits())
}

fn empty_schema() -> Aggregations {
    Aggregations { buckets: vec![], metrics: vec![] }
}

fn empty_inter() -> IntermediateAggregationResults {
    IntermediateAggregationResults { buckets: None, metrics: None }
}

fn range_schema(specs: Vec<(&str, Option<f64>, Option<f64>)>) -> Aggregations {
    let ranges = specs
        .into_iter()
        .map(|(k, f, t)| RangeSpec {
            key: k.to_string(),
            from: f.map(bits),
            to: t.map(bits),
        })
        .collect();
    Aggregations {
        buckets: vec![(
            "my_ranges".to_string(),
            BucketAggregation {
                bucket_agg: BucketAggregationType::Range(RangeAggregation { ranges }),
                sub_aggregation: empty_schema(),
            },
        )],
        metrics: vec![],
    }
}

fn range_entry(key: &str, doc_count: u64, from: Option<f64>, to: Option<f64>)
    -> IntermediateRangeBucketEntry
{
    IntermediateRangeBucketEntry {
        key: Key::Str(key.to_string()),
        doc_count,
        from: from.map(bits),
        to: to.map(bits),
        sub_aggregation: empty_inter(),
    }
}

#[test]
fn average_math() {
    let avg = IntermediateAverage { sum: bits(10.0), count: 4 };
    assert_eq!(avg.finalize(), Some(bits(2.5)));
    let none = IntermediateAverage { sum: bits(10.0), count: 0 };
    assert_eq!(none.finalize(), None);
}

#[test]
fn range_ordering() {
    let inter = IntermediateAggregationResults {
        buckets: Some(vec![(
            "my_ranges".to_string(),
            IntermediateBucketResult::Range(vec![
                range_entry("20-*", 3, Some(20.0), None),
                range_entry("*-10", 5, None, Some(10.0)),
                range_entry("10-20", 2, Some(10.0), Some(20.0)),
            ]),
        )]),
        metrics: None,
    };
    let schema = range_schema(vec![
        ("*-10", None, Some(10.0)),
        ("10-20", Some(10.0), Some(20.0)),
        ("20-*", Some(20.0), None),
    ]);
    let res = AggregationResults::from_intermediate_and_req(inter, schema).unwrap();
    assert_eq!(res.0.len(), 1);
    assert_eq!(res.0[0].0, "my_ranges");
    match &res.0[0].1 {
        AggregationResult::BucketResult(BucketResult::Range { buckets }) => {
            let froms: Vec<Option<F64Bits>> = buckets.iter().map(|b| b.from).collect();
            assert_eq!(froms, vec![None, Some(bits(10.0)), Some(bits(20.0))]);
            let counts: Vec<u64> = buckets.iter().map(|b| b.doc_count).collect();
            assert_eq!(counts, vec![5, 2, 3]);
        }
        other => panic!("expected a range result, got {:?}", other),
    }
}

#[test]
fn recursive_terms_average() {
    let sub_inter = IntermediateAggregationResults {
        buckets: None,
        metrics: Some(vec![(
            "rating_avg".to_string(),
            IntermediateMetricResult::Average(IntermediateAverage { sum: bits(6.0), count: 3 }),
        )]),
    };
    let inter = IntermediateAggregationResults {
        buckets: Some(vec![(
            "terms".to_string(),
            IntermediateBucketResult::Terms(IntermediateTermBucketResult {
                entries: vec![(
                    "a".to_string(),
                    IntermediateTermBucketEntry { doc_count: 3, sub_aggregation: sub_inter },
                )],
                sum_other_doc_count: 0,
                doc_count_error_upper_bound: None,
            }),
        )]),
        metrics: None,
    };
    let schema = Aggregations {
        buckets: vec![(
            "terms".to_string(),
            BucketAggregation {
                bucket_agg: BucketAggregationType::Terms,
                sub_aggregation: Aggregations {
                    buckets: vec![],
                    metrics: vec![("rating_avg".to_string(), MetricAggregation::Average)],
                },
            },
        )],
        metrics: vec![],
    };
    let res = AggregationResults::from_intermediate_and_req(inter, schema).unwrap();
    match &res.0[0].1 {
        AggregationResult::BucketResult(BucketResult::Terms { buckets, .. }) => {
            assert_eq!(buckets.len(), 1);
            assert!(matches!(&buckets[0].key, Key::Str(s) if s == "a"));
            assert_eq!(buckets[0].doc_count, 3);
            let sub = &buckets[0].sub_aggregation;
            assert_eq!(sub.0.len(), 1);
            assert_eq!(sub.0[0].0, "rating_avg");
            match &sub.0[0].1 {
                AggregationResult::MetricResult(MetricResult::Average(v)) => {
                    assert_eq!(v.value, Some(bits(2.0)));
                }
                other => panic!("expected an average, got {:?}", other),
            }
        }
        other => panic!("expected a terms result, got {:?}", other),
    }
}

#[test]
fn arity_violation() {
    let inter = IntermediateAggregationResults {
        buckets: Some(vec![]),
        metrics: None,
    };
    let schema = range_schema(vec![("*-10", None, Some(10.0))]);
    let res = AggregationResults::from_intermediate_and_req(inter, schema);
    assert_eq!(res.unwrap_err(), InternalError::ArityMismatch);
}

#[test]
fn kind_mismatch() {
    let inter = IntermediateAggregationResults {
        buckets: Some(vec![(
            "terms".to_string(),
            IntermediateBucketResult::Histogram(vec![]),
        )]),
        metrics: None,
    };
    let schema = Aggregations {
        buckets: vec![(
            "terms".to_string(),
            BucketAggregation {
                bucket_agg: BucketAggregationType::Terms,
                sub_aggregation: empty_schema(),
            },
        )],
        metrics: vec![],
    };
    let res = AggregationResults::from_intermediate_and_req(inter, schema);
    assert_eq!(res.unwrap_err(), InternalError::KindMismatch);
}

#[test]
fn empty_synthesis_terms_and_average() {
    let schema = Aggregations {
        buckets: vec![(
            "terms".to_string(),
            BucketAggregation {
                bucket_agg: BucketAggregationType::Terms,
                sub_aggregation: empty_schema(),
            },
        )],
        metrics: vec![("avg".to_string(), MetricAggregation::Average)],
    };
    let res = AggregationResults::from_intermediate_and_req(empty_inter(), schema).unwrap();
    assert_eq!(res.0.len(), 2);
    assert_eq!(res.0[0].0, "terms");
    match &res.0[0].1 {
        AggregationResult::BucketResult(BucketResult::Terms {
            buckets,
            sum_other_doc_count,
            doc_count_error_upper_bound,
        }) => {
            assert!(buckets.is_empty());
            assert_eq!(*sum_other_doc_count, 0);
            assert_eq!(*doc_count_error_upper_bound, None);
        }
        other => panic!("expected a terms result, got {:?}", other),
    }
    assert_eq!(res.0[1].0, "avg");
    match &res.0[1].1 {
        AggregationResult::MetricResult(MetricResult::Average(v)) => {
            assert_eq!(v.value, None);
        }
        other => panic!("expected an average, got {:?}", other),
    }
}

#[test]
fn empty_synthesis_range_keeps_shape() {
    let schema = range_schema(vec![
        ("20-*", Some(20.0), None),
        ("*-10", None, Some(10.0)),
    ]);
    let res = AggregationResults::from_intermediate_and_req(empty_inter(), schema).unwrap();
    match &res.0[0].1 {
        AggregationResult::BucketResult(BucketResult::Range { buckets }) => {
            assert_eq!(buckets.len(), 2);
            // sorted: the unbounded range first
            assert!(matches!(&buckets[0].key, Key::Str(s) if s == "*-10"));
            assert_eq!(buckets[0].doc_count, 0);
            assert_eq!(buckets[0].from, None);
            assert!(matches!(&buckets[1].key, Key::Str(s) if s == "20-*"));
            assert_eq!(buckets[1].from, Some(bits(20.0)));
        }
        other => panic!("expected a range result, got {:?}", other),
    }
}

#[test]
fn shape_stable_between_runs() {
    let schema1 = range_schema(vec![("*-10", None, Some(10.0))]);
    let schema2 = range_schema(vec![("*-10", None, Some(10.0))]);
    let populated = IntermediateAggregationResults {
        buckets: Some(vec![(
            "my_ranges".to_string(),
            IntermediateBucketResult::Range(vec![range_entry("*-10", 7, None, Some(10.0))]),
        )]),
        metrics: None,
    };
    let r1 = AggregationResults::from_intermediate_and_req(populated, schema1).unwrap();
    let r2 = AggregationResults::from_intermediate_and_req(empty_inter(), schema2).unwrap();
    let names1: Vec<&String> = r1.0.iter().map(|p| &p.0).collect();
    let names2: Vec<&String> = r2.0.iter().map(|p| &p.0).collect();
    assert_eq!(names1, names2);
    assert!(matches!(&r1.0[0].1,
        AggregationResult::BucketResult(BucketResult::Range { .. })));
    assert!(matches!(&r2.0[0].1,
        AggregationResult::BucketResult(BucketResult::Range { .. })));
}

#[test]
fn stats_properties() {
    let inter = IntermediateAggregationResults {
        buckets: None,
        metrics: Some(vec![(
            "stats".to_string(),
            IntermediateMetricResult::Stats(IntermediateStats {
                count: 4,
                sum: bits(10.0),
                min: bits(1.0),
                max: bits(4.0),
            }),
        )]),
    };
    let schema = Aggregations {
        buckets: vec![],
        metrics: vec![("stats".to_string(), MetricAggregation::Stats)],
    };
    let res = AggregationResults::from_intermediate_and_req(inter, schema).unwrap();
    assert_eq!(res.get_value_from_aggregation("stats", "count"), Ok(Some(bits(4.0))));
    assert_eq!(res.get_value_from_aggregation("stats", "sum"), Ok(Some(bits(10.0))));
    assert_eq!(res.get_value_from_aggregation("stats", "min"), Ok(Some(bits(1.0))));
    assert_eq!(res.get_value_from_aggregation("stats", "max"), Ok(Some(bits(4.0))));
    assert_eq!(res.get_value_from_aggregation("stats", "avg"), Ok(Some(bits(2.5))));
    assert_eq!(
        res.get_value_from_aggregation("stats", "median"),
        Err(InternalError::UnknownProperty)
    );
    assert_eq!(
        res.get_value_from_aggregation("missing", "avg"),
        Err(InternalError::MissingAggregation)
    );
}

#[test]
fn scalar_on_bucket_is_refused() {
    let schema = range_schema(vec![("*-10", None, Some(10.0))]);
    let res = AggregationResults::from_intermediate_and_req(empty_inter(), schema).unwrap();
    assert_eq!(
        res.get_value_from_aggregation("my_ranges", "avg"),
        Err(InternalError::ScalarOnBucket)
    );
}

#[test]
fn histogram_entries_carry_numeric_keys() {
    let inter = IntermediateAggregationResults {
        buckets: Some(vec![(
            "histo".to_string(),
            IntermediateBucketResult::Histogram(vec![
                IntermediateHistogramBucketEntry {
                    key: bits(2.0),
                    doc_count: 5,
                    sub_aggregation: empty_inter(),
                },
                IntermediateHistogramBucketEntry {
                    key: bits(4.0),
                    doc_count: 2,
                    sub_aggregation: empty_inter(),
                },
            ]),
        )]),
        metrics: None,
    };
    let schema = Aggregations {
        buckets: vec![(
            "histo".to_string(),
            BucketAggregation {
                bucket_agg: BucketAggregationType::Histogram,
                sub_aggregation: empty_schema(),
            },
        )],
        metrics: vec![],
    };
    let res = AggregationResults::from_intermediate_and_req(inter, schema).unwrap();
    match &res.0[0].1 {
        AggregationResult::BucketResult(BucketResult::Histogram { buckets }) => {
            assert_eq!(buckets.len(), 2);
            assert_eq!(buckets[0].key, Key::F64(bits(2.0)));
            assert_eq!(buckets[0].doc_count(), 5);
            assert_eq!(buckets[1].key, Key::F64(bits(4.0)));
        }
        other => panic!("expected a histogram result, got {:?}", other),
    }
}

#[test]
fn bit_order_matches_ieee_order() {
    let samples = [
        f64::NEG_INFINITY,
        f64::MIN,
        -1.5,
        -0.0,
        0.0,
        1.0e-300,
        2.5,
        f64::MAX,
        f64::INFINITY,
        f64::NAN,
    ];
    for &a in &samples {
        for &b in &samples {
            let expected = a < b;
            assert_eq!(
                f64_lt_exec(a.to_bits(), b.to_bits()),
                expected,
                "ordering of {a} and {b}"
            );
        }
    }
    assert_eq!(F64_MIN_BITS, f64::MIN.to_bits());
}
