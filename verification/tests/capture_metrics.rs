use dynamo_llm::capture_metrics::{
    frontend_metric_name, initial_series, record_dropped, record_segment_rolled, record_written,
    CaptureMetric, CounterIncrement, AUDIT_CAPTURE_TYPE, TRACE_CAPTURE_TYPE,
};
use prometheus::{Encoder, IntCounterVec, Opts, Registry, TextEncoder};

const METRICS: [CaptureMetric; 5] = [
    CaptureMetric::RecordsWritten,
    CaptureMetric::UncompressedBytesWritten,
    CaptureMetric::CompressedBytesWritten,
    CaptureMetric::SegmentsRolled,
    CaptureMetric::RecordsDropped,
];

fn counter(metric: CaptureMetric) -> IntCounterVec {
    let names = metric.label_names();
    let labels: Vec<&str> = names.iter().map(|name| name.as_str()).collect();
    IntCounterVec::new(Opts::new(metric.name(), metric.help()), &labels).unwrap()
}

fn apply(counters: &[(CaptureMetric, IntCounterVec)], increments: Vec<CounterIncrement>) {
    for increment in increments {
        let labels: Vec<&str> = increment.labels.iter().map(|label| label.as_str()).collect();
        for (metric, counter) in counters {
            if *metric == increment.metric {
                counter.with_label_values(&labels).inc_by(increment.amount);
            }
        }
    }
}

#[test]
fn registers_capture_metric_contract() {
    let registry = Registry::new();
    let counters: Vec<(CaptureMetric, IntCounterVec)> =
        METRICS.iter().map(|metric| (*metric, counter(*metric))).collect();
    for (_, counter) in &counters {
        registry.register(Box::new(counter.clone())).unwrap();
    }
    apply(&counters, initial_series(TRACE_CAPTURE_TYPE));
    apply(&counters, initial_series(AUDIT_CAPTURE_TYPE));
    apply(&counters, record_written(TRACE_CAPTURE_TYPE, 2, 20, 10));
    apply(&counters, record_segment_rolled(TRACE_CAPTURE_TYPE));
    apply(&counters, record_dropped(AUDIT_CAPTURE_TYPE, "bus_lag", 3));

    let mut output = Vec::new();
    TextEncoder::new().encode(&registry.gather(), &mut output).unwrap();
    let text = String::from_utf8(output).unwrap();

    for name in [
        "dynamo_capture_records_written_total",
        "dynamo_capture_uncompressed_bytes_written_total",
        "dynamo_capture_compressed_bytes_written_total",
        "dynamo_capture_segments_rolled_total",
        "dynamo_capture_records_dropped_total",
    ] {
        assert!(text.contains(name), "missing {name}: {text}");
    }
    assert!(text.contains(r#"dynamo_capture_records_written_total{capture_type="trace"} 2"#));
    assert!(text.contains(
        r#"dynamo_capture_records_dropped_total{capture_type="audit",reason="bus_lag"} 3"#
    ));
}

#[test]
fn a_written_record_grows_three_counters() {
    let increments = record_written("trace", 2, 20, 10);
    let amounts: Vec<(CaptureMetric, u64)> =
        increments.iter().map(|increment| (increment.metric, increment.amount)).collect();
    assert_eq!(
        amounts,
        vec![
            (CaptureMetric::RecordsWritten, 2),
            (CaptureMetric::UncompressedBytesWritten, 20),
            (CaptureMetric::CompressedBytesWritten, 10),
        ]
    );
    assert!(increments.iter().all(|increment| increment.labels == vec!["trace".to_string()]));
    let rolled = record_segment_rolled("audit");
    assert_eq!(rolled.len(), 1);
    assert_eq!(rolled[0].metric, CaptureMetric::SegmentsRolled);
    assert_eq!(rolled[0].amount, 1);
    let dropped = record_dropped("audit", "bus_lag", 3);
    assert_eq!(dropped.len(), 1);
    assert_eq!(dropped[0].labels, vec!["audit".to_string(), "bus_lag".to_string()]);
}

#[test]
fn every_series_starts_at_nothing() {
    let series = initial_series("trace");
    assert!(series.iter().all(|increment| increment.amount == 0));
    assert!(series.iter().any(|increment| increment.metric == CaptureMetric::RecordsWritten));
}

#[test]
fn frontend_metrics_have_a_prefix() {
    assert_eq!(frontend_metric_name("dynamo_frontend", "tokenize_seconds"), "dynamo_frontend_tokenize_seconds");
}
