//! What the capture of traces and audit records counts, and the names of the counters.

use crate::copy::{append_items, no_items, one_item, push_item};
use crate::text::join;
use vstd::prelude::*;

verus! {

pub const TRACE_CAPTURE_TYPE: &'static str = "trace";

pub const AUDIT_CAPTURE_TYPE: &'static str = "audit";

/// A counter of the capture.
#[derive(Debug, Clone, Copy, PartialEq, Eq, Structural)]
pub enum CaptureMetric {
    RecordsWritten,
    UncompressedBytesWritten,
    CompressedBytesWritten,
    SegmentsRolled,
    RecordsDropped,
}

impl DeepView for CaptureMetric {
    type V = CaptureMetric;

    open spec fn deep_view(&self) -> CaptureMetric {
        *self
    }
}

/// The name of a counter.
pub open spec fn metric_name(metric: CaptureMetric) -> Seq<char> {
    match metric {
        CaptureMetric::RecordsWritten => "dynamo_capture_records_written_total"@,
        CaptureMetric::UncompressedBytesWritten =>
            "dynamo_capture_uncompressed_bytes_written_total"@,
        CaptureMetric::CompressedBytesWritten => "dynamo_capture_compressed_bytes_written_total"@,
        CaptureMetric::SegmentsRolled => "dynamo_capture_segments_rolled_total"@,
        CaptureMetric::RecordsDropped => "dynamo_capture_records_dropped_total"@,
    }
}

/// What a counter counts.
pub open spec fn metric_help(metric: CaptureMetric) -> Seq<char> {
    match metric {
        CaptureMetric::RecordsWritten => "Capture records durably appended to gzip JSONL segments."@,
        CaptureMetric::UncompressedBytesWritten =>
            "Serialized capture bytes durably appended before gzip compression."@,
        CaptureMetric::CompressedBytesWritten =>
            "Compressed capture bytes durably appended to gzip JSONL segments."@,
        CaptureMetric::SegmentsRolled =>
            "Capture segments closed by the rolling gzip JSONL writer."@,
        CaptureMetric::RecordsDropped => "Capture records not durably written."@,
    }
}

/// The names of the labels of a counter.
pub open spec fn label_names_of(metric: CaptureMetric) -> Seq<Seq<char>> {
    match metric {
        CaptureMetric::RecordsDropped => seq!["capture_type"@, "reason"@],
        _ => seq!["capture_type"@],
    }
}

impl CaptureMetric {
    /// The name of the counter.
    pub fn name(self) -> (r: &'static str)
        ensures
            r@ == metric_name(self),
    {
        match self {
            CaptureMetric::RecordsWritten => "dynamo_capture_records_written_total",
            CaptureMetric::UncompressedBytesWritten =>
                "dynamo_capture_uncompressed_bytes_written_total",
            CaptureMetric::CompressedBytesWritten => "dynamo_capture_compressed_bytes_written_total",
            CaptureMetric::SegmentsRolled => "dynamo_capture_segments_rolled_total",
            CaptureMetric::RecordsDropped => "dynamo_capture_records_dropped_total",
        }
    }

    /// What the counter counts.
    pub fn help(self) -> (r: &'static str)
        ensures
            r@ == metric_help(self),
    {
        match self {
            CaptureMetric::RecordsWritten =>
                "Capture records durably appended to gzip JSONL segments.",
            CaptureMetric::UncompressedBytesWritten =>
                "Serialized capture bytes durably appended before gzip compression.",
            CaptureMetric::CompressedBytesWritten =>
                "Compressed capture bytes durably appended to gzip JSONL segments.",
            CaptureMetric::SegmentsRolled =>
                "Capture segments closed by the rolling gzip JSONL writer.",
            CaptureMetric::RecordsDropped => "Capture records not durably written.",
        }
    }

    /// The names of the labels of the counter.
    pub fn label_names(self) -> (r: Vec<String>)
        ensures
            r.deep_view() == label_names_of(self),
    {
        let mut names: Vec<String> = one_item("capture_type".to_owned());
        match self {
            CaptureMetric::RecordsDropped => {
                push_item(&mut names, "reason".to_owned());
                assert(names.deep_view() =~= seq!["capture_type"@, "reason"@]);
            },
            _ => {},
        }
        names
    }
}

/// How much a counter grows, for the values of its labels.
#[derive(Debug, PartialEq, Eq)]
pub struct CounterIncrement {
    pub metric: CaptureMetric,
    pub labels: Vec<String>,
    pub amount: u64,
}

/// The content of a [`CounterIncrement`].
#[verifier::ext_equal]
pub struct CounterIncrementView {
    pub metric: CaptureMetric,
    pub labels: Seq<Seq<char>>,
    pub amount: u64,
}

impl DeepView for CounterIncrement {
    type V = CounterIncrementView;

    open spec fn deep_view(&self) -> CounterIncrementView {
        CounterIncrementView {
            metric: self.metric,
            labels: self.labels.deep_view(),
            amount: self.amount,
        }
    }
}

/// A counter with the capture type as its label grows.
pub open spec fn grows(
    metric: CaptureMetric,
    capture_type: Seq<char>,
    amount: u64,
) -> CounterIncrementView {
    CounterIncrementView { metric, labels: seq![capture_type], amount }
}

/// The counter of dropped records grows.
pub open spec fn dropped(
    capture_type: Seq<char>,
    reason: Seq<char>,
    amount: u64,
) -> CounterIncrementView {
    CounterIncrementView {
        metric: CaptureMetric::RecordsDropped,
        labels: seq![capture_type, reason],
        amount,
    }
}

/// A counter with the capture type as its label grows.
fn increment(metric: CaptureMetric, capture_type: &str, amount: u64) -> (r: CounterIncrement)
    ensures
        r.deep_view() == grows(metric, capture_type@, amount),
{
    CounterIncrement { metric, labels: one_item(capture_type.to_owned()), amount }
}

/// What counts when records are written.
pub fn record_written(
    capture_type: &str,
    records: u64,
    uncompressed_bytes: u64,
    compressed_bytes: u64,
) -> (r: Vec<CounterIncrement>)
    ensures
        r.deep_view() == seq![
            grows(CaptureMetric::RecordsWritten, capture_type@, records),
            grows(CaptureMetric::UncompressedBytesWritten, capture_type@, uncompressed_bytes),
            grows(CaptureMetric::CompressedBytesWritten, capture_type@, compressed_bytes),
        ],
{
    let mut out: Vec<CounterIncrement> = no_items();
    push_item(&mut out, increment(CaptureMetric::RecordsWritten, capture_type, records));
    push_item(
        &mut out,
        increment(CaptureMetric::UncompressedBytesWritten, capture_type, uncompressed_bytes),
    );
    push_item(
        &mut out,
        increment(CaptureMetric::CompressedBytesWritten, capture_type, compressed_bytes),
    );
    out
}

/// What counts when a segment is closed.
pub fn record_segment_rolled(capture_type: &str) -> (r: Vec<CounterIncrement>)
    ensures
        r.deep_view() == seq![grows(CaptureMetric::SegmentsRolled, capture_type@, 1)],
{
    one_item(increment(CaptureMetric::SegmentsRolled, capture_type, 1))
}

/// What counts when records are dropped.
pub fn record_dropped(capture_type: &str, reason: &str, records: u64) -> (r: Vec<
    CounterIncrement,
>)
    ensures
        r.deep_view() == seq![dropped(capture_type@, reason@, records)],
{
    let mut labels: Vec<String> = one_item(capture_type.to_owned());
    push_item(&mut labels, reason.to_owned());
    assert(labels.deep_view() =~= seq![capture_type@, reason@]);
    one_item(CounterIncrement { metric: CaptureMetric::RecordsDropped, labels, amount: records })
}

/// The counters of a capture type that are shown before anything counts.
pub open spec fn series_of(capture_type: Seq<char>) -> Seq<CounterIncrementView> {
    seq![
        grows(CaptureMetric::RecordsWritten, capture_type, 0),
        grows(CaptureMetric::UncompressedBytesWritten, capture_type, 0),
        grows(CaptureMetric::CompressedBytesWritten, capture_type, 0),
        grows(CaptureMetric::SegmentsRolled, capture_type, 0),
        dropped(capture_type, "bus_lag"@, 0),
        dropped(capture_type, "serialize"@, 0),
        dropped(capture_type, "sink_closed"@, 0),
        dropped(capture_type, "write"@, 0),
        dropped(capture_type, "writer_panic"@, 0),
    ]
}

/// The counters of a capture type that are shown before anything counts.
pub fn initial_series(capture_type: &str) -> (r: Vec<CounterIncrement>)
    ensures
        r.deep_view() == series_of(capture_type@),
{
    let mut out: Vec<CounterIncrement> = record_written(capture_type, 0, 0, 0);
    push_item(&mut out, increment(CaptureMetric::SegmentsRolled, capture_type, 0));
    append_items(&mut out, record_dropped(capture_type, "bus_lag", 0));
    append_items(&mut out, record_dropped(capture_type, "serialize", 0));
    append_items(&mut out, record_dropped(capture_type, "sink_closed", 0));
    append_items(&mut out, record_dropped(capture_type, "write", 0));
    append_items(&mut out, record_dropped(capture_type, "writer_panic", 0));
    assert(out.deep_view() =~= series_of(capture_type@));
    out
}

/// The name of a metric of the frontend: its prefix, an underscore and its own name.
pub fn frontend_metric_name(prefix: &str, suffix: &str) -> (r: String)
    ensures
        r@ == prefix@ + "_"@ + suffix@,
{
    join(join(prefix, "_").as_str(), suffix)
}

/// What counts is counted under the capture type, by as much as there is, and with a value
/// for each label of the counter.
pub proof fn law_counters_grow_by_what_counts(
    metric: CaptureMetric,
    capture_type: Seq<char>,
    reason: Seq<char>,
    amount: u64,
)
    ensures
        grows(metric, capture_type, amount).metric == metric,
        grows(metric, capture_type, amount).amount == amount,
        grows(metric, capture_type, amount).labels[0] == capture_type,
        metric != CaptureMetric::RecordsDropped ==> grows(metric, capture_type, amount).labels.len()
            == label_names_of(metric).len(),
        dropped(capture_type, reason, amount).metric == CaptureMetric::RecordsDropped,
        dropped(capture_type, reason, amount).amount == amount,
        dropped(capture_type, reason, amount).labels[0] == capture_type,
        dropped(capture_type, reason, amount).labels[1] == reason,
        dropped(capture_type, reason, amount).labels.len() == label_names_of(
            CaptureMetric::RecordsDropped,
        ).len(),
{
}

/// Every counter is shown before anything counts, and shows nothing yet.
pub proof fn law_all_counters_are_shown(capture_type: Seq<char>, metric: CaptureMetric)
    ensures
        exists|i: int|
            0 <= i < series_of(capture_type).len() && (#[trigger] series_of(capture_type)[i]).metric
                == metric,
        forall|i: int|
            0 <= i < series_of(capture_type).len() ==> (#[trigger] series_of(capture_type)[i]).amount
                == 0 && series_of(capture_type)[i].labels[0] == capture_type,
{
    let all = series_of(capture_type);
    assert(all[0].metric == CaptureMetric::RecordsWritten);
    assert(all[1].metric == CaptureMetric::UncompressedBytesWritten);
    assert(all[2].metric == CaptureMetric::CompressedBytesWritten);
    assert(all[3].metric == CaptureMetric::SegmentsRolled);
    assert(all[4].metric == CaptureMetric::RecordsDropped);
}

} // verus!
