//! What holds of the texts that errors have, and of other small forms.

use crate::aggregator::{protocol_call, protocol_chunk};
use crate::anthropic_types::error_response;
use crate::capture_metrics::{metric_name, CaptureMetric};
use crate::chat_types::{ToolCallResponseChunkView, ToolCallResponseView};
use crate::health_check::{failure_text, one_more, response_error, CheckFailureView};
use crate::jail_ledger::stands_in;
use crate::json::Json;
use crate::json_order::{is_canonical, lemma_less_total, lemma_less_transitive, text_less};
use crate::system_health::{window_of, SystemHealthView};
use crate::text::{decimal, occurs_at};
use crate::tools::{error_message, ToolChoiceErrorView};
use crate::traffic::HealthStatus;
use vstd::prelude::*;

verus! {

/// What stands in the middle of a text stands in it.
proof fn lemma_stands(front: Seq<char>, middle: Seq<char>, back: Seq<char>)
    ensures
        stands_in(middle, front + middle + back),
{
    let text = front + middle + back;
    let at = front.len() as int;
    assert(text.subrange(at, at + middle.len()) =~= middle);
    assert(occurs_at(text, middle, at));
}

/// The text ends with `end`.
pub open spec fn ends_so(text: Seq<char>, end: Seq<char>) -> bool {
    end.len() <= text.len() && text.subrange(text.len() - end.len(), text.len() as int) == end
}

/// What is put behind a text ends it.
proof fn lemma_ends(front: Seq<char>, end: Seq<char>)
    ensures
        ends_so(front + end, end),
{
    let text = front + end;
    assert(text.subrange(text.len() - end.len(), text.len() as int) =~= end);
}

/// An error of a tool choice names the tool, or the definition, that it is about.
pub proof fn law_choice_errors_name_what_is_wrong(name: Seq<char>)
    ensures
        stands_in(name, error_message(ToolChoiceErrorView::ToolNotFound(name))),
        stands_in(name, error_message(ToolChoiceErrorView::InvalidDefinitionMap(name))),
        stands_in(name, error_message(ToolChoiceErrorView::ConflictingDefinition(name))),
{
    lemma_stands("tool `"@, name, "` was not provided in `tools`"@);
    lemma_stands("$defs for tool `"@, name, "` must be an object"@);
    lemma_stands("duplicate $defs entry `"@, name, "` has conflicting schemas"@);
}

/// An error response has the message and the type that it is given.
pub proof fn law_error_responses_keep_their_message(kind: Seq<char>, message: Seq<char>)
    ensures
        error_response(kind, message).error.message == message,
        error_response(kind, message).error.error_type == kind,
        error_response(kind, message).object_type == "error"@,
{
}

/// A failed check names its endpoint, unless the failure came with a text of its own, and
/// ends with the error behind it, or with the time that was waited.
pub proof fn law_failures_name_their_endpoint(endpoint: Seq<char>, error: Seq<char>)
    ensures
        failure_text(endpoint, CheckFailureView::Router(error)) == error,
        failure_text(endpoint, CheckFailureView::Responses(error)) == error,
        stands_in(endpoint, failure_text(endpoint, CheckFailureView::Discovery(error))),
        stands_in(endpoint, failure_text(endpoint, CheckFailureView::DiscoveryTimeout)),
        stands_in(endpoint, failure_text(endpoint, CheckFailureView::Request(error))),
        stands_in(endpoint, failure_text(endpoint, CheckFailureView::RequestTimeout(error))),
        ends_so(failure_text(endpoint, CheckFailureView::Discovery(error)), error),
        ends_so(failure_text(endpoint, CheckFailureView::Request(error)), error),
        ends_so(failure_text(endpoint, CheckFailureView::RequestTimeout(error)), error),
{
    let found = "Failed to discover instances for "@;
    let during = " during health check: "@;
    lemma_stands(found, endpoint, during + error);
    assert(found + endpoint + (during + error) =~= found + endpoint + during + error);
    lemma_ends(found + endpoint + during, error);
    lemma_stands("Timeout waiting for instance discovery for "@, endpoint, " during health check"@);
    let sent = "Health check request failed for "@;
    lemma_stands(sent, endpoint, ": "@ + error);
    assert(sent + endpoint + (": "@ + error) =~= sent + endpoint + ": "@ + error);
    lemma_ends(sent + endpoint + ": "@, error);
    let timed = "Health check timed out for "@;
    lemma_stands(timed, endpoint, " after "@ + error);
    assert(timed + endpoint + (" after "@ + error) =~= timed + endpoint + " after "@ + error);
    lemma_ends(timed + endpoint + " after "@, error);
}

/// A response that is an error is told with the number of responses and with the error.
pub proof fn law_error_responses_are_told(count: nat, error: Seq<char>)
    ensures
        stands_in(decimal(count), response_error(count, error)),
        ends_so(response_error(count, error), error),
{
    let front = "Health check returned an error response after "@;
    let middle = " response item(s): "@;
    lemma_stands(front, decimal(count), middle + error);
    assert(front + decimal(count) + (middle + error) =~= front + decimal(count) + middle + error);
    lemma_ends(front + decimal(count) + middle, error);
}

/// Responses are counted one by one, as far as a machine counts.
pub proof fn law_responses_are_counted(count: usize)
    ensures
        count < usize::MAX ==> one_more(count) == count + 1,
        count == usize::MAX ==> one_more(count) == count,
{
}

/// A call that a parser found keeps its identifier, name and arguments in the form of the
/// protocol, and so does a part of one, with its number.
pub proof fn law_found_calls_keep_their_parts(
    call: ToolCallResponseView,
    part: ToolCallResponseChunkView,
)
    ensures
        protocol_call(call).id == call.id,
        protocol_call(call).function.name == call.function.name,
        protocol_call(call).function.arguments == call.function.arguments,
        protocol_chunk(part).index == part.index,
        protocol_chunk(part).id == part.id,
        protocol_chunk(part).function is Some <==> part.function is Some,
        part.function matches Some(function) ==> protocol_chunk(part).function->0.name
            == function.name && protocol_chunk(part).function->0.arguments == function.arguments,
        protocol_chunk(part).tool_type is Some <==> part.tp is Some,
{
}

/// In a canonical object the keys ascend, none comes twice, and every value is canonical,
/// and so is every item of a canonical list.
pub proof fn law_canonical_values_are_in_order(value: Json, i: int, j: int)
    requires
        is_canonical(value),
        0 <= i < j,
    ensures
        value matches Json::Object(fields) ==> j < fields@.len() ==> {
            &&& text_less(fields@[i].key@, fields@[j].key@)
            &&& !text_less(fields@[j].key@, fields@[i].key@)
            &&& fields@[i].key@ != fields@[j].key@
            &&& is_canonical(fields@[i].value)
            &&& is_canonical(fields@[j].value)
        },
        value matches Json::Array(items) ==> j < items@.len() ==> is_canonical(items@[i])
            && is_canonical(items@[j]),
{
    if let Json::Object(fields) = value {
        if j < fields@.len() {
            lemma_less_total(fields@[i].key@, fields@[j].key@);
        }
    }
}

/// Texts have one order: of two that differ one comes first, a start of a text comes before
/// it, and what comes before the one before comes first.
pub proof fn law_texts_are_ordered(a: Seq<char>, b: Seq<char>, c: Seq<char>)
    ensures
        a != b ==> text_less(a, b) != text_less(b, a),
        !text_less(a, a),
        text_less(a, b) && text_less(b, c) ==> text_less(a, c),
        b.len() > 0 ==> text_less(a, a + b),
    decreases a.len(),
{
    lemma_less_total(a, b);
    if text_less(a, b) && text_less(b, c) {
        lemma_less_transitive(a, b, c);
    }
    if a.len() > 0 && b.len() > 0 {
        let rest = a.subrange(1, a.len() as int);
        law_texts_are_ordered(rest, b, c);
        assert((a + b).subrange(1, (a + b).len() as int) =~= rest + b);
    }
}

/// Every counter has a name of its own.
pub proof fn law_counters_have_their_own_names(a: CaptureMetric, b: CaptureMetric)
    ensures
        metric_name(a) == metric_name(b) ==> a == b,
{
    reveal_strlit("dynamo_capture_records_written_total");
    reveal_strlit("dynamo_capture_uncompressed_bytes_written_total");
    reveal_strlit("dynamo_capture_compressed_bytes_written_total");
    reveal_strlit("dynamo_capture_segments_rolled_total");
    reveal_strlit("dynamo_capture_records_dropped_total");
    assert("dynamo_capture_records_written_total"@.len() == 36);
    assert("dynamo_capture_records_written_total"@[15] == 'r');
    assert("dynamo_capture_records_written_total"@[23] == 'w');
    assert("dynamo_capture_uncompressed_bytes_written_total"@.len() == 47);
    assert("dynamo_capture_compressed_bytes_written_total"@.len() == 45);
    assert("dynamo_capture_segments_rolled_total"@.len() == 36);
    assert("dynamo_capture_segments_rolled_total"@[15] == 's');
    assert("dynamo_capture_records_dropped_total"@.len() == 36);
    assert("dynamo_capture_records_dropped_total"@[15] == 'r');
    assert("dynamo_capture_records_dropped_total"@[23] == 'd');
}

/// An endpoint of which no requests are known is ready as far as requests say, and has none.
pub proof fn law_unknown_endpoints_have_no_requests(h: SystemHealthView, endpoint: Seq<char>)
    ensures
        h.traffic.dom().contains(endpoint) ==> window_of(h, endpoint) == h.traffic[endpoint],
        !h.traffic.dom().contains(endpoint) ==> window_of(h, endpoint).events.len() == 0
            && window_of(h, endpoint).status == HealthStatus::Ready,
{
}

} // verus!
