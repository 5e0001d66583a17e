//! What one argument of a `poolside_v1` tool call adds to the call.

use crate::chat_types::ToolDefinitionView;
use crate::json_text::json_quoted;
use crate::parser_facts::{answer_about, ParserFactsView, ParserQueryView};
use crate::poolside::{
    declared_string, delta_result, lemma_tags, poolside_run, poolside_step, start_run,
    step_between, step_string, step_value, PoolsideOutcome, PoolsideRun, PoolsideToolView,
    PoolsideV1StreamStateView, ARG_KEY_END, ARG_KEY_START, ARG_VALUE_END, ARG_VALUE_START,
    TOOL_CALL_END,
};
use crate::text::{find_text, lemma_find_text, occurs_at, trim_spec};
use vstd::prelude::*;

verus! {

/// An argument as it stands in the text.
pub open spec fn argument_text(key: Seq<char>, value: Seq<char>) -> Seq<char> {
    ARG_KEY_START@ + key + ARG_KEY_END@ + (ARG_VALUE_START@ + value + ARG_VALUE_END@)
}

/// `tag` stands first behind `body`.
pub open spec fn ends_with_first(body: Seq<char>, tag: Seq<char>) -> bool {
    find_text(body + tag, tag) == Some(body.len() as int)
}

/// The parser is inside a tool call, between two arguments.
pub open spec fn between_arguments(state: PoolsideV1StreamStateView) -> bool {
    &&& state.wf()
    &&& state.in_tool_call
    &&& state.current_tool_name_sent
    &&& !state.streaming_string_value
    &&& state.pending_key is None
    &&& state.buffer.len() == 0
}

/// The name of the open tool call.
pub open spec fn open_name(state: PoolsideV1StreamStateView) -> Seq<char> {
    match state.current_tool_name {
        Some(name) => name,
        None => Seq::empty(),
    }
}

/// The JSON of a value: a string where the schema says so, else what the literal parser
/// makes of it.
pub open spec fn value_json(
    state: PoolsideV1StreamStateView,
    key: Seq<char>,
    value: Seq<char>,
    tools: Option<Seq<ToolDefinitionView>>,
    facts: ParserFactsView,
) -> Option<Seq<char>> {
    if declared_string(tools, open_name(state), trim_spec(key)) {
        Some(json_quoted(value))
    } else {
        answer_about(facts.literals, trim_spec(value))
    }
}

/// The tool call with one more argument.
pub open spec fn with_argument(
    state: PoolsideV1StreamStateView,
    key: Seq<char>,
    json: Seq<char>,
) -> PoolsideToolView {
    PoolsideToolView {
        args_started: true,
        seen_keys: state.tool().seen_keys.push(key),
        streamed_args: state.tool().streamed_args + (state.key_fragment(key) + json),
        ..state.tool()
    }
}

/// What stands at the start is found there.
pub(crate) proof fn lemma_find_first(hay: Seq<char>, tag: Seq<char>)
    requires
        occurs_at(hay, tag, 0),
    ensures
        find_text(hay, tag) == Some(0int),
{
    lemma_find_text(hay, tag);
}

/// A tag that stands first behind a body is found there, where it does not begin before.
pub(crate) proof fn lemma_find_behind(lead: Seq<char>, body: Seq<char>, tag: Seq<char>, rest: Seq<char>)
    requires
        ends_with_first(body, tag),
        forall|j: int| 0 <= j < lead.len() ==> !occurs_at(lead + body + tag + rest, tag, j),
    ensures
        find_text(lead + body + tag + rest, tag) == Some((lead.len() + body.len()) as int),
{
    let hay = lead + body + tag + rest;
    let part = body + tag;
    let at = (lead.len() + body.len()) as int;
    lemma_find_text(hay, tag);
    lemma_find_text(part, tag);
    assert(hay.subrange(at, at + tag.len()) =~= tag);
    assert(occurs_at(hay, tag, at));
    let i = find_text(hay, tag)->0;
    if i < at {
        assert(i >= lead.len());
        let j = i - lead.len();
        assert(part.subrange(j, j + tag.len()) =~= hay.subrange(i, i + tag.len()));
        assert(occurs_at(part, tag, j));
    }
}

/// No end tag begins inside a start tag.
proof fn lemma_starts_hold_no_ends(rest: Seq<char>)
    ensures
        forall|j: int|
            0 <= j < ARG_KEY_START@.len() ==> !occurs_at(
                ARG_KEY_START@ + rest,
                ARG_KEY_END@,
                j,
            ),
        forall|j: int|
            0 <= j < ARG_VALUE_START@.len() ==> !occurs_at(
                ARG_VALUE_START@ + rest,
                ARG_VALUE_END@,
                j,
            ),
{
    reveal_strlit("<arg_key>");
    reveal_strlit("</arg_key>");
    reveal_strlit("<arg_value>");
    reveal_strlit("</arg_value>");
    let hay = ARG_KEY_START@ + rest;
    assert forall|j: int| 0 <= j < ARG_KEY_START@.len() implies !occurs_at(
        hay,
        ARG_KEY_END@,
        j,
    ) by {
        if occurs_at(hay, ARG_KEY_END@, j) {
            let part = hay.subrange(j, j + ARG_KEY_END@.len());
            assert(part[0] == '<' && part[1] == '/');
            assert(hay[j] == '<' && hay[j + 1] == '/');
            assert(ARG_KEY_START@[j] == '<');
            assert(j == 0);
        }
    }
    let hay = ARG_VALUE_START@ + rest;
    assert forall|j: int| 0 <= j < ARG_VALUE_START@.len() implies !occurs_at(
        hay,
        ARG_VALUE_END@,
        j,
    ) by {
        if occurs_at(hay, ARG_VALUE_END@, j) {
            let part = hay.subrange(j, j + ARG_VALUE_END@.len());
            assert(part[0] == '<' && part[1] == '/');
            assert(hay[j] == '<' && hay[j + 1] == '/');
            assert(ARG_VALUE_START@[j] == '<');
            assert(j == 0);
        }
    }
}

/// The key of an argument is read.
proof fn lemma_key_read(
    state: PoolsideV1StreamStateView,
    key: Seq<char>,
    value: Seq<char>,
    tools: Option<Seq<ToolDefinitionView>>,
    facts: ParserFactsView,
)
    requires
        between_arguments(state),
        ends_with_first(key, ARG_KEY_END@),
    ensures
        ({
            let run = start_run(state, argument_text(key, value));
            let next = PoolsideV1StreamStateView {
                pending_key: Some(key),
                buffer: ARG_VALUE_START@ + value + ARG_VALUE_END@,
                ..state
            };
            poolside_run(run, tools, facts) == poolside_run(run.at(next), tools, facts)
        }),
{
    let text = argument_text(key, value);
    let run = start_run(state, text);
    let rest = ARG_VALUE_START@ + value + ARG_VALUE_END@;
    lemma_tags();
    assert(run.state.buffer =~= text);
    assert(text.subrange(0, ARG_KEY_START@.len() as int) =~= ARG_KEY_START@);
    lemma_find_first(text, ARG_KEY_START@);
    lemma_find_text(text, TOOL_CALL_END@);
    assert(text =~= ARG_KEY_START@ + (key + ARG_KEY_END@ + rest));
    lemma_starts_hold_no_ends(key + ARG_KEY_END@ + rest);
    assert(text =~= ARG_KEY_START@ + key + ARG_KEY_END@ + rest);
    lemma_find_behind(ARG_KEY_START@, key, ARG_KEY_END@, rest);
    let t = run.state.drained(0);
    assert(t.buffer =~= text);
    let e = (ARG_KEY_START@.len() + key.len()) as int;
    assert(text.subrange(ARG_KEY_START@.len() as int, e) =~= key);
    assert(text.subrange(e + ARG_KEY_END@.len(), text.len() as int) =~= rest);
    let next = PoolsideV1StreamStateView { pending_key: Some(key), buffer: rest, ..state };
    assert(poolside_step(run, tools, facts) == step_between(run));
    assert(step_between(run) == PoolsideOutcome::Again(run.at(next)));
}

/// Between arguments, without a tag in the buffer, nothing more can be done.
pub(crate) proof fn lemma_pauses(
    run: PoolsideRun,
    tools: Option<Seq<ToolDefinitionView>>,
    facts: ParserFactsView,
)
    requires
        run.state.in_tool_call,
        run.state.current_tool_name_sent,
        !run.state.streaming_string_value,
        run.state.pending_key is None,
        find_text(run.state.buffer, ARG_KEY_START@) is None,
        find_text(run.state.buffer, TOOL_CALL_END@) is None,
    ensures
        poolside_run(run, tools, facts) == Ok::<PoolsideRun, ParserQueryView>(run),
{
    assert(poolside_step(run, tools, facts) == step_between(run));
}

/// The first value of a key is what the call has under that key: an argument with a new
/// key adds the key and the value, as a JSON string or as what the literal parser makes of
/// it.
pub proof fn law_a_new_argument_is_added(
    state: PoolsideV1StreamStateView,
    key: Seq<char>,
    value: Seq<char>,
    tools: Option<Seq<ToolDefinitionView>>,
    facts: ParserFactsView,
    json: Seq<char>,
)
    requires
        between_arguments(state),
        ends_with_first(key, ARG_KEY_END@),
        ends_with_first(value, ARG_VALUE_END@),
        !state.tool().seen_keys.contains(trim_spec(key)),
        trim_spec(key).len() > 0,
        value_json(state, key, value, tools, facts) == Some(json),
    ensures
        delta_result(state, argument_text(key, value), tools, facts) matches Ok(run) && run.state
            == state.with_tool(with_argument(state, trim_spec(key), json)),
{
    let text = argument_text(key, value);
    let start = start_run(state, text);
    let name = trim_spec(key);
    let body = ARG_VALUE_START@ + value + ARG_VALUE_END@;
    let read = PoolsideV1StreamStateView { pending_key: Some(key), buffer: body, ..state };
    let run = start.at(read);
    let expected = state.with_tool(with_argument(state, name, json));
    lemma_tags();
    lemma_key_read(state, key, value, tools, facts);
    assert(body.subrange(0, ARG_VALUE_START@.len() as int) =~= ARG_VALUE_START@);
    lemma_find_first(body, ARG_VALUE_START@);
    assert(read.drained(0).buffer =~= body);
    assert(poolside_step(run, tools, facts) == step_value(run, tools, facts, key));
    assert(find_text(Seq::<char>::empty(), ARG_KEY_START@) is None) by {
        lemma_find_text(Seq::empty(), ARG_KEY_START@);
    }
    assert(find_text(Seq::<char>::empty(), TOOL_CALL_END@) is None) by {
        lemma_find_text(Seq::empty(), TOOL_CALL_END@);
    }
    if declared_string(tools, open_name(state), name) {
        let tail = value + ARG_VALUE_END@;
        assert(body.subrange(ARG_VALUE_START@.len() as int, body.len() as int) =~= tail);
        let second = step_value(run, tools, facts, key)->Again_0;
        assert(second.state.buffer =~= tail);
        assert(poolside_step(second, tools, facts) == step_string(second));
        assert(tail.subrange(0, value.len() as int) =~= value);
        assert(tail.subrange(tail.len() as int, tail.len() as int) =~= Seq::empty());
        let third = step_string(second)->Again_0;
        assert(third.state.tool().streamed_args =~= state.tool().streamed_args + (
        state.key_fragment(name) + json));
        assert(third.state.tools =~= expected.tools);
        assert(third.state.buffer =~= state.buffer);
        assert(third.state == expected);
        lemma_pauses(third, tools, facts);
    } else {
        assert(body =~= ARG_VALUE_START@ + (value + ARG_VALUE_END@));
        lemma_starts_hold_no_ends(value + ARG_VALUE_END@);
        assert(body =~= ARG_VALUE_START@ + value + ARG_VALUE_END@ + Seq::<char>::empty());
        lemma_find_behind(ARG_VALUE_START@, value, ARG_VALUE_END@, Seq::empty());
        let end = (ARG_VALUE_START@.len() + value.len()) as int;
        assert(body.subrange(ARG_VALUE_START@.len() as int, end) =~= value);
        assert(body.subrange(end + ARG_VALUE_END@.len(), body.len() as int) =~= Seq::empty());
        let second = step_value(run, tools, facts, key)->Again_0;
        assert(second.state.tools =~= expected.tools);
        assert(second.state.buffer =~= state.buffer);
        assert(second.state == expected);
        lemma_pauses(second, tools, facts);
    }
}

/// A later value of a key that the call has adds nothing to it.
pub proof fn law_a_repeated_argument_adds_nothing(
    state: PoolsideV1StreamStateView,
    key: Seq<char>,
    value: Seq<char>,
    tools: Option<Seq<ToolDefinitionView>>,
    facts: ParserFactsView,
)
    requires
        between_arguments(state),
        ends_with_first(key, ARG_KEY_END@),
        ends_with_first(value, ARG_VALUE_END@),
        state.tool().seen_keys.contains(trim_spec(key)),
        find_text(value + ARG_VALUE_END@, ARG_KEY_START@) is None,
        find_text(value + ARG_VALUE_END@, TOOL_CALL_END@) is None,
    ensures
        delta_result(state, argument_text(key, value), tools, facts) matches Ok(run) && {
            &&& run.state == (PoolsideV1StreamStateView { buffer: run.state.buffer, ..state })
            &&& run.delta.tool_calls.len() == 0
        },
{
    let text = argument_text(key, value);
    let start = start_run(state, text);
    let name = trim_spec(key);
    let body = ARG_VALUE_START@ + value + ARG_VALUE_END@;
    let read = PoolsideV1StreamStateView { pending_key: Some(key), buffer: body, ..state };
    let run = start.at(read);
    lemma_tags();
    lemma_key_read(state, key, value, tools, facts);
    assert(body.subrange(0, ARG_VALUE_START@.len() as int) =~= ARG_VALUE_START@);
    lemma_find_first(body, ARG_VALUE_START@);
    assert(read.drained(0).buffer =~= body);
    assert(poolside_step(run, tools, facts) == step_value(run, tools, facts, key));
    if declared_string(tools, open_name(state), name) {
        let tail = value + ARG_VALUE_END@;
        assert(body.subrange(ARG_VALUE_START@.len() as int, body.len() as int) =~= tail);
    } else {
        assert(body =~= ARG_VALUE_START@ + (value + ARG_VALUE_END@));
        lemma_starts_hold_no_ends(value + ARG_VALUE_END@);
        assert(body =~= ARG_VALUE_START@ + value + ARG_VALUE_END@ + Seq::<char>::empty());
        lemma_find_behind(ARG_VALUE_START@, value, ARG_VALUE_END@, Seq::empty());
        let end = (ARG_VALUE_START@.len() + value.len()) as int;
        assert(body.subrange(end + ARG_VALUE_END@.len(), body.len() as int) =~= Seq::empty());
        lemma_find_text(Seq::empty(), ARG_KEY_START@);
        lemma_find_text(Seq::empty(), TOOL_CALL_END@);
    }
    let second = step_value(run, tools, facts, key)->Again_0;
    lemma_pauses(second, tools, facts);
}

} // verus!
