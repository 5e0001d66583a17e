//! How a `poolside_v1` tool call begins and ends, and how what its markup says leaves.

use crate::chat_types::{ChatChoiceStreamView, FunctionType, ToolDefinitionView};
use crate::jail_ledger::text_in;
use crate::jail_state::{finalized, processed, ChoiceJailStateView};
use crate::jail_types::JailedStreamView;
use crate::parser_facts::{ParserFactsView, ParserQueryView};
use crate::poolside::{
    delta_result, lemma_tags, new_tool, poolside_run, poolside_step, start_run, step_between,
    step_name, step_outside, PoolsideRun, PoolsideV1StreamStateView, ARG_KEY_START, TOOL_CALL_END,
    TOOL_CALL_START,
};
use crate::poolside_given::{
    between_arguments, ends_with_first, lemma_find_behind, lemma_find_first, lemma_pauses,
};
use crate::poolside_laws::told;
use crate::text::{find_text, lemma_find_text, lemma_safe_len, safe_len, trim_spec};
use vstd::prelude::*;

verus! {

/// The parser is outside tool calls and waits for text.
pub open spec fn outside_calls(state: PoolsideV1StreamStateView) -> bool {
    &&& state.wf()
    &&& !state.in_tool_call
    &&& state.buffer.len() == 0
    &&& state.tools.len() <= i32::MAX
}

/// A tool call as it begins in the text: up to the line break behind its name.
pub open spec fn opening_text(lead: Seq<char>, name: Seq<char>) -> Seq<char> {
    lead + TOOL_CALL_START@ + (name + "\n"@)
}

/// The name ends with the line break and not before.
pub open spec fn is_plain_name(name: Seq<char>) -> bool {
    &&& ends_with_first(name, "\n"@)
    &&& find_text(name + "\n"@, ARG_KEY_START@) is None
    &&& find_text(name + "\n"@, TOOL_CALL_END@) is None
}

/// A tool call begins: the text in front of it leaves whole, and behind it the call, with a
/// new identifier, its name without white space around it, the next number, and no
/// arguments yet. The calls before it stay, and the parser waits for arguments.
pub proof fn law_a_call_begins(
    state: PoolsideV1StreamStateView,
    lead: Seq<char>,
    name: Seq<char>,
    tools: Option<Seq<ToolDefinitionView>>,
    facts: ParserFactsView,
)
    requires
        outside_calls(state),
        ends_with_first(lead, TOOL_CALL_START@),
        is_plain_name(name),
        facts.fresh_ids.len() > 0,
    ensures
        delta_result(state, opening_text(lead, name), tools, facts) matches Ok(run) && {
            &&& told(run.delta) == lead
            &&& run.delta.content is Some <==> lead.len() > 0
            &&& run.delta.tool_calls.len() == 1
            &&& run.delta.tool_calls[0].index == state.tools.len()
            &&& run.delta.tool_calls[0].id == Some(facts.fresh_ids[0])
            &&& run.delta.tool_calls[0].tool_type == Some(FunctionType::Function)
            &&& run.delta.tool_calls[0].function is Some
            &&& run.delta.tool_calls[0].function->0.name == Some(trim_spec(name))
            &&& run.delta.tool_calls[0].function->0.arguments == Some(Seq::<char>::empty())
            &&& between_arguments(run.state)
            &&& run.state.current_tool_name == Some(trim_spec(name))
            &&& run.state.tools == state.tools.push(new_tool(facts.fresh_ids[0]))
            &&& run.used_ids == 1
        },
{
    let text = opening_text(lead, name);
    let none = Seq::<char>::empty();
    let start = start_run(state, text);
    lemma_tags();
    reveal_strlit("\n");
    assert("\n"@.len() == 1);
    let tail = name + "\n"@;
    assert(start.state.buffer =~= text);
    assert(text =~= none + lead + TOOL_CALL_START@ + tail);
    lemma_find_behind(none, lead, TOOL_CALL_START@, tail);
    assert(poolside_step(start, tools, facts) == step_outside(start, facts));
    assert(text.subrange(0, lead.len() as int) =~= lead);
    assert(text.subrange((lead.len() + TOOL_CALL_START@.len()) as int, text.len() as int) =~= tail);
    let second = step_outside(start, facts)->Again_0;
    assert(second.state.buffer =~= tail);
    assert(second.state.tools =~= state.tools.push(new_tool(facts.fresh_ids[0])));
    assert(second.state.current_tool_id == state.tools.len());
    assert(told(second.delta) =~= lead);
    assert(poolside_step(second, tools, facts) == step_name(second));
    assert(tail.subrange(0, name.len() as int) =~= name);
    let third = step_name(second)->Again_0;
    assert(third.state.buffer =~= none);
    assert(third.delta.tool_calls.len() == 1);
    lemma_find_text(none, ARG_KEY_START@);
    lemma_find_text(none, TOOL_CALL_END@);
    lemma_pauses(third, tools, facts);
    assert(poolside_run(second, tools, facts) == poolside_run(third, tools, facts));
    assert(poolside_run(start, tools, facts) == poolside_run(second, tools, facts));
    assert(third.delta.tool_calls[0].id == Some(facts.fresh_ids[0]));
    assert(third.delta.tool_calls[0].function->0.arguments->0 =~= none);
}

/// A tool call ends: its arguments are closed, with `}` behind those that came and as `{}`
/// where none came, and they leave with its number; the text behind it leaves but for what
/// may be the start of another call.
pub proof fn law_a_call_ends(
    state: PoolsideV1StreamStateView,
    rest: Seq<char>,
    tools: Option<Seq<ToolDefinitionView>>,
    facts: ParserFactsView,
)
    requires
        between_arguments(state),
        !state.tool().args_closed,
        find_text(rest, TOOL_CALL_START@) is None,
    ensures
        delta_result(state, TOOL_CALL_END@ + rest, tools, facts) matches Ok(run) && {
            let closing = if state.tool().args_started {
                seq!['}']
            } else {
                seq!['{', '}']
            };
            &&& told(run.delta) + run.state.buffer == rest
            &&& run.delta.tool_calls.len() == 1
            &&& run.delta.tool_calls[0].index == state.index() as u32
            &&& run.delta.tool_calls[0].id is None
            &&& run.delta.tool_calls[0].function is Some
            &&& run.delta.tool_calls[0].function->0.name is None
            &&& run.delta.tool_calls[0].function->0.arguments == Some(closing)
            &&& !run.state.in_tool_call
            &&& run.state.tools.len() == state.tools.len()
            &&& run.state.tools[state.index()].args_closed
            &&& state.tool().args_started ==> run.state.tools[state.index()].streamed_args
                == state.tool().streamed_args + closing
            &&& !state.tool().args_started ==> run.state.tools[state.index()].streamed_args
                == closing
            &&& forall|i: int|
                0 <= i < state.tools.len() && i != state.index() ==> run.state.tools[i]
                    == #[trigger] state.tools[i]
        },
{
    let text = TOOL_CALL_END@ + rest;
    let start = start_run(state, text);
    lemma_tags();
    assert(start.state.buffer =~= text);
    assert(text.subrange(0, TOOL_CALL_END@.len() as int) =~= TOOL_CALL_END@);
    lemma_find_first(text, TOOL_CALL_END@);
    lemma_find_text(text, ARG_KEY_START@);
    if let Some(k) = find_text(text, ARG_KEY_START@) {
        if k == 0 {
            assert(text.subrange(0, ARG_KEY_START@.len() as int) == ARG_KEY_START@);
            lemma_first_letters(text);
        }
    }
    assert(poolside_step(start, tools, facts) == step_between(start));
    let second = step_between(start)->Again_0;
    assert(text.subrange(TOOL_CALL_END@.len() as int, text.len() as int) =~= rest);
    assert(second.state.buffer =~= rest);
    let closing = if state.tool().args_started {
        seq!['}']
    } else {
        seq!['{', '}']
    };
    assert(second.delta.tool_calls.len() == 1);
    assert(second.delta.tool_calls[0].function->0.arguments->0 =~= closing);
    assert(poolside_step(second, tools, facts) == step_outside(second, facts));
    lemma_safe_len(rest, TOOL_CALL_START@, TOOL_CALL_START@.len() - 1);
    let n = safe_len(rest, TOOL_CALL_START@);
    let last = step_outside(second, facts)->Paused_0;
    assert(poolside_run(second, tools, facts) == Ok::<PoolsideRun, ParserQueryView>(last));
    assert(poolside_run(start, tools, facts) == poolside_run(second, tools, facts));
    assert(told(last.delta) =~= rest.subrange(0, n));
    assert(told(last.delta) + last.state.buffer =~= rest);
}

/// The end of a call is not the start of a key.
proof fn lemma_first_letters(text: Seq<char>)
    requires
        text.len() >= TOOL_CALL_END@.len(),
        text.subrange(0, TOOL_CALL_END@.len() as int) == TOOL_CALL_END@,
    ensures
        text.subrange(0, ARG_KEY_START@.len() as int) != ARG_KEY_START@,
{
    reveal_strlit("</tool_call>");
    reveal_strlit("<arg_key>");
    lemma_tags();
    assert(text[1] == text.subrange(0, TOOL_CALL_END@.len() as int)[1]);
    assert(TOOL_CALL_END@[1] == '/');
    assert(ARG_KEY_START@[1] == 'a');
    assert(text.subrange(0, ARG_KEY_START@.len() as int)[1] == text[1]);
}

/// What the markup of a choice says leaves at once: the text and the calls that the parser
/// makes of a piece leave in one emission, with the finish reason and the log-probabilities
/// of the piece; where it makes nothing of it nothing leaves. Where there are no tools the
/// text passes as it came.
pub proof fn law_markup_leaves_at_once(
    state: ChoiceJailStateView,
    choice: ChatChoiceStreamView,
    content: Seq<char>,
    jail: JailedStreamView,
    facts: ParserFactsView,
)
    requires
        jail.is_poolside_v1(),
    ensures
        !jail.has_tools() ==> (processed(state, choice, content, jail, facts) matches Ok(done) && {
            &&& done.state == state
            &&& done.emissions.len() == 1
            &&& done.emissions[0] is PassThrough
            &&& text_in(done.emissions[0].choice()) == content
            &&& done.emissions[0].choice().finish_reason == choice.finish_reason
        }),
        jail.has_tools() ==> match (
            delta_result(state.poolside_v1_state, content, jail.tool_definitions, facts),
            processed(state, choice, content, jail, facts),
        ) {
            (Ok(run), Ok(done)) => {
                &&& done.state == (ChoiceJailStateView { poolside_v1_state: run.state, ..state })
                &&& done.emissions.len() == if run.delta.content is None
                    && run.delta.tool_calls.len() == 0 {
                    0int
                } else {
                    1int
                }
                &&& done.emissions.len() == 1 ==> {
                    let out = done.emissions[0].choice();
                    &&& text_in(out) == told(run.delta)
                    &&& out.delta.tool_calls == if run.delta.tool_calls.len() > 0 {
                        Some(run.delta.tool_calls)
                    } else {
                        None
                    }
                    &&& out.index == choice.index
                    &&& out.finish_reason == choice.finish_reason
                    &&& out.logprobs == choice.logprobs
                    &&& done.emissions[0] is ToolCall <==> run.delta.tool_calls.len() > 0
                    &&& done.emissions[0] is PassThrough <==> run.delta.tool_calls.len() == 0
                }
            },
            (Err(_), Err(_)) => true,
            _ => false,
        },
{
    reveal(processed);
}

/// At the end of a stream, text that waited because it might have been the start of a call
/// leaves; a call that is still open leaves no text, and nothing waits any more.
pub proof fn law_markup_ends_whole(
    state: ChoiceJailStateView,
    jail: JailedStreamView,
    facts: ParserFactsView,
)
    requires
        jail.is_poolside_v1(),
    ensures
        finalized(state, jail, facts) matches Ok((last, emission)) && {
            let markup = state.poolside_v1_state;
            &&& emission is Some <==> !markup.in_tool_call && markup.buffer.len() > 0
            &&& emission matches Some(e) ==> {
                &&& text_in(e.choice()) == markup.buffer
                &&& e.choice().delta.tool_calls is None
                &&& e.choice().index == state.index
                &&& e.choice().finish_reason == state.stream_finish_reason
            }
            &&& last.poolside_v1_state.buffer.len() == 0
            &&& !last.poolside_v1_state.in_tool_call
            &&& last.poolside_v1_state.tools == markup.tools
        },
{
}

} // verus!
