//! What holds of a jailed stream as a whole.

use crate::chat_types::{
    AnnotatedView, ChatChoiceStreamView, ChatCompletionMessageContentView,
    ChatCompletionMessageToolCallChunkView, FinishReason, ToolCallResponseView,
};
use crate::jail_apply::{choices_processed, response_processed};
use crate::jail_parse::{
    call_choice, calls_named, capped, choice_complete, chunks_named, chunks_of, ends_jail,
    forced_chunks, forced_kept, renumbered, starts_jail, tagged_chunks, tagged_kept,
};
use crate::jail_state::{
    dedupe_key, finalized, finish_kept, free_text, jailed_text, key_position,
    lemma_finalized_index, lemma_processed_index, lemma_reasoning_index, lemma_text_index,
    logprobs_joined, marker_seen, piece, prefix_emitted, prepared, processed, reasoning_call,
    reasoning_processed, released, trailed, ChoiceJailStateView, KeyCountView, Processed, Sorted,
};
use crate::jail_stream::{
    choice_passed, choice_processed, ending, finish_noted, in_lane, lane_of, law_states_stay_sorted,
    lemma_state_position, reasoning_released, state_position, states_wf, text_state, with_state,
    JailRunView, Lane, ResponseStep,
};
use crate::jail_types::{ChoiceEmissionView, JailModeView, JailedStreamView, ToolChoiceFormatView};
use crate::parser_facts::{marker_answer, MatchResultView, ParserFactsView, ParserQueryView};
use crate::text::is_blank;
use vstd::prelude::*;

verus! {

/// No key is in the list twice.
pub open spec fn keys_differ(keys: Seq<KeyCountView>) -> bool {
    forall|i: int, j: int|
        0 <= i < j < keys.len() ==> (#[trigger] keys[i]).key != (#[trigger] keys[j]).key
}

/// `key` is in the list.
pub open spec fn has_key(keys: Seq<KeyCountView>, key: Seq<char>) -> bool {
    exists|i: int| 0 <= i < keys.len() && (#[trigger] keys[i]).key == key
}

/// A position that is found holds the key, and no earlier one does.
pub(crate) proof fn lemma_key_position(keys: Seq<KeyCountView>, key: Seq<char>, from: int)
    requires
        0 <= from,
    ensures
        match key_position(keys, key, from) {
            Some(p) => from <= p < keys.len() && keys[p].key == key,
            None => forall|i: int| from <= i < keys.len() ==> (#[trigger] keys[i]).key != key,
        },
    decreases keys.len() - from,
{
    if from < keys.len() && keys[from].key != key {
        lemma_key_position(keys, key, from + 1);
    }
}

/// What is kept of `chunks`, and what is remembered, where `old_keys` were remembered
/// before.
pub open spec fn kept_once(
    out: Sorted,
    old_keys: Seq<KeyCountView>,
    chunks: Seq<ChatCompletionMessageToolCallChunkView>,
) -> bool {
    &&& keys_differ(out.keys)
    &&& forall|key: Seq<char>| has_key(old_keys, key) ==> #[trigger] has_key(out.keys, key)
    &&& forall|i: int|
        0 <= i < out.kept.len() ==> chunks.contains(#[trigger] out.kept[i]) && (dedupe_key(
            out.kept[i],
        ) matches Some(key) ==> has_key(out.keys, key) && !has_key(old_keys, key))
    &&& forall|i: int, j: int|
        0 <= i < j < out.kept.len() && dedupe_key(#[trigger] out.kept[i]) is Some ==> dedupe_key(
            out.kept[i],
        ) != dedupe_key(#[trigger] out.kept[j])
    &&& !out.stopped ==> forall|i: int|
        0 <= i < chunks.len() ==> (match dedupe_key(#[trigger] chunks[i]) {
            Some(key) => has_key(out.keys, key),
            None => out.kept.contains(chunks[i]),
        })
    &&& forall|key: Seq<char>| #[trigger]
        has_key(out.keys, key) && !has_key(old_keys, key) ==> exists|i: int|
            0 <= i < out.kept.len() && dedupe_key(#[trigger] out.kept[i]) == Some(key)
}

/// One more call keeps what is kept and remembered in order.
proof fn lemma_kept_step(
    out: Sorted,
    old_keys: Seq<KeyCountView>,
    chunks: Seq<ChatCompletionMessageToolCallChunkView>,
    chunk: ChatCompletionMessageToolCallChunkView,
)
    requires
        kept_once(out, old_keys, chunks),
    ensures
        kept_once(out.step(chunk), old_keys, chunks.push(chunk)),
{
    let next = out.step(chunk);
    let all = chunks.push(chunk);
    assert(all[chunks.len() as int] == chunk);
    assert forall|c: ChatCompletionMessageToolCallChunkView|
        chunks.contains(c) implies #[trigger] all.contains(c) by {
        let i = choose|i: int| 0 <= i < chunks.len() && chunks[i] == c;
        assert(all[i] == c);
    }
    if !out.stopped {
        match dedupe_key(chunk) {
            None => {
                lemma_kept_more(out, chunk);
                assert forall|k: Seq<char>| #[trigger]
                    has_key(next.keys, k) && !has_key(old_keys, k) implies exists|i: int|
                    0 <= i < next.kept.len() && dedupe_key(#[trigger] next.kept[i]) == Some(k) by {
                    let i = choose|i: int|
                        0 <= i < out.kept.len() && dedupe_key(#[trigger] out.kept[i]) == Some(k);
                    assert(next.kept[i] == out.kept[i]);
                }
            },
            Some(key) => {
                lemma_key_position(out.keys, key, 0);
                match key_position(out.keys, key, 0) {
                    None => {
                        lemma_kept_more(out, chunk);
                        assert forall|k: Seq<char>| #[trigger] has_key(next.keys, k) == (has_key(
                            out.keys,
                            k,
                        ) || k == key) by {
                            if has_key(out.keys, k) {
                                let i = choose|i: int|
                                    0 <= i < out.keys.len() && (#[trigger] out.keys[i]).key == k;
                                assert(next.keys[i].key == k);
                            }
                            assert(next.keys[out.keys.len() as int].key == key);
                        }
                        assert(!has_key(out.keys, key));
                        assert(!has_key(old_keys, key));
                        assert(next.kept[out.kept.len() as int] == chunk);
                        assert forall|k: Seq<char>| #[trigger]
                            has_key(next.keys, k) && !has_key(old_keys, k) implies exists|i: int|
                            0 <= i < next.kept.len() && dedupe_key(#[trigger] next.kept[i]) == Some(
                                k,
                            ) by {
                            if k == key {
                                assert(dedupe_key(next.kept[out.kept.len() as int]) == Some(k));
                            } else {
                                assert(has_key(out.keys, k));
                                let i = choose|i: int|
                                    0 <= i < out.kept.len() && dedupe_key(#[trigger] out.kept[i])
                                        == Some(k);
                                assert(next.kept[i] == out.kept[i]);
                            }
                        }
                    },
                    Some(p) => {
                        assert forall|k: Seq<char>| #[trigger] has_key(next.keys, k) == has_key(
                            out.keys,
                            k,
                        ) by {
                            if has_key(out.keys, k) {
                                let i = choose|i: int|
                                    0 <= i < out.keys.len() && (#[trigger] out.keys[i]).key == k;
                                assert(next.keys[i].key == k);
                            }
                            if has_key(next.keys, k) {
                                let i = choose|i: int|
                                    0 <= i < next.keys.len() && (#[trigger] next.keys[i]).key == k;
                                assert(out.keys[i].key == k);
                            }
                        }
                        assert(next.keys[p].key == key);
                        assert(has_key(next.keys, key));
                        assert forall|i: int, j: int| 0 <= i < j < next.keys.len() implies (
                        #[trigger] next.keys[i]).key != (#[trigger] next.keys[j]).key by {
                            assert(out.keys[i].key == next.keys[i].key);
                            assert(out.keys[j].key == next.keys[j].key);
                        }
                    },
                }
            },
        }
    }
}

/// A chunk at the end of those that are kept.
proof fn lemma_kept_more(out: Sorted, chunk: ChatCompletionMessageToolCallChunkView)
    ensures
        out.kept.push(chunk).contains(chunk),
        forall|c: ChatCompletionMessageToolCallChunkView|
            out.kept.contains(c) ==> #[trigger] out.kept.push(chunk).contains(c),
{
    let more = out.kept.push(chunk);
    assert(more[out.kept.len() as int] == chunk);
    assert forall|c: ChatCompletionMessageToolCallChunkView|
        out.kept.contains(c) implies #[trigger] more.contains(c) by {
        let i = choose|i: int| 0 <= i < out.kept.len() && out.kept[i] == c;
        assert(more[i] == c);
    }
}

/// All calls in turn.
pub(crate) proof fn lemma_kept_over(
    keys: Seq<KeyCountView>,
    chunks: Seq<ChatCompletionMessageToolCallChunkView>,
)
    requires
        keys_differ(keys),
    ensures
        kept_once(
            (Sorted { keys, kept: Seq::empty(), stopped: false }).over(chunks),
            keys,
            chunks,
        ),
    decreases chunks.len(),
{
    if chunks.len() > 0 {
        let n = chunks.len() - 1;
        let front = chunks.subrange(0, n);
        lemma_kept_over(keys, front);
        lemma_kept_step(
            (Sorted { keys, kept: Seq::empty(), stopped: false }).over(front),
            keys,
            front,
            chunks[n],
        );
        assert(front.push(chunks[n]) =~= chunks);
    }
}

/// Where any tool is required, no tool call leaves twice: a call that leaves is
/// remembered, none that is remembered leaves again, and every call that is new
/// leaves, unless one came too often.
pub proof fn law_calls_leave_once(
    state: ChoiceJailStateView,
    choice: ChatChoiceStreamView,
    jail: JailedStreamView,
)
    requires
        jail.guards_duplicates(),
        choice.delta.tool_calls is Some,
        keys_differ(state.emitted_required_tool_call_keys),
    ensures
        ({
            let (after, ready, n) = prepared(state, choice, jail);
            let sorted = Sorted {
                keys: after.emitted_required_tool_call_keys,
                kept: match ready.delta.tool_calls {
                    Some(kept) => kept,
                    None => Seq::empty(),
                },
                stopped: after.terminate_after_tool_call,
            };
            &&& kept_once(
                sorted,
                state.emitted_required_tool_call_keys,
                choice.delta.tool_calls->0,
            )
            &&& n == sorted.kept.len()
        }),
{
    lemma_kept_over(state.emitted_required_tool_call_keys, choice.delta.tool_calls->0);
    let sorted = (Sorted {
        keys: state.emitted_required_tool_call_keys,
        kept: Seq::empty(),
        stopped: false,
    }).over(choice.delta.tool_calls->0);
    let (after, ready, n) = prepared(state, choice, jail);
    assert(sorted.kept.len() == 0 ==> sorted.kept =~= Seq::empty());
}

/// The tool calls of a choice are numbered on from those that were emitted before.
pub proof fn law_calls_are_numbered_on(
    jail: JailedStreamView,
    index: u32,
    content: Seq<char>,
    base: ChatChoiceStreamView,
    offset: int,
    finalize: bool,
    facts: ParserFactsView,
)
    ensures
        call_choice(jail, index, content, base, offset, finalize, facts) matches Ok(made)
            ==> made.index == index && (made.delta.tool_calls matches Some(calls) ==> calls.len()
            > 0 && forall|i: int|
            0 <= i < calls.len() ==> (#[trigger] calls[i]).index == capped(offset + i) as u32),
{
    if jail.jail_mode is MarkerBased {
        if let Some(Some(parsed)) = facts.calls_in(content, finalize) {
            let kept = match jail.named_tool_name {
                Some(name) => calls_named(parsed.calls, name),
                None => parsed.calls,
            };
            assert(forall|i: int|
                0 <= i < kept.len() ==> (#[trigger] chunks_of(kept, offset)[i]).index == capped(
                    offset + i,
                ) as u32);
        }
        if let Ok(Some(tagged)) = tagged_chunks(jail, content, offset, finalize, facts) {
            let kept = tagged_kept(jail, tagged, offset);
            assert(forall|i: int|
                0 <= i < kept.len() ==> (#[trigger] kept[i]).index == capped(offset + i) as u32);
        }
    } else {
        let format = jail.jail_mode->format;
        if let Ok(found) = forced_chunks(jail, format, content, facts) {
            let kept = forced_kept(jail, format, found.chunks);
            assert(forall|i: int|
                0 <= i < kept.len() ==> (#[trigger] renumbered(kept, offset)[i]).index == capped(
                    offset + i,
                ) as u32);
        }
    }
}

/// A chunk of the tool `name`.
pub open spec fn calls_tool(chunk: ChatCompletionMessageToolCallChunkView, name: Seq<char>) -> bool {
    chunk.function matches Some(function) && function.name == Some(name)
}

/// Only calls of the tool are left.
proof fn lemma_calls_named(calls: Seq<ToolCallResponseView>, name: Seq<char>)
    ensures
        forall|i: int|
            0 <= i < calls_named(calls, name).len() ==> (#[trigger] calls_named(
                calls,
                name,
            )[i]).function.name == name,
    decreases calls.len(),
{
    if calls.len() > 0 {
        lemma_calls_named(calls.subrange(0, calls.len() - 1), name);
    }
}

/// Only chunks of the tool are left.
proof fn lemma_chunks_named(
    chunks: Seq<ChatCompletionMessageToolCallChunkView>,
    name: Seq<char>,
)
    ensures
        forall|i: int|
            0 <= i < chunks_named(chunks, name).len() ==> calls_tool(
                #[trigger] chunks_named(chunks, name)[i],
                name,
            ),
    decreases chunks.len(),
{
    if chunks.len() > 0 {
        let front = chunks.subrange(0, chunks.len() - 1);
        let all = chunks_named(chunks, name);
        lemma_chunks_named(front, name);
        assert forall|i: int| 0 <= i < all.len() implies calls_tool(#[trigger] all[i], name) by {
            if i < chunks_named(front, name).len() {
                assert(all[i] == chunks_named(front, name)[i]);
            }
        }
    }
}

/// Where one tool is asked for, no call of another tool is emitted.
pub proof fn law_only_the_named_tool_is_called(
    jail: JailedStreamView,
    index: u32,
    content: Seq<char>,
    base: ChatChoiceStreamView,
    offset: int,
    finalize: bool,
    facts: ParserFactsView,
    name: Seq<char>,
)
    requires
        jail.named_tool_name == Some(name),
    ensures
        call_choice(jail, index, content, base, offset, finalize, facts) matches Ok(made) ==> (
        made.delta.tool_calls matches Some(calls) ==> forall|i: int|
            0 <= i < calls.len() ==> calls_tool(#[trigger] calls[i], name)),
{
    if jail.jail_mode is MarkerBased {
        if let Some(Some(parsed)) = facts.calls_in(content, finalize) {
            let kept = calls_named(parsed.calls, name);
            lemma_calls_named(parsed.calls, name);
            assert forall|i: int| 0 <= i < kept.len() implies calls_tool(
                #[trigger] chunks_of(kept, offset)[i],
                name,
            ) by {
                assert(kept[i].function.name == name);
            }
        }
        if let Ok(Some(tagged)) = tagged_chunks(jail, content, offset, finalize, facts) {
            lemma_chunks_named(tagged, name);
            assert forall|i: int| 0 <= i < tagged_kept(jail, tagged, offset).len() implies calls_tool(
                #[trigger] tagged_kept(jail, tagged, offset)[i],
                name,
            ) by {
                assert(calls_tool(chunks_named(tagged, name)[i], name));
            }
        }
    } else {
        let format = jail.jail_mode->format;
        if let Ok(found) = forced_chunks(jail, format, content, facts) {
            let kept = forced_kept(jail, format, found.chunks);
            lemma_chunks_named(found.chunks, name);
            assert forall|i: int| 0 <= i < kept.len() implies calls_tool(
                #[trigger] renumbered(kept, offset)[i],
                name,
            ) by {
                assert(kept[i] == chunks_named(found.chunks, name)[i]);
            }
        }
    }
}

/// The tool calls that are found in the text of a jail, whichever tool they call; none
/// where an answer is missing.
pub open spec fn calls_found(
    jail: JailedStreamView,
    content: Seq<char>,
    offset: int,
    finalize: bool,
    facts: ParserFactsView,
) -> Seq<ChatCompletionMessageToolCallChunkView> {
    match jail.jail_mode {
        JailModeView::MarkerBased => match facts.calls_in(content, finalize) {
            Some(Some(parsed)) if parsed.calls.len() > 0 => chunks_of(parsed.calls, offset),
            _ => match tagged_chunks(jail, content, offset, finalize, facts) {
                Ok(Some(tagged)) => tagged,
                _ => Seq::empty(),
            },
        },
        JailModeView::Immediate { format } => match forced_chunks(jail, format, content, facts) {
            Ok(found) => found.chunks,
            Err(_) => Seq::empty(),
        },
    }
}

/// Where one tool is asked for and only others are called, no call is emitted, and the
/// text of the calls does not come back: what is left is the text that the parser saw
/// beside them, if any.
pub proof fn law_calls_of_other_tools_do_not_leak(
    jail: JailedStreamView,
    index: u32,
    content: Seq<char>,
    base: ChatChoiceStreamView,
    offset: int,
    finalize: bool,
    facts: ParserFactsView,
    name: Seq<char>,
)
    requires
        jail.named_tool_name == Some(name),
        calls_found(jail, content, offset, finalize, facts).len() > 0,
        forall|i: int|
            0 <= i < calls_found(jail, content, offset, finalize, facts).len() ==> !calls_tool(
                #[trigger] calls_found(jail, content, offset, finalize, facts)[i],
                name,
            ),
    ensures
        call_choice(jail, index, content, base, offset, finalize, facts) matches Ok(made) ==> {
            &&& made.delta.tool_calls is None
            &&& made.delta.content == Some(
                ChatCompletionMessageContentView::Text(
                    match (jail.jail_mode, facts.calls_in(content, finalize)) {
                        (JailModeView::MarkerBased, Some(Some(parsed))) => if parsed.calls.len()
                            > 0 && parsed.normal_text is Some {
                            parsed.normal_text->0
                        } else {
                            Seq::empty()
                        },
                        _ => Seq::empty(),
                    },
                ),
            )
        },
{
    let found = calls_found(jail, content, offset, finalize, facts);
    lemma_no_chunks_named(found, name);
    if jail.jail_mode is MarkerBased {
        if let Some(Some(parsed)) = facts.calls_in(content, finalize) {
            if parsed.calls.len() > 0 {
                assert forall|i: int| 0 <= i < parsed.calls.len() implies (
                #[trigger] parsed.calls[i]).function.name != name by {
                    assert(!calls_tool(found[i], name));
                }
                lemma_no_calls_named(parsed.calls, name);
            }
        }
    }
}

/// Where no call is one of the tool, none is left.
proof fn lemma_no_calls_named(calls: Seq<ToolCallResponseView>, name: Seq<char>)
    requires
        forall|i: int| 0 <= i < calls.len() ==> (#[trigger] calls[i]).function.name != name,
    ensures
        calls_named(calls, name).len() == 0,
    decreases calls.len(),
{
    if calls.len() > 0 {
        let front = calls.subrange(0, calls.len() - 1);
        assert forall|i: int| 0 <= i < front.len() implies (#[trigger] front[i]).function.name
            != name by {
            assert(front[i] == calls[i]);
        }
        lemma_no_calls_named(front, name);
    }
}

/// Where no chunk is one of the tool, none is left.
proof fn lemma_no_chunks_named(
    chunks: Seq<ChatCompletionMessageToolCallChunkView>,
    name: Seq<char>,
)
    requires
        forall|i: int| 0 <= i < chunks.len() ==> !calls_tool(#[trigger] chunks[i], name),
    ensures
        chunks_named(chunks, name).len() == 0,
    decreases chunks.len(),
{
    if chunks.len() > 0 {
        let n = chunks.len() - 1;
        let front = chunks.subrange(0, n);
        assert forall|i: int| 0 <= i < front.len() implies !calls_tool(
            #[trigger] front[i],
            name,
        ) by {
            assert(front[i] == chunks[i]);
        }
        lemma_no_chunks_named(front, name);
        assert(!calls_tool(chunks[n], name));
    }
}

/// Where a named tool is forced, at most one call is emitted, and none after it.
pub proof fn law_a_named_tool_is_called_once(
    jail: JailedStreamView,
    tool_name: Seq<char>,
    index: u32,
    content: Seq<char>,
    base: ChatChoiceStreamView,
    offset: int,
    finalize: bool,
    facts: ParserFactsView,
)
    requires
        0 <= offset,
        jail.jail_mode == (JailModeView::Immediate {
            format: ToolChoiceFormatView::SingleObject { tool_name },
        }),
    ensures
        call_choice(jail, index, content, base, offset, finalize, facts) matches Ok(made) ==> (
        made.delta.tool_calls matches Some(calls) ==> offset == 0 && calls.len() == 1),
{
}

/// An emission of the choice `index` whose finish reason, if it has one, is `reason`.
pub open spec fn carries(
    emission: ChoiceEmissionView,
    index: u32,
    reason: Option<FinishReason>,
) -> bool {
    &&& emission.choice().index == index
    &&& emission.choice().finish_reason is None || emission.choice().finish_reason == reason
}

/// All the emissions are of that choice.
pub open spec fn all_carry(
    emissions: Seq<ChoiceEmissionView>,
    index: u32,
    reason: Option<FinishReason>,
) -> bool {
    forall|i: int| 0 <= i < emissions.len() ==> carries(#[trigger] emissions[i], index, reason)
}

/// A choice made of jailed text belongs to the choice it was made for.
proof fn lemma_made_carries(
    jail: JailedStreamView,
    index: u32,
    content: Seq<char>,
    base: ChatChoiceStreamView,
    offset: int,
    finalize: bool,
    facts: ParserFactsView,
)
    ensures
        call_choice(jail, index, content, base, offset, finalize, facts) matches Ok(made)
            ==> made.index == index && (made.finish_reason is None || made.finish_reason
            == base.finish_reason),
{
}

/// Released text belongs to the choice it came from.
proof fn lemma_released_carries(
    before: Processed,
    choice: ChatChoiceStreamView,
    jail: JailedStreamView,
    index: u32,
    reason: Option<FinishReason>,
)
    requires
        all_carry(before.emissions, index, reason),
        choice.index == index,
        choice.finish_reason is None || choice.finish_reason == reason,
    ensures
        all_carry(released(before, choice, jail).emissions, index, reason),
{
    let (state, ready, n) = prepared(before.state, choice, jail);
    assert(ready.index == index && ready.finish_reason == choice.finish_reason);
}

/// Text after a tool call belongs to the choice it came from.
proof fn lemma_trailed_carries(
    before: Processed,
    choice: ChatChoiceStreamView,
    jail: JailedStreamView,
    trailing: Seq<char>,
    facts: ParserFactsView,
)
    requires
        all_carry(before.emissions, choice.index, choice.finish_reason),
    ensures
        trailed(before, choice, jail, trailing, facts) matches Ok(done) ==> all_carry(
            done.emissions,
            choice.index,
            choice.finish_reason,
        ),
{
}

/// What the text of a jailed choice releases belongs to that choice.
proof fn lemma_jailed_carries(
    state: ChoiceJailStateView,
    choice: ChatChoiceStreamView,
    content: Seq<char>,
    jail: JailedStreamView,
    facts: ParserFactsView,
)
    ensures
        jailed_text(state, choice, content, jail, facts) matches Ok(done) ==> all_carry(
            done.emissions,
            choice.index,
            choice.finish_reason,
        ),
{
    let all = state.accumulated_content + content;
    let logprobs = logprobs_joined(state.accumulated_logprobs, choice.logprobs);
    let grown = ChoiceJailStateView {
        accumulated_content: all,
        accumulated_logprobs: logprobs,
        ..state
    };
    if let Ok((true, split)) = ends_jail(jail, all, facts) {
        let offset = state.emitted_tool_calls_count as int;
        let front = all.subrange(0, split);
        lemma_made_carries(jail, choice.index, front, choice, offset, false, facts);
        if let Ok(made) = call_choice(jail, choice.index, front, choice, offset, false, facts) {
            let start = Processed { state: grown, emissions: Seq::empty() };
            let full = ChatChoiceStreamView { logprobs, ..made };
            lemma_released_carries(start, full, jail, choice.index, choice.finish_reason);
            let out = released(start, full, jail);
            lemma_trailed_carries(
                Processed { state: out.state.unjailed(), ..out },
                choice,
                jail,
                all.subrange(split, all.len() as int),
                facts,
            );
        }
    }
}

/// What a marker releases belongs to the choice it came in.
proof fn lemma_marker_carries(
    state: ChoiceJailStateView,
    choice: ChatChoiceStreamView,
    jail: JailedStreamView,
    prefix: Seq<char>,
    full: Seq<char>,
    facts: ParserFactsView,
)
    ensures
        marker_seen(state, choice, jail, prefix, full, facts) matches Ok(done) ==> all_carry(
            done.emissions,
            choice.index,
            choice.finish_reason,
        ),
{
    let before = Processed { state, emissions: prefix_emitted(state, choice, jail, prefix) };
    assert(all_carry(before.emissions, choice.index, choice.finish_reason));
    if let Ok((true, split)) = ends_jail(jail, full, facts) {
        let offset = state.emitted_tool_calls_count as int;
        let front = full.subrange(0, split);
        lemma_made_carries(jail, choice.index, front, choice, offset, false, facts);
        if let Ok(made) = call_choice(jail, choice.index, front, choice, offset, false, facts) {
            lemma_released_carries(before, made, jail, choice.index, choice.finish_reason);
            lemma_trailed_carries(
                released(before, made, jail),
                choice,
                jail,
                full.subrange(split, full.len() as int),
                facts,
            );
        }
    }
}

/// What the text of a choice that is not jailed releases belongs to that choice.
proof fn lemma_free_carries(
    state: ChoiceJailStateView,
    choice: ChatChoiceStreamView,
    content: Seq<char>,
    jail: JailedStreamView,
    facts: ParserFactsView,
)
    ensures
        free_text(state, choice, content, jail, facts) matches Ok(done) ==> all_carry(
            done.emissions,
            choice.index,
            choice.finish_reason,
        ),
{
    match marker_answer(facts.markers, content, state.partial_match_buffer) {
        Some(MatchResultView::Complete { prefix, marker, suffix }) => {
            lemma_marker_carries(state, choice, jail, prefix, marker + suffix, facts);
        },
        _ => {},
    }
}

/// What a piece of text releases belongs to the choice it came in; where the text
/// does not end the choice, nothing that is released says that it ended.
pub proof fn law_choices_are_told_apart(
    state: ChoiceJailStateView,
    choice: ChatChoiceStreamView,
    content: Seq<char>,
    jail: JailedStreamView,
    facts: ParserFactsView,
)
    requires
        state.index == choice.index,
    ensures
        processed(state, choice, content, jail, facts) matches Ok(done) ==> forall|i: int|
            0 <= i < done.emissions.len() ==> (#[trigger] done.emissions[i]).choice().index
                == choice.index && (choice.finish_reason is None
                ==> done.emissions[i].choice().finish_reason is None),
{
    reveal(processed);
    if !jail.is_poolside_v1() {
        let after = if state.is_jailed {
            jailed_text(state, choice, content, jail, facts)
        } else {
            free_text(state, choice, content, jail, facts)
        };
        lemma_jailed_carries(state, choice, content, jail, facts);
        lemma_free_carries(state, choice, content, jail, facts);
        if let Ok(after) = after {
            assert(all_carry(after.emissions, choice.index, choice.finish_reason));
            lemma_text_index(state, choice, content, jail, facts);
            if let Some(reason) = choice.finish_reason {
                lemma_finalized_index(
                    ChoiceJailStateView { stream_finish_reason: Some(reason), ..after.state },
                    jail,
                    facts,
                );
            }
            if let Ok(done) = finish_kept(after, choice, jail, facts) {
                assert forall|i: int| 0 <= i < done.emissions.len() implies (
                #[trigger] done.emissions[i]).choice().index == choice.index && (
                choice.finish_reason is None ==> done.emissions[i].choice().finish_reason
                    is None) by {
                    if i < after.emissions.len() {
                        assert(carries(after.emissions[i], choice.index, choice.finish_reason));
                    }
                }
            }
        }
    }
}

/// In a marker-based jail the end of a choice leaves exactly once, with what leaves
/// last; once tool calls were emitted it says so.
pub proof fn law_the_end_leaves_last(
    state: ChoiceJailStateView,
    choice: ChatChoiceStreamView,
    content: Seq<char>,
    jail: JailedStreamView,
    facts: ParserFactsView,
    reason: FinishReason,
)
    requires
        jail.jail_mode is MarkerBased,
        !jail.is_poolside_v1(),
        choice.finish_reason == Some(reason),
    ensures
        processed(state, choice, content, jail, facts) matches Ok(done) ==> {
            let last = done.emissions.len() - 1;
            &&& last >= 0
            &&& done.emissions[last].choice().finish_reason == Some(
                if done.state.emitted_tool_calls_count > 0 {
                    FinishReason::ToolCalls
                } else {
                    reason
                },
            )
            &&& forall|i: int|
                0 <= i < last ==> (#[trigger] done.emissions[i]).choice().finish_reason is None
        },
{
    reveal(processed);
}

/// While a jail goes on, nothing leaves and nothing is lost.
pub proof fn law_jailed_text_stays(
    state: ChoiceJailStateView,
    choice: ChatChoiceStreamView,
    content: Seq<char>,
    jail: JailedStreamView,
    facts: ParserFactsView,
)
    requires
        state.is_jailed,
        !jail.is_poolside_v1(),
        choice.finish_reason is None,
        ends_jail(jail, state.accumulated_content + content, facts) matches Ok(end) && !end.0,
    ensures
        processed(state, choice, content, jail, facts) matches Ok(done) && {
            &&& done.emissions.len() == 0
            &&& done.state.is_jailed
            &&& done.state.accumulated_content == state.accumulated_content + content
            &&& done.state.accumulated_logprobs == logprobs_joined(
                state.accumulated_logprobs,
                choice.logprobs,
            )
        },
{
    reveal(processed);
}

/// Text that is jailed at the end of a marker-based stream and holds no tool call
/// leaves whole, with its log-probabilities.
pub proof fn law_text_without_calls_comes_back(
    state: ChoiceJailStateView,
    jail: JailedStreamView,
    facts: ParserFactsView,
)
    requires
        state.is_jailed,
        state.accumulated_content.len() > 0,
        jail.jail_mode is MarkerBased,
        !jail.is_poolside_v1(),
        facts.calls_in(state.accumulated_content, true) matches Some(Some(parsed))
            && parsed.calls.len() == 0 && parsed.normal_text != Some(Seq::<char>::empty()),
        tagged_chunks(
            jail,
            state.accumulated_content,
            state.emitted_tool_calls_count as int,
            true,
            facts,
        ) matches Ok(tagged) && (tagged matches Some(chunks) ==> chunks.len() == 0),
        !state.terminate_after_tool_call,
    ensures
        finalized(state, jail, facts) matches Ok((last, Some(emission))) && {
            &&& emission.choice().delta.content == Some(
                ChatCompletionMessageContentView::Text(state.accumulated_content),
            )
            &&& emission.choice().logprobs == state.accumulated_logprobs
            &&& emission.choice().finish_reason == state.stream_finish_reason
            &&& !last.is_jailed
        },
{
}

/// Text after a tool call is never cut: it is jailed whole, leaves whole, or is white
/// space after a call.
pub proof fn law_trailing_text_is_not_cut(
    before: Processed,
    choice: ChatChoiceStreamView,
    jail: JailedStreamView,
    trailing: Seq<char>,
    facts: ParserFactsView,
)
    requires
        trailing.len() > 0,
    ensures
        trailed(before, choice, jail, trailing, facts) matches Ok(done) ==> {
            ||| done.state.is_jailed && done.state.accumulated_content == trailing
                && done.emissions == before.emissions
            ||| done.emissions == before.emissions.push(
                ChoiceEmissionView::Trailing(piece(choice, trailing)),
            ) && done.state == before.state
            ||| before.state.hides_blank(trailing) && done == before
        },
        starts_jail(jail, trailing, facts) is Ok ==> trailed(
            before,
            choice,
            jail,
            trailing,
            facts,
        ) is Ok,
{
}

/// The states with one for a choice keep those of the other choices.
proof fn lemma_others_kept(
    states: Seq<ChoiceJailStateView>,
    index: u32,
    starts_jailed: bool,
    state: ChoiceJailStateView,
    other: ChoiceJailStateView,
)
    requires
        states_wf(states),
        state.index == index,
        other.index != index,
    ensures
        with_state(states, index, starts_jailed).update(
            state_position(states, index),
            state,
        ).contains(other) == states.contains(other),
{
    let p = state_position(states, index);
    let between = with_state(states, index, starts_jailed);
    let after = between.update(p, state);
    lemma_state_position(states, index);
    law_states_stay_sorted(states, index, starts_jailed);
    if states.contains(other) {
        let i = choose|i: int| 0 <= i < states.len() && states[i] == other;
        if between.len() == states.len() {
            assert(i != p);
            assert(after[i] == other);
        } else if i < p {
            assert(after[i] == other);
        } else {
            assert(after[i + 1] == other);
        }
    }
    if after.contains(other) {
        let i = choose|i: int| 0 <= i < after.len() && after[i] == other;
        assert(i != p);
        assert(between[i] == other);
        if between.len() == states.len() {
            assert(states[i] == other);
        } else if i < p {
            assert(states[i] == other);
        } else {
            assert(states[i - 1] == other);
        }
    }
}

/// A choice that comes changes no other choice: what is remembered of the others
/// stays, and what is emitted for it is all its own.
pub proof fn law_choices_do_not_mix(
    run: JailRunView,
    choice: ChatChoiceStreamView,
    response: AnnotatedView,
    jail: JailedStreamView,
    facts: ParserFactsView,
    other: ChoiceJailStateView,
)
    requires
        run.wf(),
        other.index != choice.index,
    ensures
        choice_processed(run, choice, response, jail, facts) matches Ok(after) ==> {
            &&& after.choice_states.states.contains(other) == run.choice_states.states.contains(
                other,
            )
            &&& run.all_emissions.len() <= after.all_emissions.len()
            &&& forall|i: int|
                0 <= i < after.all_emissions.len() ==> if i < run.all_emissions.len() {
                    #[trigger] after.all_emissions[i] == run.all_emissions[i]
                } else {
                    after.all_emissions[i].choice().index == choice.index
                }
        },
{
    let states = run.choice_states.states;
    let p = state_position(states, choice.index);
    let plain = with_state(states, choice.index, false);
    let jailed = with_state(states, choice.index, jail.jail_mode is Immediate);
    lemma_state_position(states, choice.index);
    law_states_stay_sorted(states, choice.index, false);
    law_states_stay_sorted(states, choice.index, jail.jail_mode is Immediate);
    if choice.delta.tool_calls matches Some(calls) && calls.len() > 0 {
        lemma_passed_kept(run, choice, other);
    } else {
        match choice.delta.content {
            Some(ChatCompletionMessageContentView::Text(text)) => {
                let before = text_state(jailed[p], choice);
                lemma_processed_index(before, choice, text, jail, facts);
                law_choices_are_told_apart(before, choice, text, jail, facts);
                if let Ok(done) = processed(before, choice, text, jail, facts) {
                    let out = reasoning_released(done);
                    lemma_others_kept(
                        states,
                        choice.index,
                        jail.jail_mode is Immediate,
                        ChoiceJailStateView { terminate_after_tool_call: false, ..out.state },
                        other,
                    );
                    assert forall|i: int| 0 <= i < out.emissions.len() implies (
                    #[trigger] out.emissions[i]).choice().index == choice.index by {
                        assert(done.emissions[i].choice().index == choice.index);
                    }
                }
            },
            Some(ChatCompletionMessageContentView::Parts(_)) => {},
            None => {
                lemma_passed_kept(run, choice, other);
                let forced = with_state(states, choice.index, true);
                law_states_stay_sorted(states, choice.index, true);
                lemma_reasoning_index(text_state(forced[p], choice), choice, jail, facts);
                if let Ok(done) = reasoning_processed(
                    text_state(forced[p], choice),
                    choice,
                    jail,
                    facts,
                ) {
                    lemma_others_kept(
                        states,
                        choice.index,
                        true,
                        ChoiceJailStateView { terminate_after_tool_call: false, ..done.state },
                        other,
                    );
                }
            },
        }
    }
}

/// A choice that is passed on keeps the states of the others.
proof fn lemma_passed_kept(
    run: JailRunView,
    choice: ChatChoiceStreamView,
    other: ChoiceJailStateView,
)
    requires
        run.wf(),
        other.index != choice.index,
    ensures
        choice_passed(run, choice).choice_states.states.contains(other)
            == run.choice_states.states.contains(other),
{
    let states = run.choice_states.states;
    let p = state_position(states, choice.index);
    let plain = with_state(states, choice.index, false);
    law_states_stay_sorted(states, choice.index, false);
    lemma_others_kept(
        states,
        choice.index,
        false,
        finish_noted(plain[p], choice.finish_reason),
        other,
    );
}

/// The emissions of a lane are all the emissions that belong there.
proof fn lemma_in_lane(emissions: Seq<ChoiceEmissionView>, lane: Lane, emission: ChoiceEmissionView)
    ensures
        in_lane(emissions, lane).contains(emission) == (emissions.contains(emission) && lane_of(
            emission,
        ) == lane),
    decreases emissions.len(),
{
    if emissions.len() > 0 {
        let n = emissions.len() - 1;
        let front = emissions.subrange(0, n);
        let kept = in_lane(front, lane);
        let all = in_lane(emissions, lane);
        lemma_in_lane(front, lane, emission);
        if all.contains(emission) {
            let i = choose|i: int| 0 <= i < all.len() && all[i] == emission;
            if i < kept.len() {
                assert(kept[i] == emission);
                let j = choose|j: int| 0 <= j < front.len() && front[j] == emission;
                assert(emissions[j] == emission);
            } else {
                assert(emissions[n] == emission);
            }
        }
        if emissions.contains(emission) && lane_of(emission) == lane {
            let j = choose|j: int| 0 <= j < emissions.len() && emissions[j] == emission;
            if j < n {
                assert(front[j] == emission);
                let i = choose|i: int| 0 <= i < kept.len() && kept[i] == emission;
                assert(all[i] == emission);
            } else {
                assert(all[all.len() - 1] == emission);
            }
        }
    }
}

/// What the choices of a chunk emit leaves in one lane each, and none is lost on
/// the way to its lane.
pub proof fn law_every_emission_has_a_lane(
    emissions: Seq<ChoiceEmissionView>,
    emission: ChoiceEmissionView,
)
    ensures
        emissions.contains(emission) == (in_lane(emissions, Lane::Calls).contains(emission)
            || in_lane(emissions, Lane::Trailing).contains(emission) || in_lane(
            emissions,
            Lane::PassThrough,
        ).contains(emission)),
        in_lane(emissions, Lane::Calls).len() + in_lane(emissions, Lane::Trailing).len() + in_lane(
            emissions,
            Lane::PassThrough,
        ).len() == emissions.len(),
    decreases emissions.len(),
{
    lemma_in_lane(emissions, Lane::Calls, emission);
    lemma_in_lane(emissions, Lane::Trailing, emission);
    lemma_in_lane(emissions, Lane::PassThrough, emission);
    if emissions.len() > 0 {
        law_every_emission_has_a_lane(emissions.subrange(0, emissions.len() - 1), emission);
    }
}

/// A chunk without choices, such as one with the usage, passes as it is whatever the
/// state of the jail, and no answer is missing for it.
pub proof fn law_usage_passes(
    run: JailRunView,
    response: AnnotatedView,
    jail: JailedStreamView,
    facts: Seq<ParserFactsView>,
)
    requires
        response.data matches Some(data) ==> data.inner.choices.len() == 0,
    ensures
        response_processed(run, response, jail, facts) matches Ok(passed) && passed.chunks == seq![
            response,
        ] && passed.run.choice_states == run.choice_states,
{
}

/// After a tool choice is complete and the end waits for the usage, no chunk with choices
/// leaves.
pub proof fn law_nothing_follows_a_complete_choice(
    run: JailRunView,
    first: AnnotatedView,
    second: AnnotatedView,
    jail: JailedStreamView,
    facts: Seq<ParserFactsView>,
    more_facts: Seq<ParserFactsView>,
)
    requires
        jail.defer_terminal_until_usage,
        first.data matches Some(data) && data.inner.choices.len() > 0,
        second.data matches Some(data) && data.inner.choices.len() > 0,
        response_processed(run, first, jail, facts) matches Ok(passed)
            && passed.run.waiting_for_usage_after_terminal,
    ensures
        response_processed(
            response_processed(run, first, jail, facts)->Ok_0.run,
            second,
            jail,
            more_facts,
        ) matches Ok(passed) && passed.chunks.len() == 0 && !passed.over
            && passed.run.waiting_for_usage_after_terminal,
{
}

/// The end of a stream leaves nothing behind that is held back.
pub proof fn law_nothing_stays_jailed(
    state: ChoiceJailStateView,
    jail: JailedStreamView,
    facts: ParserFactsView,
)
    requires
        !jail.is_poolside_v1(),
    ensures
        finalized(state, jail, facts) matches Ok(done) ==> !done.0.holds_back(jail),
{
}

/// Where a forced tool choice ends with text that holds no call, the text leaves whole and
/// with the finish reason, in one chunk.
pub proof fn law_text_leaves_with_its_finish(
    state: ChoiceJailStateView,
    choice: ChatChoiceStreamView,
    content: Seq<char>,
    jail: JailedStreamView,
    facts: ParserFactsView,
    reason: FinishReason,
)
    requires
        jail.jail_mode is Immediate,
        state.is_jailed,
        state.emitted_tool_calls_count == 0,
        !state.terminate_after_tool_call,
        choice.finish_reason == Some(reason),
        (state.accumulated_content + content).len() > 0,
        ends_jail(jail, state.accumulated_content + content, facts) matches Ok(end) && !end.0,
        forced_chunks(
            jail,
            jail.jail_mode->format,
            state.accumulated_content + content,
            facts,
        ) matches Ok(found) && found.chunks.len() == 0,
    ensures
        processed(state, choice, content, jail, facts) matches Ok(done) && {
            &&& done.emissions.len() == 1
            &&& done.emissions[0].choice().delta.content == Some(
                ChatCompletionMessageContentView::Text(state.accumulated_content + content),
            )
            &&& done.emissions[0].choice().delta.tool_calls is None
            &&& done.emissions[0].choice().finish_reason == Some(reason)
            &&& !done.state.holds_back(jail)
        },
{
    reveal(processed);
    let all = state.accumulated_content + content;
    let found = forced_chunks(jail, jail.jail_mode->format, all, facts)->Ok_0;
    if let Some(name) = jail.named_tool_name {
        assert(chunks_named(found.chunks, name).len() == 0);
    }
    assert(forced_kept(jail, jail.jail_mode->format, found.chunks).len() == 0);
}

/// Where text of a choice is held back, an end without content waits: nothing leaves, the
/// text stays, and the finish reason is remembered for the end of the stream.
pub proof fn law_an_end_without_content_waits(
    run: JailRunView,
    choice: ChatChoiceStreamView,
    response: AnnotatedView,
    jail: JailedStreamView,
    facts: ParserFactsView,
    p: int,
)
    requires
        run.wf(),
        0 <= p < run.choice_states.states.len(),
        run.choice_states.states[p].index == choice.index,
        run.choice_states.states[p].is_jailed,
        run.choice_states.states[p].accumulated_content.len() > 0,
        choice.delta.role is None,
        choice.delta.content is None,
        choice.delta.tool_calls is None,
        choice.delta.reasoning_content is None,
    ensures
        choice_processed(run, choice, response, jail, facts) matches Ok(after) && {
            &&& after.all_emissions == run.all_emissions
            &&& after.choice_states.states == run.choice_states.states.update(
                p,
                finish_noted(run.choice_states.states[p], choice.finish_reason),
            )
        },
{
    let states = run.choice_states.states;
    lemma_state_position(states, choice.index);
    assert(state_position(states, choice.index) == p);
    assert(choice_passed(run, choice).choice_states.states =~= states.update(
        p,
        finish_noted(states[p], choice.finish_reason),
    ));
}

/// The first call of a choice is kept where none came before.
proof fn lemma_first_call_kept(chunks: Seq<ChatCompletionMessageToolCallChunkView>)
    requires
        chunks.len() > 0,
    ensures
        (Sorted { keys: Seq::empty(), kept: Seq::empty(), stopped: false }).over(chunks).kept.len()
            > 0,
    decreases chunks.len(),
{
    let start = Sorted { keys: Seq::empty(), kept: Seq::empty(), stopped: false };
    let front = chunks.subrange(0, chunks.len() - 1);
    if front.len() > 0 {
        lemma_first_call_kept(front);
    } else {
        assert(start.over(front) == start);
    }
}

/// Reasoning of a forced tool choice is parsed as content is: where it holds calls that
/// are complete, or the choice ends, the calls leave in one emission, beside only the
/// reasoning that precedes them, and nothing is held back any more.
pub proof fn law_reasoning_is_parsed(
    state: ChoiceJailStateView,
    choice: ChatChoiceStreamView,
    jail: JailedStreamView,
    facts: ParserFactsView,
    reasoning: Seq<char>,
)
    requires
        state.is_jailed,
        state.emitted_tool_calls_count == 0,
        state.emitted_required_tool_call_keys.len() == 0,
        state.accumulated_content.len() == 0,
        state.held_reasoning(jail) == Some(reasoning),
        choice.finish_reason is Some || choice_complete(jail.jail_mode->format, reasoning),
        forced_chunks(jail, jail.jail_mode->format, reasoning, facts) matches Ok(found)
            && forced_kept(jail, jail.jail_mode->format, found.chunks).len() > 0,
    ensures
        reasoning_processed(state, choice, jail, facts) matches Ok(done) && {
            let found = forced_chunks(jail, jail.jail_mode->format, reasoning, facts)->Ok_0;
            let kept = renumbered(forced_kept(jail, jail.jail_mode->format, found.chunks), 0);
            let made = done.emissions[0].choice();
            &&& done.emissions.len() == 1
            &&& done.emissions[0] is ToolCall
            &&& made.delta.tool_calls is Some
            &&& !jail.guards_duplicates() ==> made.delta.tool_calls == Some(kept)
            &&& made.delta.reasoning_content == (if is_blank(found.lead) {
                None
            } else {
                Some(found.lead)
            })
            &&& !done.state.holds_back(jail)
        },
{
    let found = forced_chunks(jail, jail.jail_mode->format, reasoning, facts)->Ok_0;
    let kept = renumbered(forced_kept(jail, jail.jail_mode->format, found.chunks), 0);
    assert(state.emitted_required_tool_call_keys =~= Seq::empty());
    lemma_first_call_kept(kept);
}

/// Reasoning of a forced tool choice that holds no call stays reasoning: it leaves whole,
/// without content, when the choice or the stream ends.
pub proof fn law_reasoning_comes_back(
    state: ChoiceJailStateView,
    jail: JailedStreamView,
    facts: ParserFactsView,
    reasoning: Seq<char>,
)
    requires
        state.is_jailed,
        !state.terminate_after_tool_call,
        state.accumulated_content.len() == 0,
        state.held_reasoning(jail) == Some(reasoning),
        reasoning_call(state, jail, reasoning, true, facts) == Ok::<
            Option<ChatChoiceStreamView>,
            ParserQueryView,
        >(None),
    ensures
        finalized(state, jail, facts) matches Ok((last, Some(emission))) && {
            &&& emission.choice().delta.reasoning_content == Some(reasoning)
            &&& emission.choice().delta.content is None
            &&& emission.choice().delta.tool_calls is None
            &&& emission.choice().finish_reason == state.stream_finish_reason
            &&& emission.choice().logprobs == state.accumulated_logprobs
            &&& !last.holds_back(jail)
        },
{
}

/// No choice that ends is forgotten.
proof fn lemma_ending_grows(emissions: Seq<ChoiceEmissionView>, indices: Seq<u32>)
    ensures
        indices.len() <= ending(emissions, indices).len(),
    decreases emissions.len(),
{
    if emissions.len() > 0 {
        lemma_ending_grows(emissions.subrange(0, emissions.len() - 1), indices);
    }
}

/// A choice that is told to end, because a call came too often, ends the stream; where the
/// usage is waited for, only the usage still passes.
pub proof fn law_a_choice_that_must_end_ends_the_stream(
    run: JailRunView,
    response: AnnotatedView,
    jail: JailedStreamView,
    facts: Seq<ParserFactsView>,
)
    requires
        response.data matches Some(data) && run.step_for(data) == ResponseStep::Choices && (
        choices_processed(
            run.begun(data),
            data.inner.choices,
            data.inner.choices.len() as int,
            response,
            jail,
            facts,
        ) matches Ok(after) && after.forced_terminal_indices.len() > 0),
    ensures
        response_processed(run, response, jail, facts) matches Ok(passed)
            && if jail.defer_terminal_until_usage {
            passed.run.waiting_for_usage_after_terminal
        } else {
            passed.over
        },
{
    let data = response.data->0;
    let after = choices_processed(
        run.begun(data),
        data.inner.choices,
        data.inner.choices.len() as int,
        response,
        jail,
        facts,
    )->Ok_0;
    lemma_ending_grows(after.all_emissions, after.forced_terminal_indices);
}

} // verus!
