//! What holds of every aggregated stream.

use crate::aggregator::{
    ascending, calls_by_name, choice_added, choice_completed, choice_grown, choice_indices,
    choices_added, choices_completed, chunk_added, chunk_finalized, chunk_indices, chunks_added,
    chunks_merged, index_position, lemma_index_position, lemma_insert_ascending, new_choice,
    DeltaAggregatorView, DeltaChoiceView, ParsingOptionsView,
};
use crate::chat_types::{
    AnnotatedView, ChatChoiceStreamView, ChatCompletionMessageContentView,
    ChatCompletionMessageToolCallChunkView, FinishReason, ToolCallResponseView,
};
use crate::parser_facts::ParserFactsView;
use vstd::prelude::*;

verus! {

/// The merged chunk of an index.
pub open spec fn chunk_at(
    chunks: Seq<ChatCompletionMessageToolCallChunkView>,
    index: u32,
) -> Option<ChatCompletionMessageToolCallChunkView> {
    let p = index_position(chunk_indices(chunks), index);
    if p < chunks.len() && chunks[p].index == index {
        Some(chunks[p])
    } else {
        None
    }
}

/// The choice of an index.
pub open spec fn choice_at(choices: Seq<DeltaChoiceView>, index: u32) -> Option<DeltaChoiceView> {
    let p = index_position(choice_indices(choices), index);
    if p < choices.len() && choices[p].index == index {
        Some(choices[p])
    } else {
        None
    }
}

pub(crate) proof fn lemma_chunk_at(chunks: Seq<ChatCompletionMessageToolCallChunkView>, i: int)
    requires
        ascending(chunk_indices(chunks)),
        0 <= i < chunks.len(),
    ensures
        chunk_at(chunks, chunks[i].index) == Some(chunks[i]),
{
    let indices = chunk_indices(chunks);
    let p = index_position(indices, chunks[i].index);
    lemma_index_position(indices, chunks[i].index);
    assert(indices[i] == chunks[i].index);
    if p < i {
        assert(indices[p] < indices[i]);
    }
}

pub(crate) proof fn lemma_no_chunk_at(chunks: Seq<ChatCompletionMessageToolCallChunkView>, index: u32)
    requires
        forall|i: int| 0 <= i < chunks.len() ==> (#[trigger] chunks[i]).index != index,
    ensures
        chunk_at(chunks, index) is None,
{
    lemma_index_position_bounds(chunk_indices(chunks), index);
}

pub(crate) proof fn lemma_choice_at(choices: Seq<DeltaChoiceView>, i: int)
    requires
        ascending(choice_indices(choices)),
        0 <= i < choices.len(),
    ensures
        choice_at(choices, choices[i].index) == Some(choices[i]),
{
    let indices = choice_indices(choices);
    let p = index_position(indices, choices[i].index);
    lemma_index_position(indices, choices[i].index);
    assert(indices[i] == choices[i].index);
    if p < i {
        assert(indices[p] < indices[i]);
    }
}

pub(crate) proof fn lemma_no_choice_at(choices: Seq<DeltaChoiceView>, index: u32)
    requires
        forall|i: int| 0 <= i < choices.len() ==> (#[trigger] choices[i]).index != index,
    ensures
        choice_at(choices, index) is None,
{
    lemma_index_position_bounds(choice_indices(choices), index);
}

proof fn lemma_index_position_bounds(indices: Seq<u32>, index: u32)
    ensures
        0 <= index_position(indices, index) <= indices.len(),
    decreases indices.len(),
{
    if indices.len() > 0 && !(indices[indices.len() - 1] < index) {
        lemma_index_position_bounds(indices.subrange(0, indices.len() - 1), index);
    }
}

/// The merged chunks stay in their order, each chunk lands under its index, and the
/// others stay.
pub(crate) proof fn lemma_chunk_added(
    chunks: Seq<ChatCompletionMessageToolCallChunkView>,
    incoming: ChatCompletionMessageToolCallChunkView,
    index: u32,
)
    requires
        ascending(chunk_indices(chunks)),
    ensures
        ascending(chunk_indices(chunk_added(chunks, incoming))),
        index != incoming.index ==> chunk_at(chunk_added(chunks, incoming), index) == chunk_at(
            chunks,
            index,
        ),
        chunk_at(chunk_added(chunks, incoming), incoming.index) == Some(
            match chunk_at(chunks, incoming.index) {
                Some(existing) => chunks_merged(existing, incoming),
                None => chunks_merged(crate::aggregator::blank_chunk(incoming.index), incoming),
            },
        ),
{
    let indices = chunk_indices(chunks);
    let p = index_position(indices, incoming.index);
    let after = chunk_added(chunks, incoming);
    lemma_index_position(indices, incoming.index);
    if p < chunks.len() && chunks[p].index == incoming.index {
        assert(chunk_indices(after) =~= indices);
        lemma_chunk_at(after, p);
        if index != incoming.index {
            if exists|i: int| 0 <= i < chunks.len() && (#[trigger] chunks[i]).index == index {
                let i = choose|i: int|
                    0 <= i < chunks.len() && (#[trigger] chunks[i]).index == index;
                lemma_chunk_at(chunks, i);
                assert(after[i] == chunks[i]);
                lemma_chunk_at(after, i);
            } else {
                lemma_no_chunk_at(chunks, index);
                assert forall|i: int| 0 <= i < after.len() implies (#[trigger] after[i]).index
                    != index by {
                    if i != p {
                        assert(after[i] == chunks[i]);
                    }
                }
                lemma_no_chunk_at(after, index);
            }
        }
    } else {
        lemma_insert_ascending(indices, incoming.index);
        assert(chunk_indices(after) =~= indices.insert(p, incoming.index));
        lemma_chunk_at(after, p);
        if index != incoming.index {
            if exists|i: int| 0 <= i < chunks.len() && (#[trigger] chunks[i]).index == index {
                let i = choose|i: int|
                    0 <= i < chunks.len() && (#[trigger] chunks[i]).index == index;
                lemma_chunk_at(chunks, i);
                let k = if i < p {
                    i
                } else {
                    i + 1
                };
                assert(after[k] == chunks[i]);
                lemma_chunk_at(after, k);
            } else {
                lemma_no_chunk_at(chunks, index);
                assert forall|i: int| 0 <= i < after.len() implies (#[trigger] after[i]).index
                    != index by {
                    if i < p {
                        assert(after[i] == chunks[i]);
                    } else if i > p {
                        assert(after[i] == chunks[i - 1]);
                    }
                }
                lemma_no_chunk_at(after, index);
            }
        }
    }
}

/// The choices stay in their order, each delta lands under its index, and the others
/// stay.
pub(crate) proof fn lemma_choice_added(
    choices: Seq<DeltaChoiceView>,
    incoming: ChatChoiceStreamView,
    index: u32,
)
    requires
        ascending(choice_indices(choices)),
    ensures
        ascending(choice_indices(choice_added(choices, incoming))),
        index != incoming.index ==> choice_at(choice_added(choices, incoming), index) == choice_at(
            choices,
            index,
        ),
        choice_at(choice_added(choices, incoming), incoming.index) == Some(
            match choice_at(choices, incoming.index) {
                Some(existing) => choice_grown(existing, incoming),
                None => choice_grown(new_choice(incoming.index, incoming.delta.role), incoming),
            },
        ),
{
    let indices = choice_indices(choices);
    let p = index_position(indices, incoming.index);
    let after = choice_added(choices, incoming);
    lemma_index_position(indices, incoming.index);
    if p < choices.len() && choices[p].index == incoming.index {
        assert(choice_indices(after) =~= indices);
        lemma_choice_at(after, p);
        if index != incoming.index {
            if exists|i: int| 0 <= i < choices.len() && (#[trigger] choices[i]).index == index {
                let i = choose|i: int|
                    0 <= i < choices.len() && (#[trigger] choices[i]).index == index;
                lemma_choice_at(choices, i);
                assert(after[i] == choices[i]);
                lemma_choice_at(after, i);
            } else {
                lemma_no_choice_at(choices, index);
                assert forall|i: int| 0 <= i < after.len() implies (#[trigger] after[i]).index
                    != index by {
                    if i != p {
                        assert(after[i] == choices[i]);
                    }
                }
                lemma_no_choice_at(after, index);
            }
        }
    } else {
        lemma_insert_ascending(indices, incoming.index);
        assert(choice_indices(after) =~= indices.insert(p, incoming.index));
        lemma_choice_at(after, p);
        if index != incoming.index {
            if exists|i: int| 0 <= i < choices.len() && (#[trigger] choices[i]).index == index {
                let i = choose|i: int|
                    0 <= i < choices.len() && (#[trigger] choices[i]).index == index;
                lemma_choice_at(choices, i);
                let k = if i < p {
                    i
                } else {
                    i + 1
                };
                assert(after[k] == choices[i]);
                lemma_choice_at(after, k);
            } else {
                lemma_no_choice_at(choices, index);
                assert forall|i: int| 0 <= i < after.len() implies (#[trigger] after[i]).index
                    != index by {
                    if i < p {
                        assert(after[i] == choices[i]);
                    } else if i > p {
                        assert(after[i] == choices[i - 1]);
                    }
                }
                lemma_no_choice_at(after, index);
            }
        }
    }
}

/// The arguments of a chunk, empty where it has none.
pub open spec fn arguments_of(chunk: Option<ChatCompletionMessageToolCallChunkView>) -> Seq<char> {
    match chunk {
        Some(chunk) => match chunk.function {
            Some(function) => match function.arguments {
                Some(arguments) => arguments,
                None => Seq::empty(),
            },
            None => Seq::empty(),
        },
        None => Seq::empty(),
    }
}

/// The arguments that chunks bring for the tool call of an index, one after the other.
pub open spec fn fragments(
    incoming: Seq<ChatCompletionMessageToolCallChunkView>,
    index: u32,
) -> Seq<char>
    decreases incoming.len(),
{
    if incoming.len() == 0 {
        Seq::empty()
    } else {
        let n = incoming.len() - 1;
        fragments(incoming.subrange(0, n), index) + if incoming[n].index == index {
            arguments_of(Some(incoming[n]))
        } else {
            Seq::empty()
        }
    }
}

/// Fragments of arguments are put together in the order in which they come, whichever
/// fragments of other tool calls come between them.
pub proof fn law_arguments_are_put_together(
    chunks: Seq<ChatCompletionMessageToolCallChunkView>,
    incoming: Seq<ChatCompletionMessageToolCallChunkView>,
    index: u32,
)
    requires
        ascending(chunk_indices(chunks)),
    ensures
        ascending(chunk_indices(chunks_added(chunks, incoming))),
        arguments_of(chunk_at(chunks_added(chunks, incoming), index)) == arguments_of(
            chunk_at(chunks, index),
        ) + fragments(incoming, index),
    decreases incoming.len(),
{
    if incoming.len() > 0 {
        let n = incoming.len() - 1;
        let front = incoming.subrange(0, n);
        let before = chunks_added(chunks, front);
        law_arguments_are_put_together(chunks, front, index);
        lemma_chunk_added(before, incoming[n], index);
        assert(arguments_of(chunk_at(chunks_added(chunks, incoming), index)) =~= arguments_of(
            chunk_at(before, index),
        ) + if incoming[n].index == index {
            arguments_of(Some(incoming[n]))
        } else {
            Seq::empty()
        });
        assert(arguments_of(chunk_at(chunks_added(chunks, incoming), index)) =~= arguments_of(
            chunk_at(chunks, index),
        ) + fragments(incoming, index));
    } else {
        assert(arguments_of(chunk_at(chunks, index)) =~= arguments_of(chunk_at(chunks, index))
            + fragments(incoming, index));
    }
}

/// The text that a delta brings.
pub open spec fn text_piece(choice: ChatChoiceStreamView) -> Seq<char> {
    match choice.delta.content {
        Some(ChatCompletionMessageContentView::Text(text)) => text,
        _ => Seq::empty(),
    }
}

/// The text that deltas bring for the choice of an index, one after the other.
pub open spec fn text_pieces(incoming: Seq<ChatChoiceStreamView>, index: u32) -> Seq<char>
    decreases incoming.len(),
{
    if incoming.len() == 0 {
        Seq::empty()
    } else {
        let n = incoming.len() - 1;
        text_pieces(incoming.subrange(0, n), index) + if incoming[n].index == index {
            text_piece(incoming[n])
        } else {
            Seq::empty()
        }
    }
}

/// The arguments that deltas bring for a tool call of a choice, one after the other.
pub open spec fn argument_pieces(
    incoming: Seq<ChatChoiceStreamView>,
    index: u32,
    call: u32,
) -> Seq<char>
    decreases incoming.len(),
{
    if incoming.len() == 0 {
        Seq::empty()
    } else {
        let n = incoming.len() - 1;
        argument_pieces(incoming.subrange(0, n), index, call) + if incoming[n].index == index
            && incoming[n].delta.tool_calls is Some {
            fragments(incoming[n].delta.tool_calls->0, call)
        } else {
            Seq::empty()
        }
    }
}

/// The text of a choice.
pub open spec fn text_of_choice(choice: Option<DeltaChoiceView>) -> Seq<char> {
    match choice {
        Some(choice) => choice.text,
        None => Seq::empty(),
    }
}

/// The arguments of a tool call of a choice.
pub open spec fn arguments_of_choice(choice: Option<DeltaChoiceView>, call: u32) -> Seq<char> {
    match choice {
        Some(choice) => arguments_of(chunk_at(choice.tool_call_chunks, call)),
        None => Seq::empty(),
    }
}

/// The merged chunks of all choices are in the order of their index.
pub open spec fn calls_in_order(choices: Seq<DeltaChoiceView>) -> bool {
    forall|i: int|
        0 <= i < choices.len() ==> ascending(
            chunk_indices((#[trigger] choices[i]).tool_call_chunks),
        )
}

proof fn lemma_choice_in_order(choices: Seq<DeltaChoiceView>, index: u32)
    requires
        calls_in_order(choices),
    ensures
        choice_at(choices, index) matches Some(choice) ==> ascending(
            chunk_indices(choice.tool_call_chunks),
        ),
{
    lemma_index_position_bounds(choice_indices(choices), index);
}

/// A delta keeps the tool calls of its choice in order and adds its pieces.
proof fn lemma_choice_grown(state: DeltaChoiceView, incoming: ChatChoiceStreamView, call: u32)
    requires
        ascending(chunk_indices(state.tool_call_chunks)),
    ensures
        ascending(chunk_indices(choice_grown(state, incoming).tool_call_chunks)),
        choice_grown(state, incoming).text == state.text + text_piece(incoming),
        arguments_of_choice(Some(choice_grown(state, incoming)), call) == arguments_of_choice(
            Some(state),
            call,
        ) + if incoming.delta.tool_calls is Some {
            fragments(incoming.delta.tool_calls->0, call)
        } else {
            Seq::empty()
        },
{
    assert(state.text =~= state.text + Seq::<char>::empty());
    match incoming.delta.tool_calls {
        Some(more) => {
            law_arguments_are_put_together(state.tool_call_chunks, more, call);
        },
        None => {
            let had = arguments_of_choice(Some(state), call);
            assert(had =~= had + Seq::<char>::empty());
        },
    }
}

/// Text and arguments of a choice are put together in the order in which they come,
/// whichever deltas of other choices come between them.
pub proof fn law_deltas_are_put_together(
    choices: Seq<DeltaChoiceView>,
    incoming: Seq<ChatChoiceStreamView>,
    index: u32,
    call: u32,
)
    requires
        ascending(choice_indices(choices)),
        calls_in_order(choices),
    ensures
        ascending(choice_indices(choices_added(choices, incoming))),
        calls_in_order(choices_added(choices, incoming)),
        text_of_choice(choice_at(choices_added(choices, incoming), index)) == text_of_choice(
            choice_at(choices, index),
        ) + text_pieces(incoming, index),
        arguments_of_choice(choice_at(choices_added(choices, incoming), index), call)
            == arguments_of_choice(choice_at(choices, index), call) + argument_pieces(
            incoming,
            index,
            call,
        ),
    decreases incoming.len(),
{
    let text = text_of_choice(choice_at(choices, index));
    let arguments = arguments_of_choice(choice_at(choices, index), call);
    if incoming.len() > 0 {
        let n = incoming.len() - 1;
        let front = incoming.subrange(0, n);
        let before = choices_added(choices, front);
        let after = choices_added(choices, incoming);
        law_deltas_are_put_together(choices, front, index, call);
        lemma_choice_added(before, incoming[n], index);
        lemma_choice_in_order(before, incoming[n].index);
        let state = match choice_at(before, incoming[n].index) {
            Some(existing) => existing,
            None => new_choice(incoming[n].index, incoming[n].delta.role),
        };
        lemma_choice_grown(state, incoming[n], call);
        lemma_calls_stay_in_order(before, incoming[n]);
        let text_before = text_of_choice(choice_at(before, index));
        let arguments_before = arguments_of_choice(choice_at(before, index), call);
        assert(text_of_choice(choice_at(after, index)) =~= text + text_pieces(incoming, index)) by {
            assert(text_before == text + text_pieces(front, index));
            if incoming[n].index == index {
                assert(text_of_choice(choice_at(after, index)) == state.text + text_piece(
                    incoming[n],
                ));
            }
        }
        if incoming[n].index == index {
            assert(arguments_of_choice(Some(state), call) =~= arguments_before) by {
                if choice_at(before, index) is None {
                    lemma_no_chunk_at(state.tool_call_chunks, call);
                }
            }
        }
        assert(arguments_of_choice(choice_at(after, index), call) =~= arguments + argument_pieces(
            incoming,
            index,
            call,
        ));
    } else {
        assert(text =~= text + text_pieces(incoming, index));
        assert(arguments =~= arguments + argument_pieces(incoming, index, call));
    }
}

proof fn lemma_calls_stay_in_order(choices: Seq<DeltaChoiceView>, incoming: ChatChoiceStreamView)
    requires
        ascending(choice_indices(choices)),
        calls_in_order(choices),
    ensures
        calls_in_order(choice_added(choices, incoming)),
{
    let p = index_position(choice_indices(choices), incoming.index);
    let after = choice_added(choices, incoming);
    lemma_index_position(choice_indices(choices), incoming.index);
    if p < choices.len() && choices[p].index == incoming.index {
        lemma_choice_grown(choices[p], incoming, 0);
        assert forall|i: int| 0 <= i < after.len() implies ascending(
            chunk_indices((#[trigger] after[i]).tool_call_chunks),
        ) by {
            if i != p {
                assert(after[i] == choices[i]);
            }
        }
    } else {
        let fresh = new_choice(incoming.index, incoming.delta.role);
        assert(chunk_indices(fresh.tool_call_chunks) =~= Seq::empty());
        lemma_choice_grown(fresh, incoming, 0);
        assert forall|i: int| 0 <= i < after.len() implies ascending(
            chunk_indices((#[trigger] after[i]).tool_call_chunks),
        ) by {
            if i < p {
                assert(after[i] == choices[i]);
            } else if i > p {
                assert(after[i] == choices[i - 1]);
            }
        }
    }
}

/// The aggregate of the first `n` chunks of a stream.
pub open spec fn aggregated(chunks: Seq<AnnotatedView>, n: nat) -> DeltaAggregatorView
    decreases n,
{
    if n == 0 {
        DeltaAggregatorView::initial()
    } else {
        aggregated(chunks, (n - 1) as nat).after(chunks[n - 1])
    }
}

/// The text that the first `n` chunks bring for a choice.
pub open spec fn stream_text(chunks: Seq<AnnotatedView>, n: nat, index: u32) -> Seq<char>
    decreases n,
{
    if n == 0 {
        Seq::empty()
    } else {
        stream_text(chunks, (n - 1) as nat, index) + match chunks[n - 1].data {
            Some(data) => text_pieces(data.inner.choices, index),
            None => Seq::empty(),
        }
    }
}

/// The arguments that the first `n` chunks bring for a tool call of a choice.
pub open spec fn stream_arguments(
    chunks: Seq<AnnotatedView>,
    n: nat,
    index: u32,
    call: u32,
) -> Seq<char>
    decreases n,
{
    if n == 0 {
        Seq::empty()
    } else {
        stream_arguments(chunks, (n - 1) as nat, index, call) + match chunks[n - 1].data {
            Some(data) => argument_pieces(data.inner.choices, index, call),
            None => Seq::empty(),
        }
    }
}

/// No chunk of the stream is an error.
pub open spec fn without_errors(chunks: Seq<AnnotatedView>) -> bool {
    forall|i: int| 0 <= i < chunks.len() ==> (#[trigger] chunks[i]).event != Some("error"@)
}

/// Nothing of a stream without errors is lost: the text of a choice is all text that came
/// for it, and the arguments of a tool call are all fragments that came for it.
pub proof fn law_streams_are_put_together(
    chunks: Seq<AnnotatedView>,
    n: nat,
    index: u32,
    call: u32,
)
    requires
        without_errors(chunks),
        n <= chunks.len(),
    ensures
        aggregated(chunks, n).wf(),
        aggregated(chunks, n).error is None,
        text_of_choice(choice_at(aggregated(chunks, n).choices, index)) == stream_text(
            chunks,
            n,
            index,
        ),
        arguments_of_choice(choice_at(aggregated(chunks, n).choices, index), call)
            == stream_arguments(chunks, n, index, call),
    decreases n,
{
    if n > 0 {
        law_streams_are_put_together(chunks, (n - 1) as nat, index, call);
        let before = aggregated(chunks, (n - 1) as nat);
        assert(chunks[n - 1].event != Some("error"@));
        match chunks[n - 1].data {
            Some(data) => {
                law_deltas_are_put_together(before.choices, data.inner.choices, index, call);
            },
            None => {
                let text = stream_text(chunks, (n - 1) as nat, index);
                let arguments = stream_arguments(chunks, (n - 1) as nat, index, call);
                assert(text =~= text + Seq::<char>::empty());
                assert(arguments =~= arguments + Seq::<char>::empty());
            },
        }
    } else {
        let choices = DeltaAggregatorView::initial().choices;
        assert(choice_indices(choices) =~= Seq::empty());
        lemma_no_choice_at(choices, index);
    }
}

/// An error stays: nothing that comes after it is taken in but another error.
pub proof fn law_errors_stay(agg: DeltaAggregatorView, delta: AnnotatedView)
    requires
        agg.error is Some,
    ensures
        agg.after(delta).error is Some,
        agg.after(delta).choices == agg.choices,
        delta.event != Some("error"@) ==> agg.after(delta) == agg,
{
}

/// A choice with tool calls ends with them, whatever finish reason came.
pub proof fn law_calls_end_a_choice(choice: DeltaChoiceView)
    requires
        choice.calls(),
    ensures
        choice_completed(choice).finish_reason == Some(FinishReason::ToolCalls),
        choice_completed(choice).message.tool_calls == choice.tool_calls,
{
}

/// A choice without tool calls keeps its finish reason.
pub proof fn law_other_choices_keep_their_end(choice: DeltaChoiceView)
    requires
        !choice.calls(),
    ensures
        choice_completed(choice).finish_reason == choice.finish_reason,
{
}

/// A tool call that never got an identifier or a name is dropped.
pub proof fn law_calls_need_an_opener(chunk: ChatCompletionMessageToolCallChunkView)
    ensures
        chunk_finalized(chunk) is Some <==> chunk.id is Some && chunk.function is Some
            && chunk.function->0.name is Some,
        chunk_finalized(chunk) matches Some(call) ==> call.function.arguments == arguments_of(
            Some(chunk),
        ),
{
}

/// Calls by name are calls of the named tools.
pub proof fn law_only_named_tools_are_called(
    parsed: Seq<ToolCallResponseView>,
    names: Seq<Seq<char>>,
    i: int,
)
    requires
        0 <= i < calls_by_name(parsed, names).len(),
    ensures
        names.contains(calls_by_name(parsed, names)[i].function.name),
    decreases parsed.len(),
{
    let n = parsed.len() - 1;
    let front = calls_by_name(parsed.subrange(0, n), names);
    if i < front.len() {
        law_only_named_tools_are_called(parsed.subrange(0, n), names, i);
    }
}

/// The choices of a complete response are those of the stream, in the order of their
/// index.
pub proof fn law_choices_come_in_order(
    choices: Seq<DeltaChoiceView>,
    options: ParsingOptionsView,
    facts: ParserFactsView,
)
    requires
        choices_completed(choices, options, facts) is Ok,
    ensures
        choices_completed(choices, options, facts)->Ok_0.len() == choices.len(),
        forall|i: int|
            0 <= i < choices.len() ==> (#[trigger] choices_completed(
                choices,
                options,
                facts,
            )->Ok_0[i]).index == choices[i].index,
    decreases choices.len(),
{
    if choices.len() > 0 {
        let n = choices.len() - 1;
        let front = choices.subrange(0, n);
        law_choices_come_in_order(front, options, facts);
        let all = choices_completed(choices, options, facts)->Ok_0;
        let before = choices_completed(front, options, facts)->Ok_0;
        assert forall|i: int| 0 <= i < choices.len() implies (#[trigger] all[i]).index
            == choices[i].index by {
            if i < n {
                assert(all[i] == before[i]);
                assert(front[i] == choices[i]);
            }
        }
    }
}

} // verus!
