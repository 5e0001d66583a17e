//! What a complete response holds of its stream.

use crate::aggregate_laws::{
    aggregated, choice_at, chunk_at, law_streams_are_put_together, lemma_choice_at, lemma_chunk_at,
    without_errors,
};
use crate::aggregate_whole::{
    all_given, arguments, deltas_for, ends, first_given, fragments_for, ids, items_given,
    last_given, law_calls_are_all_that_came, law_choices_are_all_that_came, names, parts,
    probabilities, roles, texts, thoughts,
};
use crate::aggregator::{
    ascending, choice_called, choice_completed, choice_indices, choice_settled, choices_completed,
    chunk_finalized, chunk_indices, chunks_finalized, index_position, lemma_index_position,
    without_leading_breaks, DeltaChoiceView, ParsingOptionsView,
};
use crate::chat_types::{
    AnnotatedView, ChatChoiceStreamView, ChatCompletionMessageContentView,
    ChatCompletionMessageToolCallChunkView, ChatCompletionMessageToolCallView, FinishReason,
};
use crate::parser_facts::{answer_about, ParserFactsView};
use crate::text::{lemma_rfind_text, occurs_at, rfind_text};
use vstd::prelude::*;

verus! {

/// A tool call of which an identifier and a name came.
pub open spec fn is_complete(deltas: Seq<ChatChoiceStreamView>, call: u32) -> bool {
    first_given(ids(fragments_for(deltas, call))) is Some && first_given(
        names(fragments_for(deltas, call)),
    ) is Some
}

/// `made` is the tool call at `call`: with the identifier and the name that came first, and
/// with all arguments that came.
pub open spec fn is_call_of(
    made: ChatCompletionMessageToolCallView,
    deltas: Seq<ChatChoiceStreamView>,
    call: u32,
) -> bool {
    &&& is_complete(deltas, call)
    &&& Some(made.id) == first_given(ids(fragments_for(deltas, call)))
    &&& Some(made.function.name) == first_given(names(fragments_for(deltas, call)))
    &&& made.function.arguments == items_given(arguments(fragments_for(deltas, call)))
}

/// The text with no end of reasoning in it.
pub open spec fn holds_no_end_of_reasoning(text: Seq<char>) -> bool {
    forall|i: int| !#[trigger] occurs_at(text, "</think>"@, i)
}

/// Nothing but line breaks.
pub open spec fn only_breaks(text: Seq<char>) -> bool {
    forall|i: int| 0 <= i < text.len() ==> #[trigger] text[i] == '\n' || text[i] == '\r'
}

/// No text needs a repair.
pub open spec fn nothing_to_repair(facts: ParserFactsView) -> bool {
    forall|text: Seq<char>| #[trigger]
        answer_about(facts.repairs, text) matches Some(repaired) ==> repaired is None
}

pub(crate) proof fn lemma_completed_at(
    choices: Seq<DeltaChoiceView>,
    options: ParsingOptionsView,
    facts: ParserFactsView,
    i: int,
)
    requires
        choices_completed(choices, options, facts) is Ok,
        0 <= i < choices.len(),
    ensures
        choices_completed(choices, options, facts)->Ok_0.len() == choices.len(),
        choice_settled(choices[i], options, facts) is Ok,
        choices_completed(choices, options, facts)->Ok_0[i] == choice_completed(
            choice_settled(choices[i], options, facts)->Ok_0,
        ),
    decreases choices.len(),
{
    let n = choices.len() - 1;
    let front = choices.subrange(0, n);
    if n > 0 {
        lemma_completed_at(
            front,
            options,
            facts,
            if i < n {
                i
            } else {
                0
            },
        );
    } else {
        assert(choices_completed(front, options, facts)->Ok_0.len() == 0);
    }
    if i < n {
        assert(front[i] == choices[i]);
    }
}

/// The indices of the chunks that become tool calls.
spec fn complete_indices(chunks: Seq<ChatCompletionMessageToolCallChunkView>) -> Seq<u32>
    decreases chunks.len(),
{
    if chunks.len() == 0 {
        Seq::empty()
    } else if chunk_finalized(chunks.last()) is Some {
        complete_indices(chunks.drop_last()).push(chunks.last().index)
    } else {
        complete_indices(chunks.drop_last())
    }
}

proof fn lemma_complete_indices(chunks: Seq<ChatCompletionMessageToolCallChunkView>)
    requires
        ascending(chunk_indices(chunks)),
    ensures
        ascending(complete_indices(chunks)),
        complete_indices(chunks).len() == chunks_finalized(chunks).len(),
        forall|k: int|
            0 <= k < complete_indices(chunks).len() ==> exists|i: int|
                0 <= i < chunks.len() && (#[trigger] chunks[i]).index == #[trigger] complete_indices(
                    chunks,
                )[k] && chunk_finalized(chunks[i]) == Some(chunks_finalized(chunks)[k]),
        forall|i: int|
            0 <= i < chunks.len() && chunk_finalized(#[trigger] chunks[i]) is Some
                ==> complete_indices(chunks).contains(chunks[i].index),
    decreases chunks.len(),
{
    if chunks.len() > 0 {
        let front = chunks.drop_last();
        let n = chunks.len() - 1;
        assert(chunks.subrange(0, n) =~= front);
        assert(forall|i: int| 0 <= i < n ==> #[trigger] front[i] == chunks[i]);
        assert forall|i: int, j: int| 0 <= i < j < front.len() implies (#[trigger] chunk_indices(
            front,
        )[i]) < (#[trigger] chunk_indices(front)[j]) by {
            assert(chunk_indices(chunks)[i] < chunk_indices(chunks)[j]);
        }
        lemma_complete_indices(front);
        let before = complete_indices(front);
        let all = complete_indices(chunks);
        assert forall|k: int| 0 <= k < all.len() implies exists|i: int|
            0 <= i < chunks.len() && (#[trigger] chunks[i]).index == #[trigger] all[k]
                && chunk_finalized(chunks[i]) == Some(chunks_finalized(chunks)[k]) by {
            if k < before.len() {
                let i = choose|i: int|
                    0 <= i < front.len() && (#[trigger] front[i]).index == before[k]
                        && chunk_finalized(front[i]) == Some(chunks_finalized(front)[k]);
                assert(chunks[i].index == all[k]);
            } else {
                assert(chunks[n].index == all[k]);
            }
        }
        assert forall|i: int, j: int| 0 <= i < j < all.len() implies (#[trigger] all[i]) < (
        #[trigger] all[j]) by {
            if j < before.len() {
                assert(before[i] < before[j]);
            } else {
                let k = choose|k: int|
                    0 <= k < front.len() && (#[trigger] front[k]).index == before[i]
                        && chunk_finalized(front[k]) == Some(chunks_finalized(front)[i]);
                assert(chunk_indices(chunks)[k] < chunk_indices(chunks)[n]);
            }
        }
        assert forall|i: int|
            0 <= i < chunks.len() && chunk_finalized(#[trigger] chunks[i])
                is Some implies all.contains(chunks[i].index) by {
            if i < n {
                assert(before.contains(front[i].index));
                let k = before.index_of(front[i].index);
                assert(all[k] == chunks[i].index);
            } else {
                assert(all[all.len() - 1] == chunks[n].index);
            }
        }
    }
}

/// The tool calls of a complete response are those of which an identifier and a name came,
/// in the order of their index, each with all arguments that came for it. Where there are
/// such calls the choice ends with them.
pub proof fn law_complete_calls_are_made(
    chunks: Seq<AnnotatedView>,
    n: nat,
    options: ParsingOptionsView,
    facts: ParserFactsView,
    i: int,
    call: u32,
)
    requires
        without_errors(chunks),
        n <= chunks.len(),
        choices_completed(aggregated(chunks, n).choices, options, facts) is Ok,
        0 <= i < aggregated(chunks, n).choices.len(),
        is_complete(deltas_for(chunks, n, aggregated(chunks, n).choices[i].index), call),
    ensures
        ({
            let index = aggregated(chunks, n).choices[i].index;
            let deltas = deltas_for(chunks, n, index);
            let made = choices_completed(aggregated(chunks, n).choices, options, facts)->Ok_0[i];
            &&& made.index == index
            &&& made.finish_reason == Some(FinishReason::ToolCalls)
            &&& made.message.tool_calls matches Some(calls) && exists|indices: Seq<u32>|
                {
                    &&& #[trigger] ascending(indices)
                    &&& indices.len() == calls.len()
                    &&& indices.contains(call)
                    &&& forall|k: int|
                        0 <= k < calls.len() ==> is_call_of(
                            #[trigger] calls[k],
                            deltas,
                            indices[k],
                        )
                }
        }),
{
    let choices = aggregated(chunks, n).choices;
    let choice = choices[i];
    let deltas = deltas_for(chunks, n, choice.index);
    law_streams_are_put_together(chunks, n, choice.index, call);
    lemma_choice_at(choices, i);
    lemma_completed_at(choices, options, facts, i);
    law_calls_are_all_that_came(chunks, n, choice.index, call);
    lemma_some_fragment(ids(fragments_for(deltas, call)));
    let pieces = choice.tool_call_chunks;
    assert(ascending(chunk_indices(pieces)));
    lemma_complete_indices(pieces);
    let indices = complete_indices(pieces);
    let calls = chunks_finalized(pieces);
    let p = index_position(chunk_indices(pieces), call);
    lemma_index_position(chunk_indices(pieces), call);
    assert(chunk_at(pieces, call) == Some(pieces[p]));
    assert(chunk_finalized(pieces[p]) is Some);
    assert(indices.contains(call));
    assert(calls.len() > 0) by {
        let k = indices.index_of(call);
        assert(indices[k] == call);
    }
    assert(choice_called(choice).tool_calls == Some(calls));
    assert forall|k: int| 0 <= k < calls.len() implies is_call_of(
        #[trigger] calls[k],
        deltas,
        indices[k],
    ) by {
        let q = choose|q: int|
            0 <= q < pieces.len() && (#[trigger] pieces[q]).index == indices[k] && chunk_finalized(
                pieces[q],
            ) == Some(calls[k]);
        lemma_chunk_at(pieces, q);
        law_calls_are_all_that_came(chunks, n, choice.index, indices[k]);
    }
}

/// Something that is given was given by someone.
proof fn lemma_some_fragment<A>(items: Seq<Option<A>>)
    ensures
        first_given(items) is Some ==> items.len() > 0,
{
}

pub(crate) proof fn lemma_leading_breaks(text: Seq<char>) -> (breaks: Seq<char>)
    ensures
        text == breaks + without_leading_breaks(text),
        only_breaks(breaks),
        without_leading_breaks(text).len() > 0 ==> without_leading_breaks(text)[0] != '\n'
            && without_leading_breaks(text)[0] != '\r',
    decreases text.len(),
{
    if text.len() > 0 && (text[0] == '\n' || text[0] == '\r') {
        let rest = text.subrange(1, text.len() as int);
        let more = lemma_leading_breaks(rest);
        let breaks = seq![text[0]] + more;
        let kept = without_leading_breaks(rest);
        assert(text =~= seq![text[0]] + rest);
        assert(seq![text[0]] + (more + kept) =~= breaks + kept);
        assert forall|i: int| 0 <= i < breaks.len() implies #[trigger] breaks[i] == '\n'
            || breaks[i] == '\r' by {
            if i > 0 {
                assert(breaks[i] == more[i - 1]);
            }
        }
        breaks
    } else {
        assert(text =~= Seq::<char>::empty() + text);
        Seq::empty()
    }
}

/// A complete response keeps what came: the role that came first, the log-probabilities,
/// and all reasoning, before which nothing is put. Where the text holds no end of reasoning
/// and is not searched for tool calls, the reasoning is what came as such and nothing else.
pub proof fn law_responses_keep_the_reasoning(
    chunks: Seq<AnnotatedView>,
    n: nat,
    options: ParsingOptionsView,
    facts: ParserFactsView,
    i: int,
)
    requires
        without_errors(chunks),
        n <= chunks.len(),
        choices_completed(aggregated(chunks, n).choices, options, facts) is Ok,
        0 <= i < aggregated(chunks, n).choices.len(),
    ensures
        ({
            let index = aggregated(chunks, n).choices[i].index;
            let deltas = deltas_for(chunks, n, index);
            let made = choices_completed(aggregated(chunks, n).choices, options, facts)->Ok_0[i];
            let thought = all_given(thoughts(deltas));
            let text = items_given(texts(deltas));
            &&& deltas.len() > 0
            &&& made.index == index
            &&& first_given(roles(deltas)) matches Some(role) ==> made.message.role == role
            &&& made.logprobs matches Some(given) ==> given.content == all_given(
                probabilities(deltas, false),
            ) && given.refusal == all_given(probabilities(deltas, true))
            &&& made.logprobs is Some <==> exists|k: int|
                0 <= k < deltas.len() && (#[trigger] deltas[k]).logprobs is Some
            &&& made.message.reasoning_content is Some <==> thought is Some
            &&& thought matches Some(first) ==> first.is_prefix_of(
                made.message.reasoning_content->0,
            )
            &&& options.tool_call_parser is None && holds_no_end_of_reasoning(text)
                ==> made.message.reasoning_content == thought
        }),
{
    let choices = aggregated(chunks, n).choices;
    let choice = choices[i];
    let deltas = deltas_for(chunks, n, choice.index);
    law_streams_are_put_together(chunks, n, choice.index, 0);
    lemma_choice_at(choices, i);
    lemma_completed_at(choices, options, facts, i);
    law_choices_are_all_that_came(chunks, n, choice.index);
    lemma_no_end_found(choice.text);
    if let Some(first) = choice.reasoning_content {
        lemma_prefix_kept(first);
    }
}

proof fn lemma_no_end_found(text: Seq<char>)
    ensures
        holds_no_end_of_reasoning(text) ==> rfind_text(text, "</think>"@) is None,
{
    lemma_rfind_text(text, "</think>"@);
}

/// What is put behind a text leaves it in front.
proof fn lemma_prefix_kept(first: Seq<char>)
    ensures
        first.is_prefix_of(first),
        forall|a: Seq<char>| first.is_prefix_of(#[trigger] (first + a)),
        forall|a: Seq<char>, b: Seq<char>| first.is_prefix_of(#[trigger] ((first + a) + b)),
{
    assert forall|a: Seq<char>| first.is_prefix_of(#[trigger] (first + a)) by {
        assert((first + a).subrange(0, first.len() as int) =~= first);
    }
    assert forall|a: Seq<char>, b: Seq<char>| first.is_prefix_of(
        #[trigger] ((first + a) + b),
    ) by {
        assert(((first + a) + b).subrange(0, first.len() as int) =~= first);
    }
    assert(first.subrange(0, first.len() as int) =~= first);
}

/// Where no call is complete, no chunk becomes a call.
pub(crate) proof fn lemma_no_calls_made(chunks: Seq<AnnotatedView>, n: nat, i: int)
    requires
        without_errors(chunks),
        n <= chunks.len(),
        0 <= i < aggregated(chunks, n).choices.len(),
        !(exists|call: u32|
            is_complete(deltas_for(chunks, n, aggregated(chunks, n).choices[i].index), call)),
    ensures
        chunks_finalized(aggregated(chunks, n).choices[i].tool_call_chunks).len() == 0,
{
    let choices = aggregated(chunks, n).choices;
    let choice = choices[i];
    let deltas = deltas_for(chunks, n, choice.index);
    law_streams_are_put_together(chunks, n, choice.index, 0);
    lemma_choice_at(choices, i);
    let pieces = choice.tool_call_chunks;
    assert(ascending(chunk_indices(pieces)));
    lemma_complete_indices(pieces);
    if chunks_finalized(pieces).len() > 0 {
        let indices = complete_indices(pieces);
        let at = indices[0];
        let q = choose|q: int|
            0 <= q < pieces.len() && (#[trigger] pieces[q]).index == indices[0] && chunk_finalized(
                pieces[q],
            ) == Some(chunks_finalized(pieces)[0]);
        lemma_chunk_at(pieces, q);
        law_calls_are_all_that_came(chunks, n, choice.index, at);
        assert(is_complete(deltas, at));
    }
}

/// Where the text of a choice is not searched for tool calls, holds no end of reasoning and
/// needs no repair, it is the content of the response: whole where there is no reasoning,
/// and but for line breaks in front where there is some. Reasoning alone, without tool
/// calls, is the content too. Where no call is complete, there are no tool calls, and the
/// finish reason is the last that came.
pub proof fn law_responses_keep_the_text(
    chunks: Seq<AnnotatedView>,
    n: nat,
    options: ParsingOptionsView,
    facts: ParserFactsView,
    i: int,
)
    requires
        without_errors(chunks),
        n <= chunks.len(),
        choices_completed(aggregated(chunks, n).choices, options, facts) is Ok,
        0 <= i < aggregated(chunks, n).choices.len(),
        options.tool_call_parser is None,
        nothing_to_repair(facts),
        items_given(parts(deltas_for(chunks, n, aggregated(chunks, n).choices[i].index))).len()
            == 0,
        holds_no_end_of_reasoning(
            items_given(texts(deltas_for(chunks, n, aggregated(chunks, n).choices[i].index))),
        ),
    ensures
        ({
            let deltas = deltas_for(chunks, n, aggregated(chunks, n).choices[i].index);
            let made = choices_completed(aggregated(chunks, n).choices, options, facts)->Ok_0[i];
            let text = items_given(texts(deltas));
            let thought = items_given(thoughts(deltas));
            let calls = exists|call: u32| is_complete(deltas, call);
            &&& thought.len() == 0 && text.len() == 0 ==> made.message.content is None
            &&& thought.len() == 0 && text.len() > 0 ==> made.message.content == Some(
                ChatCompletionMessageContentView::Text(text),
            )
            &&& thought.len() > 0 && (text.len() == 0 || only_breaks(text)) && !calls
                ==> made.message.content == Some(ChatCompletionMessageContentView::Text(thought))
            &&& thought.len() > 0 && !only_breaks(text) ==> exists|breaks: Seq<char>, kept: Seq<char>|
                {
                    &&& text == #[trigger] (breaks + kept)
                    &&& only_breaks(breaks)
                    &&& kept.len() > 0 && kept[0] != '\n' && kept[0] != '\r'
                    &&& made.message.content == Some(ChatCompletionMessageContentView::Text(kept))
                }
            &&& !calls ==> made.message.tool_calls is None && made.finish_reason == last_given(
                ends(deltas),
            )
        }),
{
    let choices = aggregated(chunks, n).choices;
    let choice = choices[i];
    let deltas = deltas_for(chunks, n, choice.index);
    let text = items_given(texts(deltas));
    law_streams_are_put_together(chunks, n, choice.index, 0);
    lemma_choice_at(choices, i);
    lemma_completed_at(choices, options, facts, i);
    law_choices_are_all_that_came(chunks, n, choice.index);
    lemma_no_end_found(text);
    let breaks = lemma_leading_breaks(text);
    let kept = without_leading_breaks(text);
    if !only_breaks(text) && kept.len() == 0 {
        assert(text =~= breaks);
    }
    if only_breaks(text) && kept.len() > 0 {
        assert(text[breaks.len() as int] == kept[0]);
    }
    assert(text == breaks + kept);
    if !(exists|call: u32| is_complete(deltas, call)) {
        lemma_no_calls_made(chunks, n, i);
    }
    let called = choice_called(choice);
    assert(called.text == text);
    let settled = choice_settled(choice, options, facts)->Ok_0;
    let plain = called.normalized().mirrored();
    assert(settled.text == plain.text);
}

/// Every choice that came is in the complete response, in the order of their index.
pub proof fn law_every_choice_is_answered(
    chunks: Seq<AnnotatedView>,
    n: nat,
    options: ParsingOptionsView,
    facts: ParserFactsView,
    index: u32,
)
    requires
        without_errors(chunks),
        n <= chunks.len(),
        choices_completed(aggregated(chunks, n).choices, options, facts) is Ok,
    ensures
        ({
            let made = choices_completed(aggregated(chunks, n).choices, options, facts)->Ok_0;
            &&& deltas_for(chunks, n, index).len() > 0 <==> exists|i: int|
                0 <= i < made.len() && (#[trigger] made[i]).index == index
            &&& forall|i: int, j: int|
                0 <= i < j < made.len() ==> (#[trigger] made[i]).index < (#[trigger] made[j]).index
        }),
{
    let choices = aggregated(chunks, n).choices;
    let made = choices_completed(choices, options, facts)->Ok_0;
    law_streams_are_put_together(chunks, n, index, 0);
    law_choices_are_all_that_came(chunks, n, index);
    if choices.len() == 0 {
        assert(made.len() == 0);
    } else {
        lemma_completed_at(choices, options, facts, 0);
    }
    assert forall|i: int| 0 <= i < made.len() implies (#[trigger] made[i]).index
        == choices[i].index by {
        lemma_completed_at(choices, options, facts, i);
    }
    assert forall|i: int, j: int| 0 <= i < j < made.len() implies (#[trigger] made[i]).index < (
    #[trigger] made[j]).index by {
        assert(choice_indices(choices)[i] < choice_indices(choices)[j]);
    }
    let p = index_position(choice_indices(choices), index);
    lemma_index_position(choice_indices(choices), index);
    if choice_at(choices, index) is Some {
        assert(made[p].index == index);
    }
    if exists|i: int| 0 <= i < made.len() && (#[trigger] made[i]).index == index {
        let i = choose|i: int| 0 <= i < made.len() && (#[trigger] made[i]).index == index;
        lemma_choice_at(choices, i);
    }
}

} // verus!
