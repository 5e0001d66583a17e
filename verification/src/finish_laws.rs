//! What holds of the finish reasons of every stream.

use crate::chat_types::{AnnotatedView, ChatChoiceStreamView, FinishReason};
use crate::finish_reason::{
    called_after, choice_fixed, choices_fixed, finished_after, response_fixed, unfinished,
    FinishFixerView,
};
use crate::jail_stream::{noted, terminal_choices};
use vstd::prelude::*;

verus! {

/// Fixing a choice changes at most its finish reason, and that only from a stop to a
/// stop for tool calls: an ending by length or by a filter stays.
pub proof fn law_only_stops_change(choice: ChatChoiceStreamView, called: Seq<u32>)
    ensures
        choice_fixed(choice, called).index == choice.index,
        choice_fixed(choice, called).delta == choice.delta,
        choice_fixed(choice, called).logprobs == choice.logprobs,
        choice_fixed(choice, called).finish_reason != choice.finish_reason ==> choice.finish_reason
            == Some(FinishReason::Stop) && choice_fixed(choice, called).finish_reason == Some(
            FinishReason::ToolCalls,
        ) && called.contains(choice.index),
{
}

/// A choice that emitted tool calls never ends with a plain stop.
pub proof fn law_calls_do_not_just_stop(choice: ChatChoiceStreamView, called: Seq<u32>)
    requires
        called.contains(choice.index),
    ensures
        choice_fixed(choice, called).finish_reason != Some(FinishReason::Stop),
{
}

/// Fixing again changes nothing.
pub proof fn law_fixing_twice(choice: ChatChoiceStreamView, called: Seq<u32>)
    ensures
        choice_fixed(choice_fixed(choice, called), called) == choice_fixed(choice, called),
{
}

/// What is remembered after the first `n` chunks of a stream.
pub open spec fn fixer_after(chunks: Seq<AnnotatedView>, n: nat) -> FinishFixerView
    decreases n,
{
    if n == 0 {
        FinishFixerView::initial()
    } else {
        fixer_after(chunks, (n - 1) as nat).after(chunks[n - 1])
    }
}

/// The chunk that leaves for chunk `k` of a stream.
pub open spec fn chunk_out(chunks: Seq<AnnotatedView>, k: int) -> AnnotatedView {
    response_fixed(chunks[k], fixer_after(chunks, (k + 1) as nat).called)
}

/// Chunk `k` of a stream has a choice `j`.
pub open spec fn has_choice(chunks: Seq<AnnotatedView>, k: int, j: int) -> bool {
    0 <= k < chunks.len() && chunks[k].data is Some && 0 <= j
        < chunks[k].data->0.inner.choices.len()
}

/// The choice `j` that leaves with chunk `k`.
pub open spec fn choice_out(
    chunks: Seq<AnnotatedView>,
    k: int,
    j: int,
) -> ChatChoiceStreamView {
    chunk_out(chunks, k).data->0.inner.choices[j]
}

/// Some chunk that leaves gives the choice of that index a finish reason.
pub open spec fn finish_given(chunks: Seq<AnnotatedView>, index: u32) -> bool {
    exists|k: int, j: int| #[trigger]
        has_choice(chunks, k, j) && choice_out(chunks, k, j).index == index && choice_out(
            chunks,
            k,
            j,
        ).finish_reason is Some
}

/// The chunk owed at the end gives the choice of that index a stop for tool calls.
pub open spec fn finish_owed(chunks: Seq<AnnotatedView>, index: u32) -> bool {
    let owed = fixer_after(chunks, chunks.len()).owed();
    &&& owed is Some
    &&& owed->0.data is Some
    &&& exists|j: int|
        0 <= j < owed->0.data->0.inner.choices.len() && (
        #[trigger] owed->0.data->0.inner.choices[j]).index == index
            && owed->0.data->0.inner.choices[j].finish_reason == Some(FinishReason::ToolCalls)
}

/// A noted index is in, and those before stay in.
proof fn lemma_noted(indices: Seq<u32>, index: u32, other: u32)
    ensures
        noted(indices, index).contains(index),
        noted(indices, index).contains(other) <==> indices.contains(other) || other == index,
{
    let all = noted(indices, index);
    if !indices.contains(index) {
        assert(all[indices.len() as int] == index);
        if indices.contains(other) {
            let i = choose|i: int| 0 <= i < indices.len() && indices[i] == other;
            assert(all[i] == other);
        }
        if all.contains(other) && other != index {
            let i = choose|i: int| 0 <= i < all.len() && all[i] == other;
            assert(indices[i] == other);
        }
    }
}

/// The choices with tool calls are the noted ones.
proof fn lemma_called_after(called: Seq<u32>, choices: Seq<ChatChoiceStreamView>, index: u32)
    ensures
        called_after(called, choices).contains(index) <==> called.contains(index) || exists|j: int|
            0 <= j < choices.len() && (#[trigger] choices[j]).index == index
                && choices[j].delta.tool_calls is Some,
    decreases choices.len(),
{
    if choices.len() > 0 {
        let n = choices.len() - 1;
        let front = choices.subrange(0, n);
        lemma_called_after(called, front, index);
        lemma_noted(called_after(called, front), choices[n].index, index);
        if exists|j: int|
            0 <= j < front.len() && (#[trigger] front[j]).index == index
                && front[j].delta.tool_calls is Some {
            let j = choose|j: int|
                0 <= j < front.len() && (#[trigger] front[j]).index == index
                    && front[j].delta.tool_calls is Some;
            assert(choices[j] == front[j]);
        }
        if exists|j: int|
            0 <= j < choices.len() && (#[trigger] choices[j]).index == index
                && choices[j].delta.tool_calls is Some {
            let j = choose|j: int|
                0 <= j < choices.len() && (#[trigger] choices[j]).index == index
                    && choices[j].delta.tool_calls is Some;
            if j < n {
                assert(front[j] == choices[j]);
            }
        }
    }
}

/// The choices with finish reasons are the noted ones.
proof fn lemma_finished_after(finished: Seq<u32>, choices: Seq<ChatChoiceStreamView>, index: u32)
    ensures
        finished_after(finished, choices).contains(index) <==> finished.contains(index)
            || exists|j: int|
            0 <= j < choices.len() && (#[trigger] choices[j]).index == index
                && choices[j].finish_reason is Some,
    decreases choices.len(),
{
    if choices.len() > 0 {
        let n = choices.len() - 1;
        let front = choices.subrange(0, n);
        lemma_finished_after(finished, front, index);
        lemma_noted(finished_after(finished, front), choices[n].index, index);
        if exists|j: int|
            0 <= j < front.len() && (#[trigger] front[j]).index == index
                && front[j].finish_reason is Some {
            let j = choose|j: int|
                0 <= j < front.len() && (#[trigger] front[j]).index == index
                    && front[j].finish_reason is Some;
            assert(choices[j] == front[j]);
        }
        if exists|j: int|
            0 <= j < choices.len() && (#[trigger] choices[j]).index == index
                && choices[j].finish_reason is Some {
            let j = choose|j: int|
                0 <= j < choices.len() && (#[trigger] choices[j]).index == index
                    && choices[j].finish_reason is Some;
            if j < n {
                assert(front[j] == choices[j]);
            }
        }
    }
}

/// A choice with tool calls and without a finish reason is missing one.
proof fn lemma_unfinished(called: Seq<u32>, finished: Seq<u32>, index: u32)
    requires
        called.contains(index),
        !finished.contains(index),
    ensures
        unfinished(called, finished).contains(index),
    decreases called.len(),
{
    let n = called.len() - 1;
    let front = called.subrange(0, n);
    if called[n] != index {
        let i = choose|i: int| 0 <= i < called.len() && called[i] == index;
        assert(front[i] == index);
        lemma_unfinished(front, finished, index);
        let before = unfinished(front, finished);
        let k = choose|k: int| 0 <= k < before.len() && before[k] == index;
        assert(unfinished(called, finished)[k] == index);
    } else {
        let all = unfinished(called, finished);
        assert(all[all.len() - 1] == index);
    }
}

/// What is remembered of the first chunks does not go.
proof fn lemma_fixer_grows(chunks: Seq<AnnotatedView>, n: nat, all: nat, index: u32)
    requires
        n <= all <= chunks.len(),
    ensures
        fixer_after(chunks, n).called.contains(index) ==> fixer_after(chunks, all).called.contains(
            index,
        ),
        fixer_after(chunks, n).last_inner is Some ==> fixer_after(chunks, all).last_inner is Some,
    decreases all,
{
    if n < all {
        lemma_fixer_grows(chunks, n, (all - 1) as nat, index);
        let before = fixer_after(chunks, (all - 1) as nat);
        match chunks[all - 1].data {
            Some(data) => {
                lemma_called_after(before.called, data.inner.choices, index);
            },
            None => {},
        }
    }
}

/// A remembered finish reason was given.
proof fn lemma_finish_given(chunks: Seq<AnnotatedView>, n: nat, index: u32)
    requires
        n <= chunks.len(),
        fixer_after(chunks, n).finished.contains(index),
    ensures
        finish_given(chunks, index),
    decreases n,
{
    if n > 0 {
        let before = fixer_after(chunks, (n - 1) as nat);
        match chunks[n - 1].data {
            Some(data) => {
                let called = called_after(before.called, data.inner.choices);
                let out = choices_fixed(data.inner.choices, called);
                lemma_finished_after(before.finished, out, index);
                if before.finished.contains(index) {
                    lemma_finish_given(chunks, (n - 1) as nat, index);
                } else {
                    let j = choose|j: int|
                        0 <= j < out.len() && (#[trigger] out[j]).index == index
                            && out[j].finish_reason is Some;
                    assert(has_choice(chunks, n - 1, j));
                    assert(choice_out(chunks, n - 1, j) == out[j]);
                }
            },
            None => {
                lemma_finish_given(chunks, (n - 1) as nat, index);
            },
        }
    }
}

/// A choice of that index came with tool calls in one of the first `n` chunks.
pub open spec fn called_in(chunks: Seq<AnnotatedView>, n: int, index: u32) -> bool {
    exists|k: int, j: int| #[trigger]
        has_choice(chunks, k, j) && k < n && chunks[k].data->0.inner.choices[j].index == index
            && chunks[k].data->0.inner.choices[j].delta.tool_calls is Some
}

/// The choices that are remembered are those that came with tool calls.
proof fn lemma_called_in(chunks: Seq<AnnotatedView>, n: nat, index: u32)
    requires
        n <= chunks.len(),
    ensures
        fixer_after(chunks, n).called.contains(index) <==> called_in(chunks, n as int, index),
    decreases n,
{
    if n > 0 {
        let m = (n - 1) as nat;
        lemma_called_in(chunks, m, index);
        if called_in(chunks, m as int, index) {
            let (k, j) = choose|k: int, j: int| #[trigger]
                has_choice(chunks, k, j) && k < m && chunks[k].data->0.inner.choices[j].index
                    == index && chunks[k].data->0.inner.choices[j].delta.tool_calls is Some;
            assert(has_choice(chunks, k, j));
            assert(called_in(chunks, n as int, index));
        }
        if let Some(data) = chunks[n - 1].data {
            let choices = data.inner.choices;
            lemma_called_after(fixer_after(chunks, m).called, choices, index);
            if exists|j: int|
                0 <= j < choices.len() && (#[trigger] choices[j]).index == index
                    && choices[j].delta.tool_calls is Some {
                let j = choose|j: int|
                    0 <= j < choices.len() && (#[trigger] choices[j]).index == index
                        && choices[j].delta.tool_calls is Some;
                assert(has_choice(chunks, n - 1, j));
            }
        }
        if called_in(chunks, n as int, index) && !called_in(chunks, m as int, index) {
            let (k, j) = choose|k: int, j: int| #[trigger]
                has_choice(chunks, k, j) && k < n && chunks[k].data->0.inner.choices[j].index
                    == index && chunks[k].data->0.inner.choices[j].delta.tool_calls is Some;
            assert(has_choice(chunks, k, j));
            assert(k == n - 1);
            assert(chunks[n - 1].data->0.inner.choices[j].index == index);
        }
    }
}

/// Of a stream nothing changes but finish reasons: a choice that stops after it came with
/// tool calls, in the same chunk or before, stops for them; every other choice leaves as it
/// came, and so does the rest of every chunk.
pub proof fn law_stops_after_calls_are_told(chunks: Seq<AnnotatedView>, k: int, j: int)
    requires
        has_choice(chunks, k, j),
    ensures
        ({
            let came = chunks[k].data->0.inner.choices[j];
            let out = choice_out(chunks, k, j);
            let data = chunks[k].data->0;
            let left = chunk_out(chunks, k);
            &&& out.index == came.index
            &&& out.delta == came.delta
            &&& out.logprobs == came.logprobs
            &&& out.finish_reason == if came.finish_reason == Some(FinishReason::Stop) && called_in(
                chunks,
                k + 1,
                came.index,
            ) {
                Some(FinishReason::ToolCalls)
            } else {
                came.finish_reason
            }
            &&& left.data is Some
            &&& left.data->0.inner.choices.len() == data.inner.choices.len()
            &&& left.data->0.inner.id == data.inner.id
            &&& left.data->0.inner.model == data.inner.model
            &&& left.data->0.inner.created == data.inner.created
            &&& left.data->0.inner.usage == data.inner.usage
            &&& left.data->0.nvext == data.nvext
            &&& left.id == chunks[k].id
            &&& left.event == chunks[k].event
            &&& left.comment == chunks[k].comment
            &&& left.error == chunks[k].error
        }),
{
    lemma_called_in(chunks, (k + 1) as nat, chunks[k].data->0.inner.choices[j].index);
}

/// Every choice that emits tool calls ends: some chunk that leaves gives it a finish
/// reason, or the chunk owed at the end gives it a stop for tool calls.
pub proof fn law_every_call_ends(chunks: Seq<AnnotatedView>, k: int, j: int)
    requires
        has_choice(chunks, k, j),
        chunks[k].data->0.inner.choices[j].delta.tool_calls is Some,
    ensures
        finish_given(chunks, chunks[k].data->0.inner.choices[j].index) || finish_owed(
            chunks,
            chunks[k].data->0.inner.choices[j].index,
        ),
{
    let choices = chunks[k].data->0.inner.choices;
    let index = choices[j].index;
    let end = fixer_after(chunks, chunks.len());
    lemma_called_after(fixer_after(chunks, k as nat).called, choices, index);
    assert(fixer_after(chunks, (k + 1) as nat).called.contains(index));
    lemma_fixer_grows(chunks, (k + 1) as nat, chunks.len(), index);
    if end.finished.contains(index) {
        lemma_finish_given(chunks, chunks.len(), index);
    } else {
        lemma_unfinished(end.called, end.finished, index);
        let missing = unfinished(end.called, end.finished);
        let i = choose|i: int| 0 <= i < missing.len() && missing[i] == index;
        assert(terminal_choices(missing)[i].index == index);
        let owed = end.owed();
        assert(owed->0.data->0.inner.choices[i].index == index);
    }
}

/// The chunk owed at the end is for choices that emitted tool calls.
pub proof fn law_only_calls_are_owed(chunks: Seq<AnnotatedView>, j: int)
    requires
        fixer_after(chunks, chunks.len()).owed() is Some,
        0 <= j < fixer_after(chunks, chunks.len()).owed()->0.data->0.inner.choices.len(),
    ensures
        ({
            let end = fixer_after(chunks, chunks.len());
            let choice = end.owed()->0.data->0.inner.choices[j];
            &&& choice.finish_reason == Some(FinishReason::ToolCalls)
            &&& choice.delta.content is None
            &&& choice.delta.tool_calls is None
            &&& end.called.contains(choice.index)
            &&& !end.finished.contains(choice.index)
        }),
{
    let end = fixer_after(chunks, chunks.len());
    lemma_missing(end.called, end.finished, j);
}

proof fn lemma_missing(called: Seq<u32>, finished: Seq<u32>, j: int)
    requires
        0 <= j < unfinished(called, finished).len(),
    ensures
        called.contains(unfinished(called, finished)[j]),
        !finished.contains(unfinished(called, finished)[j]),
    decreases called.len(),
{
    let n = called.len() - 1;
    let front = called.subrange(0, n);
    let before = unfinished(front, finished);
    if j < before.len() {
        lemma_missing(front, finished, j);
        let i = choose|i: int| 0 <= i < front.len() && front[i] == before[j];
        assert(called[i] == before[j]);
    } else {
        assert(called[n] == unfinished(called, finished)[j]);
    }
}

} // verus!
