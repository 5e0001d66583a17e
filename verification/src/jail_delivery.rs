//! How what a jail lets go reaches the client: which chunks carry it, and what they say.

use crate::chat_types::{
    AnnotatedView, ChatChoiceStreamView, ChatCompletionMessageContentView, FinishReason,
    NvCreateChatCompletionStreamResponseView, Role,
};
use crate::jail_apply::{
    choices_finalized, choices_processed, facts_at, response_processed, stream_ended, Passed,
};
use crate::jail_ledger::{
    accounted, answers, by_markers, is_answer, law_no_text_is_lost, lemma_choice_answers,
    matcher_is_right, settled, Parts,
};
use crate::jail_parse::{call_choice, ends_jail, starts_jail, text_choice};
use crate::jail_state::{
    finalized, free_text, jailed_text, lemma_processed_index, logprobs_joined, prefix_emitted,
    processed, released, trailed, ChoiceJailStateView, Processed,
};
use crate::jail_stream::{
    choice_passed, choice_processed, choices_of, chunk_with, emitted, ending, ending_indices,
    final_base, finish_noted, in_lane, law_states_stay_sorted, lemma_state_position, metadata_of,
    reasoning_released, state_position, terminal_choices, text_state, with_state, JailRunView, Lane,
    StreamMetadataView,
};
use crate::jail_types::{ChoiceEmissionView, EmissionMode, JailedStreamView};
use crate::parser_facts::{marker_answer, MatchResultView, ParserFactsView, ParserQueryView};
use vstd::prelude::*;

verus! {

/// The choices that chunks bring, one behind the other.
pub open spec fn brought(chunks: Seq<AnnotatedView>) -> Seq<ChatChoiceStreamView>
    decreases chunks.len(),
{
    if chunks.len() == 0 {
        Seq::empty()
    } else {
        brought(chunks.drop_last()) + match chunks.last().data {
            Some(data) => data.inner.choices,
            None => Seq::empty(),
        }
    }
}

/// The choices of the emissions that are picked, in their order.
pub open spec fn picked(
    emissions: Seq<ChoiceEmissionView>,
    pick: spec_fn(ChoiceEmissionView) -> bool,
) -> Seq<ChatChoiceStreamView> {
    emissions.filter(pick).map_values(|emission: ChoiceEmissionView| emission.choice())
}

/// The chunk is the one that came, but for its choices and annotations.
pub open spec fn stands_for(
    chunk: AnnotatedView,
    data: NvCreateChatCompletionStreamResponseView,
) -> bool {
    &&& chunk.data is Some
    &&& chunk.data->0.inner.id == data.inner.id
    &&& chunk.data->0.inner.object == data.inner.object
    &&& chunk.data->0.inner.created == data.inner.created
    &&& chunk.data->0.inner.model == data.inner.model
    &&& chunk.data->0.inner.usage == data.inner.usage
    &&& chunk.data->0.inner.service_tier == data.inner.service_tier
    &&& chunk.data->0.inner.system_fingerprint == data.inner.system_fingerprint
    &&& chunk.data->0.nvext == data.nvext
    &&& chunk.error is None
}

/// A choice that only says that its tool calls are complete.
pub open spec fn says_complete(choice: ChatChoiceStreamView) -> bool {
    &&& choice.delta.content is None
    &&& choice.delta.tool_calls is None
    &&& choice.delta.reasoning_content is None
    &&& choice.finish_reason == Some(FinishReason::ToolCalls)
}

/// Chunks bring what each part of them brings.
proof fn lemma_brought_join(a: Seq<AnnotatedView>, b: Seq<AnnotatedView>)
    ensures
        brought(a + b) == brought(a) + brought(b),
    decreases b.len(),
{
    if b.len() == 0 {
        assert(a + b =~= a);
        assert(brought(a) + brought(b) =~= brought(a));
    } else {
        assert((a + b).drop_last() =~= a + b.drop_last());
        lemma_brought_join(a, b.drop_last());
        assert(brought(a + b) =~= brought(a) + brought(b));
    }
}

/// One chunk brings its choices.
proof fn lemma_brought_one(chunk: AnnotatedView)
    requires
        chunk.data is Some,
    ensures
        brought(seq![chunk]) == chunk.data->0.inner.choices,
{
    assert(seq![chunk].drop_last() =~= Seq::<AnnotatedView>::empty());
    assert(brought(Seq::<AnnotatedView>::empty()) =~= Seq::empty());
    assert(brought(seq![chunk]) =~= chunk.data->0.inner.choices);
}

/// The chunks for emissions bring the choices of all of them.
proof fn lemma_emitted_brought(
    mode: EmissionMode,
    emissions: Seq<ChoiceEmissionView>,
    base: NvCreateChatCompletionStreamResponseView,
    metadata: StreamMetadataView,
)
    ensures
        brought(emitted(mode, emissions, base, metadata)) == choices_of(emissions),
    decreases emissions.len(),
{
    let chunks = emitted(mode, emissions, base, metadata);
    if emissions.len() == 0 {
        assert(choices_of(emissions) =~= Seq::empty());
    } else if mode == EmissionMode::Packed {
        lemma_brought_one(chunks[0]);
        assert(chunks =~= seq![chunks[0]]);
    } else {
        let front = emissions.drop_last();
        lemma_emitted_brought(mode, front, base, metadata);
        assert(chunks.drop_last() =~= emitted(mode, front, base, metadata));
        assert(choices_of(front).push(emissions.last().choice()) =~= choices_of(emissions));
        assert(brought(chunks) =~= choices_of(front) + seq![emissions.last().choice()]);
    }
}

/// A lane holds the emissions that are picked for it.
proof fn lemma_lane_picked(
    emissions: Seq<ChoiceEmissionView>,
    lane: Lane,
    pick: spec_fn(ChoiceEmissionView) -> bool,
)
    requires
        forall|emission: ChoiceEmissionView| #[trigger]
            pick(emission) == (match lane {
                Lane::Calls => emission is ToolCall || emission is Content,
                Lane::Trailing => emission is Trailing,
                Lane::PassThrough => emission is PassThrough,
            }),
    ensures
        choices_of(in_lane(emissions, lane)) == picked(emissions, pick),
    decreases emissions.len(),
{
    lemma_lane_filtered(emissions, lane, pick);
    assert(choices_of(in_lane(emissions, lane)) =~= picked(emissions, pick));
}

/// A lane holds the emissions that are picked for it.
proof fn lemma_lane_filtered(
    emissions: Seq<ChoiceEmissionView>,
    lane: Lane,
    pick: spec_fn(ChoiceEmissionView) -> bool,
)
    requires
        forall|emission: ChoiceEmissionView| #[trigger]
            pick(emission) == (match lane {
                Lane::Calls => emission is ToolCall || emission is Content,
                Lane::Trailing => emission is Trailing,
                Lane::PassThrough => emission is PassThrough,
            }),
    ensures
        in_lane(emissions, lane) == emissions.filter(pick),
    decreases emissions.len(),
{
    reveal(Seq::filter);
    if emissions.len() > 0 {
        let front = emissions.drop_last();
        assert(front =~= emissions.subrange(0, emissions.len() - 1));
        lemma_lane_filtered(front, lane, pick);
        assert(pick(emissions.last()) == pick(emissions[emissions.len() - 1]));
    }
}

/// What the choices of a chunk let go leaves, each once: first what became of parsed text,
/// then the text behind it, then what is passed through. Where a choice is complete, only
/// what became of parsed text leaves, and behind it the news that the choice is complete.
/// The chunks are otherwise the one that came.
pub proof fn law_emissions_leave_once(
    run: JailRunView,
    response: AnnotatedView,
    data: NvCreateChatCompletionStreamResponseView,
    jail: JailedStreamView,
    facts: Seq<ParserFactsView>,
    done: Passed,
)
    requires
        response.data == Some(data),
        data.inner.choices.len() > 0,
        !run.waiting_for_usage_after_terminal,
        response_processed(run, response, jail, facts) == Ok::<Passed, (int, ParserQueryView)>(
            done,
        ),
    ensures
        ({
            let all = done.run.all_emissions;
            let answers = picked(all, |e: ChoiceEmissionView| is_answer(e));
            let trailing = picked(all, |e: ChoiceEmissionView| e is Trailing);
            let passed = picked(all, |e: ChoiceEmissionView| e is PassThrough);
            let out = brought(done.chunks);
            if done.over || done.run.waiting_for_usage_after_terminal {
                &&& answers.len() < out.len()
                &&& out.subrange(0, answers.len() as int) == answers
                &&& forall|i: int|
                    answers.len() <= i < out.len() ==> says_complete(#[trigger] out[i])
            } else {
                out == answers + trailing + passed
            }
        }),
        forall|i: int|
            0 <= i < done.chunks.len() ==> stands_for(#[trigger] done.chunks[i], data)
                && done.chunks[i].data->0.inner.choices.len() > 0,
        jail.emission_mode == EmissionMode::SingleChoicePerChunk && !done.over
            && !done.run.waiting_for_usage_after_terminal ==> forall|i: int|
            0 <= i < done.chunks.len() ==> (
            #[trigger] done.chunks[i]).data->0.inner.choices.len() == 1,
        jail.emission_mode == EmissionMode::Packed ==> done.chunks.len() <= 3,
{
    let after = choices_processed(
        run.begun(data),
        data.inner.choices,
        data.inner.choices.len() as int,
        response,
        jail,
        facts,
    )->Ok_0;
    lemma_still_going(
        run.begun(data),
        data.inner.choices,
        data.inner.choices.len() as int,
        response,
        jail,
        facts,
    );
    let all = after.all_emissions;
    let mode = jail.emission_mode;
    let metadata = metadata_of(response);
    let (one, two, three) = (
        in_lane(all, Lane::Calls),
        in_lane(all, Lane::Trailing),
        in_lane(all, Lane::PassThrough),
    );
    let a = emitted(mode, one, data, after.preserved);
    let b = emitted(mode, two, data, after.preserved);
    let c = emitted(mode, three, data, metadata);
    lemma_lane_picked(all, Lane::Calls, |e: ChoiceEmissionView| is_answer(e));
    lemma_lane_picked(all, Lane::Trailing, |e: ChoiceEmissionView| e is Trailing);
    lemma_lane_picked(all, Lane::PassThrough, |e: ChoiceEmissionView| e is PassThrough);
    lemma_emitted_brought(mode, one, data, after.preserved);
    lemma_emitted_brought(mode, two, data, after.preserved);
    lemma_emitted_brought(mode, three, data, metadata);
    let ends = ending_indices(after, jail);
    if ends.len() > 0 {
        let last = chunk_with(data, terminal_choices(ends), metadata);
        assert(a.push(last) =~= a + seq![last]);
        lemma_brought_join(a, seq![last]);
        lemma_brought_one(last);
        let out = brought(done.chunks);
        assert(out.subrange(0, choices_of(one).len() as int) =~= choices_of(one));
        assert forall|i: int| choices_of(one).len() <= i < out.len() implies says_complete(
            #[trigger] out[i],
        ) by {
            assert(out[i] == terminal_choices(ends)[i - choices_of(one).len()]);
        }
    } else {
        lemma_brought_join(a, b);
        lemma_brought_join(a + b, c);
    }
}

/// Choices that come do not make the run wait.
proof fn lemma_still_going(
    run: JailRunView,
    choices: Seq<ChatChoiceStreamView>,
    n: int,
    response: AnnotatedView,
    jail: JailedStreamView,
    facts: Seq<ParserFactsView>,
)
    ensures
        choices_processed(run, choices, n, response, jail, facts) matches Ok(after)
            ==> after.waiting_for_usage_after_terminal == run.waiting_for_usage_after_terminal,
    decreases n,
{
    if n > 0 {
        lemma_still_going(run, choices, n - 1, response, jail, facts);
    }
}

/// `index` is among the choices that end exactly where it was before or a call of it left.
proof fn lemma_ending(emissions: Seq<ChoiceEmissionView>, indices: Seq<u32>, index: u32)
    ensures
        ending(emissions, indices).contains(index) == (indices.contains(index) || exists|i: int|
            0 <= i < emissions.len() && calls_for(#[trigger] emissions[i], index)),
    decreases emissions.len(),
{
    if emissions.len() > 0 {
        let n = emissions.len() - 1;
        let front = emissions.subrange(0, n);
        lemma_ending(front, indices, index);
        let before = ending(front, indices);
        let after = ending(emissions, indices);
        let found = exists|i: int|
            0 <= i < emissions.len() && calls_for(#[trigger] emissions[i], index);
        let earlier = exists|i: int| 0 <= i < front.len() && calls_for(#[trigger] front[i], index);
        if earlier {
            let i = choose|i: int| 0 <= i < front.len() && calls_for(#[trigger] front[i], index);
            assert(calls_for(emissions[i], index));
        }
        if found {
            let i = choose|i: int|
                0 <= i < emissions.len() && calls_for(#[trigger] emissions[i], index);
            if i < n {
                assert(front[i] == emissions[i]);
            }
        }
        let of = emissions[n].choice().index;
        if after != before {
            assert(after == before.push(of));
            assert(after[before.len() as int] == of);
            if before.contains(index) {
                let i = choose|i: int| 0 <= i < before.len() && before[i] == index;
                assert(after[i] == index);
            }
        }
    }
}

/// The emission makes a call for the choice `index`.
pub open spec fn calls_for(emission: ChoiceEmissionView, index: u32) -> bool {
    &&& emission is ToolCall
    &&& emission.choice().index == index
    &&& emission.choice().delta.tool_calls is Some
    &&& emission.choice().delta.tool_calls->0.len() > 0
}

/// A forced tool choice that is complete after its first call ends with it: where a choice
/// made a call, the news that it is complete follows, and the stream is over or waits for
/// the usage alone. Elsewhere, where no choice was told to end, the stream goes on.
pub proof fn law_complete_choices_end(
    run: JailRunView,
    response: AnnotatedView,
    data: NvCreateChatCompletionStreamResponseView,
    jail: JailedStreamView,
    facts: Seq<ParserFactsView>,
    done: Passed,
    index: u32,
)
    requires
        response.data == Some(data),
        data.inner.choices.len() > 0,
        !run.waiting_for_usage_after_terminal,
        response_processed(run, response, jail, facts) == Ok::<Passed, (int, ParserQueryView)>(
            done,
        ),
    ensures
        ({
            let all = done.run.all_emissions;
            let told = done.run.forced_terminal_indices;
            let ends = told.contains(index) || (jail.is_terminal_choice() && exists|i: int|
                0 <= i < all.len() && calls_for(#[trigger] all[i], index));
            let out = brought(done.chunks);
            let news = exists|i: int|
                0 <= i < out.len() && says_complete(#[trigger] out[i]) && out[i].index == index;
            &&& ends ==> news && (if jail.defer_terminal_until_usage {
                done.run.waiting_for_usage_after_terminal
            } else {
                done.over
            })
            &&& told.len() == 0 && !jail.is_terminal_choice() ==> !done.over
                && !done.run.waiting_for_usage_after_terminal
        }),
{
    law_emissions_leave_once(run, response, data, jail, facts, done);
    let after = choices_processed(
        run.begun(data),
        data.inner.choices,
        data.inner.choices.len() as int,
        response,
        jail,
        facts,
    )->Ok_0;
    lemma_still_going(
        run.begun(data),
        data.inner.choices,
        data.inner.choices.len() as int,
        response,
        jail,
        facts,
    );
    let all = after.all_emissions;
    let told = after.forced_terminal_indices;
    lemma_ending(all, told, index);
    let ends = ending_indices(after, jail);
    if ends.contains(index) {
        let i = choose|i: int| 0 <= i < ends.len() && ends[i] == index;
        let mode = jail.emission_mode;
        let a = emitted(mode, in_lane(all, Lane::Calls), data, after.preserved);
        let last = chunk_with(
            data,
            terminal_choices(ends),
            metadata_of(response),
        );
        assert(a.push(last) =~= a + seq![last]);
        lemma_brought_join(a, seq![last]);
        lemma_brought_one(last);
        let out = brought(done.chunks);
        let at = brought(a).len() + i;
        assert(out[at] == terminal_choices(ends)[i]);
        assert(says_complete(out[at]) && out[at].index == index);
    }
}

/// Every choice of a chunk is looked at, in the order in which they came, each with what
/// the ones before it left behind; the first of them with what was there before the chunk.
pub proof fn law_every_choice_is_looked_at(
    run: JailRunView,
    response: AnnotatedView,
    data: NvCreateChatCompletionStreamResponseView,
    jail: JailedStreamView,
    facts: Seq<ParserFactsView>,
    done: Passed,
) -> (runs: Seq<JailRunView>)
    requires
        response.data == Some(data),
        data.inner.choices.len() > 0,
        !run.waiting_for_usage_after_terminal,
        response_processed(run, response, jail, facts) == Ok::<Passed, (int, ParserQueryView)>(
            done,
        ),
    ensures
        runs.len() == data.inner.choices.len() + 1,
        runs[0].choice_states == run.choice_states,
        runs[0].preserved == run.preserved,
        runs[0].all_emissions.len() == 0,
        runs.last().choice_states == done.run.choice_states,
        runs.last().all_emissions == done.run.all_emissions,
        done.run.last_stream_id == data.inner.id,
        done.run.last_stream_model == data.inner.model,
        done.run.last_stream_created == data.inner.created,
        forall|i: int, j: int|
            0 <= i < data.inner.choices.len() && j == i + 1 ==> choice_processed(
                #[trigger] runs[i],
                data.inner.choices[i],
                response,
                jail,
                if i < facts.len() {
                    facts[i]
                } else {
                    ParserFactsView::none()
                },
            ) == Ok::<JailRunView, ParserQueryView>(#[trigger] runs[j]),
{
    lemma_steps(
        run.begun(data),
        data.inner.choices,
        data.inner.choices.len() as int,
        response,
        jail,
        facts,
    )
}

/// The choices of a chunk are taken one by one.
proof fn lemma_steps(
    run: JailRunView,
    choices: Seq<ChatChoiceStreamView>,
    n: int,
    response: AnnotatedView,
    jail: JailedStreamView,
    facts: Seq<ParserFactsView>,
) -> (runs: Seq<JailRunView>)
    requires
        0 <= n <= choices.len(),
        choices_processed(run, choices, n, response, jail, facts) is Ok,
    ensures
        runs.len() == n + 1,
        runs[0] == run,
        runs.last() == choices_processed(run, choices, n, response, jail, facts)->Ok_0,
        runs.last().last_stream_id == run.last_stream_id,
        runs.last().last_stream_model == run.last_stream_model,
        runs.last().last_stream_created == run.last_stream_created,
        forall|i: int, j: int|
            0 <= i < n && j == i + 1 ==> choice_processed(
                #[trigger] runs[i],
                choices[i],
                response,
                jail,
                facts_at(facts, i),
            ) == Ok::<JailRunView, ParserQueryView>(#[trigger] runs[j]),
    decreases n,
{
    if n == 0 {
        seq![run]
    } else {
        let front = lemma_steps(run, choices, n - 1, response, jail, facts);
        let last = choices_processed(run, choices, n, response, jail, facts)->Ok_0;
        let runs = front.push(last);
        assert forall|i: int, j: int| 0 <= i < n && j == i + 1 implies choice_processed(
            #[trigger] runs[i],
            choices[i],
            response,
            jail,
            facts_at(facts, i),
        ) == Ok::<JailRunView, ParserQueryView>(#[trigger] runs[j]) by {
            if i < n - 1 {
                assert(runs[i] == front[i] && runs[j] == front[j]);
            } else {
                assert(runs[i] == front.last());
            }
        }
        runs
    }
}

/// What is remembered of the choice `index`.
pub open spec fn state_for(run: JailRunView, index: u32) -> ChoiceJailStateView {
    let states = run.choice_states.states;
    if exists|i: int| 0 <= i < states.len() && (#[trigger] states[i]).index == index {
        states[choose|i: int| 0 <= i < states.len() && (#[trigger] states[i]).index == index]
    } else {
        ChoiceJailStateView::initial(index, false)
    }
}

/// The reasoning of emissions, one behind the other.
pub open spec fn reasoned(emissions: Seq<ChoiceEmissionView>) -> Seq<char>
    decreases emissions.len(),
{
    if emissions.len() == 0 {
        Seq::empty()
    } else {
        reasoned(emissions.drop_last()) + given(emissions.last().choice().delta.reasoning_content)
    }
}

/// Text that may not be there.
pub open spec fn given(text: Option<Seq<char>>) -> Seq<char> {
    match text {
        Some(text) => text,
        None => Seq::empty(),
    }
}

/// The state at its position is the one that is remembered.
proof fn lemma_state_for(run: JailRunView, index: u32)
    requires
        run.wf(),
    ensures
        ({
            let p = state_position(run.choice_states.states, index);
            with_state(run.choice_states.states, index, false)[p] == state_for(run, index)
        }),
{
    let states = run.choice_states.states;
    let p = state_position(states, index);
    lemma_state_position(states, index);
    if exists|i: int| 0 <= i < states.len() && (#[trigger] states[i]).index == index {
        let i = choose|i: int| 0 <= i < states.len() && (#[trigger] states[i]).index == index;
        assert(i == p) by {
            if i < p {
                assert(states[i].index < index);
            } else if p < i {
                assert(states[p].index >= index);
                assert(states[p].index < states[i].index);
            }
        }
    } else if p < states.len() {
        assert(states[p].index != index);
    }
}

/// A state that is put where it belongs is the one that is remembered.
proof fn lemma_state_put(
    run: JailRunView,
    index: u32,
    state: ChoiceJailStateView,
    after: JailRunView,
)
    requires
        run.wf(),
        state.index == index,
        after.choice_states.states == with_state(run.choice_states.states, index, false).update(
            state_position(run.choice_states.states, index),
            state,
        ),
    ensures
        state_for(after, index) == state,
{
    let states = run.choice_states.states;
    let p = state_position(states, index);
    let more = with_state(states, index, false);
    law_states_stay_sorted(states, index, false);
    lemma_state_position(states, index);
    let now = after.choice_states.states;
    assert(now[p] == state);
    let i = choose|i: int| 0 <= i < now.len() && (#[trigger] now[i]).index == index;
    assert(i == p) by {
        assert(more[p].index == index);
        if i < p {
            assert(more[i].index < more[p].index);
            assert(now[i] == more[i]);
        } else if p < i {
            assert(more[p].index < more[i].index);
            assert(now[i] == more[i]);
        }
    }
}

/// Nothing is reasoned, the reasoning that waits goes on waiting, and how the choice ended is
/// still known.
spec fn silent(done: Processed, waiting: ChoiceJailStateView) -> bool {
    &&& done.state.pending_reasoning_content == waiting.pending_reasoning_content
    &&& done.state.stream_finish_reason == waiting.stream_finish_reason
    &&& forall|i: int|
        0 <= i < done.emissions.len() ==> (
        #[trigger] done.emissions[i]).choice().delta.reasoning_content is None
}

/// What becomes of parsed text reasons nothing.
proof fn lemma_released_silent(
    before: Processed,
    made: ChatChoiceStreamView,
    waiting: ChoiceJailStateView,
    jail: JailedStreamView,
)
    requires
        by_markers(jail),
        silent(before, waiting),
        made.delta.reasoning_content is None,
    ensures
        silent(released(before, made, jail), waiting),
{
}

/// What stands behind parsed text reasons nothing.
proof fn lemma_trailed_silent(
    before: Processed,
    choice: ChatChoiceStreamView,
    trailing: Seq<char>,
    waiting: ChoiceJailStateView,
    jail: JailedStreamView,
    facts: ParserFactsView,
)
    requires
        by_markers(jail),
        silent(before, waiting),
    ensures
        trailed(before, choice, jail, trailing, facts) matches Ok(after) ==> silent(after, waiting),
{
}

/// Text of a jailed choice reasons nothing.
proof fn lemma_jailed_silent(
    before: ChoiceJailStateView,
    choice: ChatChoiceStreamView,
    content: Seq<char>,
    jail: JailedStreamView,
    facts: ParserFactsView,
)
    requires
        by_markers(jail),
    ensures
        jailed_text(before, choice, content, jail, facts) matches Ok(after) ==> silent(
            after,
            before,
        ),
{
    let waiting = before;
    let all = before.accumulated_content + content;
    let logprobs = logprobs_joined(before.accumulated_logprobs, choice.logprobs);
    let grown = Processed {
        state: ChoiceJailStateView {
            accumulated_content: all,
            accumulated_logprobs: logprobs,
            ..before
        },
        emissions: Seq::empty(),
    };
    if let Ok((true, split)) = ends_jail(jail, all, facts) {
        let text = all.subrange(0, split);
        let count = before.emitted_tool_calls_count as int;
        if let Ok(first) = call_choice(jail, choice.index, text, choice, count, false, facts) {
            let made = ChatChoiceStreamView { logprobs, ..first };
            lemma_released_silent(grown, made, waiting, jail);
            let out = released(grown, made, jail);
            lemma_trailed_silent(
                Processed { state: out.state.unjailed(), ..out },
                choice,
                all.subrange(split, all.len() as int),
                waiting,
                jail,
                facts,
            );
        }
    }
}

/// Text of a choice that is not jailed reasons nothing.
proof fn lemma_free_silent(
    before: ChoiceJailStateView,
    choice: ChatChoiceStreamView,
    content: Seq<char>,
    jail: JailedStreamView,
    facts: ParserFactsView,
)
    requires
        by_markers(jail),
    ensures
        free_text(before, choice, content, jail, facts) matches Ok(after) ==> silent(
            after,
            before,
        ),
{
    let waiting = before;
    if let Some(MatchResultView::Complete { prefix, marker, suffix }) = marker_answer(
        facts.markers,
        content,
        before.partial_match_buffer,
    ) {
        let full = marker + suffix;
        let start = Processed {
            state: before,
            emissions: prefix_emitted(before, choice, jail, prefix),
        };
        if let Ok((true, split)) = ends_jail(jail, full, facts) {
            let text = full.subrange(0, split);
            let count = before.emitted_tool_calls_count as int;
            if let Ok(made) = call_choice(jail, choice.index, text, choice, count, false, facts) {
                lemma_released_silent(start, made, waiting, jail);
                lemma_trailed_silent(
                    released(start, made, jail),
                    choice,
                    full.subrange(split, full.len() as int),
                    waiting,
                    jail,
                    facts,
                );
            }
        }
    }
}

/// A jail that waits for markers reasons nothing of its own.
proof fn lemma_no_reasoning(
    before: ChoiceJailStateView,
    choice: ChatChoiceStreamView,
    content: Seq<char>,
    jail: JailedStreamView,
    facts: ParserFactsView,
    done: Processed,
)
    requires
        by_markers(jail),
        processed(before, choice, content, jail, facts) == Ok::<Processed, ParserQueryView>(done),
    ensures
        silent(done, before),
{
    reveal(processed);
    let after = if before.is_jailed {
        lemma_jailed_silent(before, choice, content, jail, facts);
        jailed_text(before, choice, content, jail, facts)->Ok_0
    } else {
        lemma_free_silent(before, choice, content, jail, facts);
        free_text(before, choice, content, jail, facts)->Ok_0
    };
    assert forall|i: int| 0 <= i < done.emissions.len() implies (
    #[trigger] done.emissions[i]).choice().delta.reasoning_content is None by {
        if after.emissions.len() > 0 {
            assert(after.emissions[i].choice().delta.reasoning_content is None);
        }
    }
}

/// Emissions without reasoning reason nothing.
proof fn lemma_silent(emissions: Seq<ChoiceEmissionView>, from: int)
    requires
        0 <= from <= emissions.len(),
        forall|i: int|
            from <= i < emissions.len() ==> (
            #[trigger] emissions[i]).choice().delta.reasoning_content is None,
    ensures
        reasoned(emissions) == reasoned(emissions.subrange(0, from)),
    decreases emissions.len(),
{
    if from < emissions.len() {
        let front = emissions.drop_last();
        lemma_silent(front, from);
        assert(front.subrange(0, from) =~= emissions.subrange(0, from));
        assert(reasoned(emissions) =~= reasoned(front));
    } else {
        assert(emissions.subrange(0, from) =~= emissions);
    }
}

/// A choice that comes with text loses none of it where a jail waits for markers, whatever
/// came before and whatever other choices there are; nor is any of its reasoning lost: it
/// leaves with the first that leaves, behind the reasoning that waited. How the choice
/// ended, if it did, is remembered.
pub proof fn law_a_choice_loses_no_text(
    run: JailRunView,
    choice: ChatChoiceStreamView,
    text: Seq<char>,
    response: AnnotatedView,
    jail: JailedStreamView,
    facts: ParserFactsView,
    after: JailRunView,
) -> (parts: Parts)
    requires
        run.wf(),
        by_markers(jail),
        facts.wf(),
        choice.delta.tool_calls is None || choice.delta.tool_calls->0.len() == 0,
        choice.delta.content == Some(ChatCompletionMessageContentView::Text(text)),
        settled(state_for(run, choice.index)),
        !state_for(run, choice.index).is_jailed ==> matcher_is_right(
            state_for(run, choice.index),
            text,
            jail,
            facts,
        ),
        choice_processed(run, choice, response, jail, facts) == Ok::<JailRunView, ParserQueryView>(
            after,
        ),
    ensures
        ({
            let before = state_for(run, choice.index);
            let now = state_for(after, choice.index);
            let n = run.all_emissions.len() as int;
            let new = after.all_emissions.subrange(n, after.all_emissions.len() as int);
            &&& n <= after.all_emissions.len()
            &&& after.all_emissions.subrange(0, n) == run.all_emissions
            &&& accounted(
                parts,
                before,
                choice,
                text,
                Processed { state: now, emissions: new },
                jail,
                facts,
            )
            &&& reasoned(new) + given(now.pending_reasoning_content) == given(
                before.pending_reasoning_content,
            ) + given(choice.delta.reasoning_content)
            &&& new.len() > 0 ==> given(now.pending_reasoning_content).len() == 0
            &&& now.stream_finish_reason == choice.finish_reason
        }),
{
    let states = with_state(run.choice_states.states, choice.index, false);
    let p = state_position(run.choice_states.states, choice.index);
    lemma_state_for(run, choice.index);
    let kept = state_for(run, choice.index);
    let before = text_state(kept, choice);
    let done = processed(before, choice, text, jail, facts)->Ok_0;
    let parts = law_no_text_is_lost(before, choice, text, done, jail, facts);
    lemma_no_reasoning(before, choice, text, jail, facts, done);
    law_states_stay_sorted(run.choice_states.states, choice.index, false);
    lemma_processed_index(before, choice, text, jail, facts);
    let out = reasoning_released(done);
    let put = ChoiceJailStateView { terminate_after_tool_call: false, ..out.state };
    lemma_state_put(run, choice.index, put, after);
    let n = run.all_emissions.len() as int;
    let new = after.all_emissions.subrange(n, after.all_emissions.len() as int);
    assert(new =~= out.emissions);
    assert(after.all_emissions.subrange(0, n) =~= run.all_emissions);
    assert forall|i: int| 0 <= i < new.len() implies {
        let (a, b) = (#[trigger] new[i], done.emissions[i]);
        &&& a.choice().delta.content == b.choice().delta.content
        &&& a.choice().delta.tool_calls == b.choice().delta.tool_calls
        &&& a.choice().delta.role == b.choice().delta.role
        &&& (a is PassThrough) == (b is PassThrough)
        &&& (a is ToolCall) == (b is ToolCall)
        &&& (a is Content) == (b is Content)
        &&& (a is Trailing) == (b is Trailing)
    } by {}
    if new.len() > 0 {
        assert forall|i: int| 1 <= i < new.len() implies (
        #[trigger] new[i]).choice().delta.reasoning_content is None by {
            assert(new[i] == done.emissions[i]);
        }
        lemma_silent(new, 1);
        let first = new.subrange(0, 1);
        assert(first.drop_last() =~= Seq::<ChoiceEmissionView>::empty());
        assert(reasoned(first.drop_last()) =~= Seq::<char>::empty());
        assert(done.emissions[0].choice().delta.reasoning_content is None);
        assert(reasoned(new) =~= given(new[0].choice().delta.reasoning_content));
        assert(given(new[0].choice().delta.reasoning_content) =~= given(
            before.pending_reasoning_content,
        ));
    }
    assert(given(before.pending_reasoning_content) =~= given(kept.pending_reasoning_content)
        + given(choice.delta.reasoning_content));
    assert(reasoned(new) + given(out.state.pending_reasoning_content) =~= given(
        before.pending_reasoning_content,
    ));
    parts
}

/// A choice that brings no text to look through is passed on as it came: one with tool
/// calls always, another unless its text is held back and it says nothing but how it
/// ended. What is remembered of it changes in nothing but the finish reason.
pub proof fn law_other_choices_pass(
    run: JailRunView,
    choice: ChatChoiceStreamView,
    response: AnnotatedView,
    jail: JailedStreamView,
    facts: ParserFactsView,
)
    requires
        run.wf(),
        jail.jail_mode is MarkerBased,
        (choice.delta.tool_calls is Some && choice.delta.tool_calls->0.len() > 0)
            || choice.delta.content is None,
    ensures
        choice_processed(run, choice, response, jail, facts) matches Ok(after) && {
            let before = state_for(run, choice.index);
            let now = state_for(after, choice.index);
            let waits = choice.delta.tool_calls is None && choice.delta.role is None && (
            before.is_jailed || before.accumulated_content.len() > 0);
            &&& after.all_emissions == if waits {
                run.all_emissions
            } else {
                run.all_emissions.push(ChoiceEmissionView::PassThrough(choice))
            }
            &&& now == (ChoiceJailStateView {
                stream_finish_reason: if choice.finish_reason is Some {
                    choice.finish_reason
                } else {
                    before.stream_finish_reason
                },
                ..before
            })
        },
{
    let p = state_position(run.choice_states.states, choice.index);
    lemma_state_for(run, choice.index);
    lemma_state_position(run.choice_states.states, choice.index);
    law_states_stay_sorted(run.choice_states.states, choice.index, false);
    let after = choice_passed(run, choice);
    let before = state_for(run, choice.index);
    lemma_state_put(run, choice.index, finish_noted(before, choice.finish_reason), after);
    let done = choice_processed(run, choice, response, jail, facts)->Ok_0;
    assert(done.choice_states.states == after.choice_states.states);
    assert(state_for(done, choice.index) == state_for(after, choice.index));
    assert(after.choice_states.states[p] == finish_noted(before, choice.finish_reason));
}

/// Where a stream ends while text is jailed, the text is answered: the calls in it leave,
/// or the text does, with the log-probabilities and the reasoning that waited, and with how
/// the choice ended. Where nothing is jailed, nothing leaves.
pub proof fn law_the_end_answers_what_is_held(
    state: ChoiceJailStateView,
    jail: JailedStreamView,
    facts: ParserFactsView,
    last: ChoiceJailStateView,
    emission: Option<ChoiceEmissionView>,
)
    requires
        by_markers(jail),
        settled(state),
        finalized(state, jail, facts) == Ok::<
            (ChoiceJailStateView, Option<ChoiceEmissionView>),
            ParserQueryView,
        >((last, emission)),
    ensures
        state.is_jailed && state.accumulated_content.len() > 0 <==> emission is Some,
        emission is None ==> last == state,
        emission matches Some(e) ==> {
            &&& answers(
                e,
                state.accumulated_content,
                state.emitted_tool_calls_count as int,
                true,
                jail,
                facts,
            )
            &&& e.choice().index == state.index
            &&& e.choice().logprobs == state.accumulated_logprobs
            &&& e.choice().delta.reasoning_content == state.pending_reasoning_content
            &&& e.choice().delta.role == Some(Role::Assistant)
            &&& e.choice().finish_reason == if e is ToolCall {
                Some(FinishReason::ToolCalls)
            } else {
                state.stream_finish_reason
            }
            &&& !last.is_jailed
            &&& last.accumulated_content.len() == 0
            &&& last.pending_reasoning_content is None
        },
{
    if let Some(e) = emission {
        let count = state.emitted_tool_calls_count as int;
        let base = text_choice(
            state.index,
            Some(Role::Assistant),
            state.accumulated_content,
            None,
            state.stream_finish_reason,
            state.accumulated_logprobs,
        );
        let made = call_choice(
            jail,
            state.index,
            state.accumulated_content,
            base,
            count,
            true,
            facts,
        )->Ok_0;
        lemma_choice_answers(
            e,
            made,
            state.index,
            state.accumulated_content,
            base,
            count,
            true,
            jail,
            facts,
        );
    }
}

/// What is there, in its order.
pub open spec fn present(items: Seq<Option<ChoiceEmissionView>>) -> Seq<ChatChoiceStreamView>
    decreases items.len(),
{
    if items.len() == 0 {
        Seq::empty()
    } else {
        match items.last() {
            Some(item) => present(items.drop_last()).push(item.choice()),
            None => present(items.drop_last()),
        }
    }
}

/// The end of a stream lets go of every choice that came, in the order of their indices,
/// in chunks that say the same of the stream as the last chunk that came.
pub proof fn law_the_end_lets_go_of_everything(
    run: JailRunView,
    jail: JailedStreamView,
    facts: Seq<ParserFactsView>,
    done: Passed,
) -> (ends: Seq<Option<ChoiceEmissionView>>)
    requires
        stream_ended(run, jail, facts) == Ok::<Passed, (int, ParserQueryView)>(done),
    ensures
        done.over,
        ends.len() == run.choice_states.states.len(),
        forall|i: int|
            0 <= i < ends.len() ==> (finalized(
                #[trigger] run.choice_states.states[i],
                jail,
                if i < facts.len() {
                    facts[i]
                } else {
                    ParserFactsView::none()
                },
            ) matches Ok((_, emission)) && ends[i] == emission),
        brought(done.chunks) == present(ends),
        forall|i: int|
            0 <= i < done.chunks.len() ==> {
                let chunk = #[trigger] done.chunks[i];
                &&& chunk.data is Some
                &&& chunk.data->0.inner.id == run.last_stream_id
                &&& chunk.data->0.inner.model == run.last_stream_model
                &&& chunk.data->0.inner.created == run.last_stream_created
                &&& chunk.data->0.inner.object == "chat.completion.chunk"@
                &&& chunk.data->0.inner.usage is None
                &&& chunk.error is None
            },
{
    let begun = JailRunView { all_emissions: Seq::empty(), ..run };
    let n = run.choice_states.states.len() as int;
    let ends = lemma_ends(begun, n, jail, facts);
    let after = choices_finalized(begun, n, jail, facts)->Ok_0;
    lemma_emitted_brought(
        jail.emission_mode,
        after.all_emissions,
        final_base(after),
        after.preserved,
    );
    assert(choices_of(Seq::<ChoiceEmissionView>::empty()) =~= Seq::empty());
    assert(choices_of(begun.all_emissions) + present(ends) =~= present(ends));
    ends
}

/// The choices end one by one.
proof fn lemma_ends(
    run: JailRunView,
    n: int,
    jail: JailedStreamView,
    facts: Seq<ParserFactsView>,
) -> (ends: Seq<Option<ChoiceEmissionView>>)
    requires
        0 <= n <= run.choice_states.states.len(),
        choices_finalized(run, n, jail, facts) is Ok,
    ensures
        ends.len() == n,
        ({
            let after = choices_finalized(run, n, jail, facts)->Ok_0;
            &&& after.last_stream_id == run.last_stream_id
            &&& after.last_stream_model == run.last_stream_model
            &&& after.last_stream_created == run.last_stream_created
            &&& after.preserved == run.preserved
            &&& after.choice_states.states.len() == run.choice_states.states.len()
            &&& choices_of(after.all_emissions) == choices_of(run.all_emissions) + present(ends)
            &&& forall|i: int|
                n <= i < run.choice_states.states.len() ==> after.choice_states.states[i] == (
                #[trigger] run.choice_states.states[i])
        }),
        forall|i: int|
            0 <= i < n ==> (finalized(
                #[trigger] run.choice_states.states[i],
                jail,
                facts_at(facts, i),
            ) matches Ok((_, emission)) && ends[i] == emission),
    decreases n,
{
    if n == 0 {
        assert(choices_of(run.all_emissions) + Seq::<ChatChoiceStreamView>::empty() =~= choices_of(
            run.all_emissions,
        ));
        Seq::empty()
    } else {
        let front = lemma_ends(run, n - 1, jail, facts);
        let before = choices_finalized(run, n - 1, jail, facts)->Ok_0;
        let state = run.choice_states.states[n - 1];
        assert(before.choice_states.states[n - 1] == state);
        let end = finalized(state, jail, facts_at(facts, n - 1))->Ok_0.1;
        let ends = front.push(end);
        let after = choices_finalized(run, n, jail, facts)->Ok_0;
        assert(ends.drop_last() =~= front);
        if let Some(emission) = end {
            assert(choices_of(after.all_emissions) =~= choices_of(before.all_emissions).push(
                emission.choice(),
            ));
            assert(choices_of(run.all_emissions) + present(ends) =~= (choices_of(run.all_emissions)
                + present(front)).push(emission.choice()));
        }
        ends
    }
}

/// The chunk has the annotations.
pub open spec fn annotated(chunk: AnnotatedView, metadata: StreamMetadataView) -> bool {
    &&& chunk.id == metadata.id
    &&& chunk.event == metadata.event
    &&& chunk.comment == metadata.comment
}

/// The chunks for emissions have the annotations that are given for them.
proof fn lemma_emitted_annotated(
    mode: EmissionMode,
    emissions: Seq<ChoiceEmissionView>,
    base: NvCreateChatCompletionStreamResponseView,
    metadata: StreamMetadataView,
)
    ensures
        forall|i: int|
            0 <= i < emitted(mode, emissions, base, metadata).len() ==> annotated(
                #[trigger] emitted(mode, emissions, base, metadata)[i],
                metadata,
            ),
{
}

/// What became of parsed text, and the text behind it, leaves with the annotations of the
/// chunk that started the jail; what is passed through, and the news that a choice is
/// complete, with those of the chunk that came.
pub proof fn law_annotations_come_along(
    run: JailRunView,
    response: AnnotatedView,
    data: NvCreateChatCompletionStreamResponseView,
    jail: JailedStreamView,
    facts: Seq<ParserFactsView>,
    done: Passed,
) -> (n: int)
    requires
        response.data == Some(data),
        data.inner.choices.len() > 0,
        !run.waiting_for_usage_after_terminal,
        response_processed(run, response, jail, facts) == Ok::<Passed, (int, ParserQueryView)>(
            done,
        ),
    ensures
        ({
            let all = done.run.all_emissions;
            let answers = picked(all, |e: ChoiceEmissionView| is_answer(e));
            let trailing = picked(all, |e: ChoiceEmissionView| e is Trailing);
            let over = done.over || done.run.waiting_for_usage_after_terminal;
            &&& 0 <= n <= done.chunks.len()
            &&& brought(done.chunks.subrange(0, n)) == if over {
                answers
            } else {
                answers + trailing
            }
            &&& forall|i: int|
                0 <= i < n ==> annotated(#[trigger] done.chunks[i], done.run.preserved)
            &&& forall|i: int|
                n <= i < done.chunks.len() ==> {
                    let chunk = #[trigger] done.chunks[i];
                    &&& chunk.id == response.id
                    &&& chunk.event == response.event
                    &&& chunk.comment == response.comment
                }
        }),
{
    let after = choices_processed(
        run.begun(data),
        data.inner.choices,
        data.inner.choices.len() as int,
        response,
        jail,
        facts,
    )->Ok_0;
    lemma_still_going(
        run.begun(data),
        data.inner.choices,
        data.inner.choices.len() as int,
        response,
        jail,
        facts,
    );
    let all = after.all_emissions;
    let mode = jail.emission_mode;
    let metadata = metadata_of(response);
    let (one, two, three) = (
        in_lane(all, Lane::Calls),
        in_lane(all, Lane::Trailing),
        in_lane(all, Lane::PassThrough),
    );
    let a = emitted(mode, one, data, after.preserved);
    let b = emitted(mode, two, data, after.preserved);
    let c = emitted(mode, three, data, metadata);
    lemma_lane_picked(all, Lane::Calls, |e: ChoiceEmissionView| is_answer(e));
    lemma_lane_picked(all, Lane::Trailing, |e: ChoiceEmissionView| e is Trailing);
    lemma_emitted_brought(mode, one, data, after.preserved);
    lemma_emitted_brought(mode, two, data, after.preserved);
    lemma_emitted_annotated(mode, one, data, after.preserved);
    lemma_emitted_annotated(mode, two, data, after.preserved);
    lemma_emitted_annotated(mode, three, data, metadata);
    if ending_indices(after, jail).len() > 0 {
        assert(done.chunks.subrange(0, a.len() as int) =~= a);
        assert forall|i: int| 0 <= i < a.len() implies annotated(
            #[trigger] done.chunks[i],
            done.run.preserved,
        ) by {
            assert(done.chunks[i] == a[i]);
        }
        a.len() as int
    } else {
        lemma_brought_join(a, b);
        let n = (a + b).len() as int;
        assert(done.chunks.subrange(0, n) =~= a + b);
        assert forall|i: int| 0 <= i < n implies annotated(
            #[trigger] done.chunks[i],
            done.run.preserved,
        ) by {
            if i < a.len() {
                assert(done.chunks[i] == a[i]);
            } else {
                assert(done.chunks[i] == b[i - a.len()]);
            }
        }
        assert forall|i: int| n <= i < done.chunks.len() implies annotated(
            #[trigger] done.chunks[i],
            metadata,
        ) by {
            assert(done.chunks[i] == c[i - n]);
        }
        n
    }
}

/// The annotations of the first chunk that starts a jail are kept: once one with an
/// identifier is kept it stays, and before, a chunk with text that starts a jail, of a
/// choice that is not jailed, puts its own in place; any other leaves them.
pub proof fn law_the_first_annotations_stay(
    run: JailRunView,
    choice: ChatChoiceStreamView,
    text: Seq<char>,
    response: AnnotatedView,
    jail: JailedStreamView,
    facts: ParserFactsView,
    after: JailRunView,
)
    requires
        run.wf(),
        jail.jail_mode is MarkerBased,
        choice.delta.tool_calls is None || choice.delta.tool_calls->0.len() == 0,
        choice.delta.content == Some(ChatCompletionMessageContentView::Text(text)),
        choice_processed(run, choice, response, jail, facts) == Ok::<JailRunView, ParserQueryView>(
            after,
        ),
    ensures
        run.preserved.id is Some || state_for(run, choice.index).is_jailed ==> after.preserved
            == run.preserved,
        run.preserved.id is None && !state_for(run, choice.index).is_jailed ==> {
            let starts = starts_jail(jail, text, facts);
            &&& starts is Ok
            &&& starts->Ok_0 ==> after.preserved.id == response.id && after.preserved.event
                == response.event && after.preserved.comment == response.comment
            &&& !starts->Ok_0 ==> after.preserved == run.preserved
        },
{
    lemma_state_for(run, choice.index);
}

} // verus!
