//! Jailing a stream, chunk by chunk.
//!
//! The stream itself is read and written by the caller: each chunk that arrives goes
//! through [`JailRun::process_response`], and when the stream ends
//! [`JailRun::end_stream`] gives the chunks that are still held back. Where the answer
//! of a parser is missing nothing changes, and the question is returned with the
//! position of the choice that it is about; the call is made again with the answer.

use crate::chat_types::{
    Annotated, AnnotatedView, ChatChoiceStream, ChatChoiceStreamView,
    ChatCompletionMessageContent, ChatCompletionMessageContentView,
    NvCreateChatCompletionStreamResponse,
};
use crate::copy::{no_items, one_item, Duplicate};
use crate::jail_state::{
    lemma_processed_index, processed, ChoiceJailState, ChoiceJailStateView,
};
use crate::jail_stream::{
    choice_finalized, choice_processed, emitted, ending_indices, final_base, law_states_stay_sorted,
    lemma_state_position, response_chunks, state_position, text_in, text_state, with_state,
    ChoiceJailStateCollection, JailRun, JailRunView, ResponseStep,
};
use crate::jail_types::{JailedStream, JailedStreamView};
use crate::parser_facts::{ParserFacts, ParserFactsView, ParserQuery, ParserQueryView};
use crate::poolside::{
    lemma_less_room, lemma_run_wf, lemma_start_room, start_run, PoolsideV1StreamState,
    PoolsideV1StreamStateView, TOOL_CALL_START,
};
use crate::text::{join, lemma_fewer_occurrences};
use vstd::prelude::*;

verus! {

/// The text that choices bring for the choice `index`.
pub open spec fn text_for(choices: Seq<ChatChoiceStreamView>, index: u32) -> Seq<char>
    decreases choices.len(),
{
    if choices.len() == 0 {
        Seq::empty()
    } else {
        (if choices[0].index == index {
            text_in(choices[0])
        } else {
            Seq::empty()
        }) + text_for(choices.subrange(1, choices.len() as int), index)
    }
}

/// The markup parsers can number the tool calls in the text of the choices.
pub open spec fn room(
    run: JailRunView,
    choices: Seq<ChatChoiceStreamView>,
    jail: JailedStreamView,
) -> bool {
    jail.parses_markup() ==> {
        &&& forall|i: int|
            0 <= i < run.choice_states.states.len() ==> (
            #[trigger] run.choice_states.states[i]).has_room(
                text_for(choices, run.choice_states.states[i].index),
            )
        &&& forall|j: int|
            0 <= j < choices.len() ==> PoolsideV1StreamStateView::initial().has_room(
                text_for(choices, (#[trigger] choices[j]).index),
            )
    }
}

/// The answers about a choice: none where none are given.
pub open spec fn facts_at(facts: Seq<ParserFactsView>, i: int) -> ParserFactsView {
    if 0 <= i < facts.len() {
        facts[i]
    } else {
        ParserFactsView::none()
    }
}

/// The first `n` choices of a chunk in turn.
pub open spec fn choices_processed(
    run: JailRunView,
    choices: Seq<ChatChoiceStreamView>,
    n: int,
    response: AnnotatedView,
    jail: JailedStreamView,
    facts: Seq<ParserFactsView>,
) -> Result<JailRunView, (int, ParserQueryView)>
    decreases n,
{
    if n <= 0 {
        Ok(run)
    } else {
        match choices_processed(run, choices, n - 1, response, jail, facts) {
            Err(missing) => Err(missing),
            Ok(front) => match choice_processed(
                front,
                choices[n - 1],
                response,
                jail,
                facts_at(facts, n - 1),
            ) {
                Err(query) => Err((n - 1, query)),
                Ok(after) => Ok(after),
            },
        }
    }
}

/// What a chunk leads to: what is remembered, the chunks that leave, and whether the
/// stream is over.
#[verifier::ext_equal]
pub struct Passed {
    pub run: JailRunView,
    pub chunks: Seq<AnnotatedView>,
    pub over: bool,
}

/// What a chunk leads to. One without choices passes as it is; after a stream is over
/// only its usage passes.
pub open spec fn response_processed(
    run: JailRunView,
    response: AnnotatedView,
    jail: JailedStreamView,
    facts: Seq<ParserFactsView>,
) -> Result<Passed, (int, ParserQueryView)> {
    match response.data {
        None => Ok(Passed { run, chunks: seq![response], over: false }),
        Some(data) => {
            let begun = run.begun(data);
            match run.step_for(data) {
                ResponseStep::PassOn => Ok(
                    Passed { run: begun, chunks: seq![response], over: false },
                ),
                ResponseStep::PassOnAndStop => Ok(
                    Passed { run: begun, chunks: seq![response], over: true },
                ),
                ResponseStep::Skip => Ok(
                    Passed { run: begun, chunks: Seq::empty(), over: false },
                ),
                ResponseStep::Choices => match choices_processed(
                    begun,
                    data.inner.choices,
                    data.inner.choices.len() as int,
                    response,
                    jail,
                    facts,
                ) {
                    Err(missing) => Err(missing),
                    Ok(after) => {
                        let ends = ending_indices(after, jail).len() > 0;
                        Ok(
                            Passed {
                                run: JailRunView {
                                    waiting_for_usage_after_terminal:
                                        after.waiting_for_usage_after_terminal || (ends
                                        && jail.defer_terminal_until_usage),
                                    ..after
                                },
                                chunks: response_chunks(after, data, response, jail),
                                over: ends && !jail.defer_terminal_until_usage,
                            },
                        )
                    },
                },
            }
        },
    }
}

/// The end of the stream for the first `n` choices that came.
pub open spec fn choices_finalized(
    run: JailRunView,
    n: int,
    jail: JailedStreamView,
    facts: Seq<ParserFactsView>,
) -> Result<JailRunView, (int, ParserQueryView)>
    decreases n,
{
    if n <= 0 {
        Ok(run)
    } else {
        match choices_finalized(run, n - 1, jail, facts) {
            Err(missing) => Err(missing),
            Ok(front) => match choice_finalized(front, n - 1, jail, facts_at(facts, n - 1)) {
                Err(query) => Err((n - 1, query)),
                Ok(after) => Ok(after),
            },
        }
    }
}

/// What the end of the stream leads to.
pub open spec fn stream_ended(
    run: JailRunView,
    jail: JailedStreamView,
    facts: Seq<ParserFactsView>,
) -> Result<Passed, (int, ParserQueryView)> {
    match choices_finalized(
        JailRunView { all_emissions: Seq::empty(), ..run },
        run.choice_states.states.len() as int,
        jail,
        facts,
    ) {
        Err(missing) => Err(missing),
        Ok(after) => Ok(
            Passed {
                run: after,
                chunks: emitted(
                    jail.emission_mode,
                    after.all_emissions,
                    final_base(after),
                    after.preserved,
                ),
                over: true,
            },
        ),
    }
}

/// Text that is parsed leaves room for the text that follows it.
proof fn lemma_processed_room(
    state: ChoiceJailStateView,
    choice: ChatChoiceStreamView,
    content: Seq<char>,
    jail: JailedStreamView,
    facts: ParserFactsView,
    more: Seq<char>,
)
    requires
        state.wf(),
        jail.parses_markup(),
        state.has_room(content + more),
    ensures
        processed(state, choice, content, jail, facts) matches Ok(done) ==> done.state.has_room(
            more,
        ),
{
    reveal(processed);
    let held = state.poolside_v1_state;
    lemma_start_room(held, content, more);
    lemma_run_wf(start_run(held, content), jail.tool_definitions, facts, more);
}

/// A choice changes at most its own state, and leaves room for the text that follows.
proof fn lemma_changed_room(
    run: JailRunView,
    choice: ChatChoiceStreamView,
    response: AnnotatedView,
    jail: JailedStreamView,
    facts: ParserFactsView,
    more: Seq<char>,
)
    requires
        run.wf(),
        jail.parses_markup(),
        run.has_room(choice.index, text_in(choice) + more),
    ensures
        choice_processed(run, choice, response, jail, facts) matches Ok(after) ==> forall|i: int|
            0 <= i < after.choice_states.states.len() ==> {
                let state = #[trigger] after.choice_states.states[i];
                if state.index == choice.index {
                    state.has_room(more)
                } else {
                    run.choice_states.states.contains(state)
                }
            },
{
    let index = choice.index;
    let text = text_in(choice);
    let states = run.choice_states.states;
    let p = state_position(states, index);
    let plain = with_state(states, index, false);
    lemma_state_position(states, index);
    law_states_stay_sorted(states, index, false);
    assert(plain[p].wf() && plain[p].has_room(text + more));
    if text.len() == 0 {
        assert(text + more =~= more);
    }
    if let Ok(after) = choice_processed(run, choice, response, jail, facts) {
        let changed = after.choice_states.states;
        let has_calls = choice.delta.tool_calls matches Some(calls) && calls.len() > 0;
        if !has_calls && choice.delta.content matches Some(
            ChatCompletionMessageContentView::Parts(_),
        ) {
            assert forall|i: int| 0 <= i < changed.len() implies states.contains(
                #[trigger] changed[i],
            ) && (changed[i].index == index ==> changed[i].has_room(more)) by {
                assert(changed[i] == states[i]);
            }
        } else {
            lemma_processed_room(text_state(plain[p], choice), choice, text, jail, facts, more);
            lemma_processed_index(text_state(plain[p], choice), choice, text, jail, facts);
            assert(changed[p].index == index && changed[p].has_room(more));
            assert forall|i: int| 0 <= i < changed.len() && i != p implies states.contains(
                #[trigger] changed[i],
            ) && changed[i].index != index by {
                assert(changed[i] == plain[i]);
                if plain.len() == states.len() || i < p {
                    assert(plain[i] == states[i]);
                } else {
                    assert(plain[i] == states[i - 1]);
                }
            }
        }
    }
}

/// A choice leaves room for the text of those that follow it.
proof fn lemma_choice_room(
    run: JailRunView,
    choices: Seq<ChatChoiceStreamView>,
    response: AnnotatedView,
    jail: JailedStreamView,
    facts: ParserFactsView,
)
    requires
        run.wf(),
        choices.len() > 0,
        jail.parses_markup(),
        room(run, choices, jail),
    ensures
        run.has_room(choices[0].index, text_in(choices[0])),
        choice_processed(run, choices[0], response, jail, facts) matches Ok(after) ==> room(
            after,
            choices.subrange(1, choices.len() as int),
            jail,
        ),
{
    let index = choices[0].index;
    let rest = choices.subrange(1, choices.len() as int);
    let states = run.choice_states.states;
    let text = text_in(choices[0]);
    let more = text_for(rest, index);
    assert(text_for(choices, index) == text + more);
    assert forall|x: u32| x != index implies #[trigger] text_for(choices, x) == text_for(
        rest,
        x,
    ) by {
        assert(Seq::<char>::empty() + text_for(rest, x) =~= text_for(rest, x));
    }
    lemma_less_room(PoolsideV1StreamStateView::initial(), text, more);
    assert forall|i: int| 0 <= i < states.len() && (#[trigger] states[i]).index
        == index implies states[i].has_room(text) by {
        lemma_less_room(states[i].poolside_v1_state, text, more);
    }
    lemma_changed_room(run, choices[0], response, jail, facts, more);
    if let Ok(after) = choice_processed(run, choices[0], response, jail, facts) {
        assert forall|i: int| 0 <= i < after.choice_states.states.len() implies (
        #[trigger] after.choice_states.states[i]).has_room(
            text_for(rest, after.choice_states.states[i].index),
        ) by {
            let state = after.choice_states.states[i];
            if state.index != index {
                let k = choose|k: int| 0 <= k < states.len() && states[k] == state;
                assert(states[k].has_room(text_for(choices, states[k].index)));
            }
        }
        assert forall|j: int| 0 <= j < rest.len() implies PoolsideV1StreamStateView::initial()
            .has_room(text_for(rest, (#[trigger] rest[j]).index)) by {
            assert(rest[j] == choices[j + 1]);
            if rest[j].index == index {
                lemma_later_room(PoolsideV1StreamStateView::initial(), text, more);
            }
        }
    }
}

/// The text that follows needs no more room than all text, before any text came.
proof fn lemma_later_room(state: PoolsideV1StreamStateView, a: Seq<char>, b: Seq<char>)
    requires
        state.buffer.len() == 0,
    ensures
        state.calls_with(b) <= state.calls_with(a + b),
{
    let all = state.buffer + (a + b);
    assert(all =~= a + b);
    assert(state.buffer + b =~= all.subrange(a.len() as int, all.len() as int));
    lemma_fewer_occurrences(all, TOOL_CALL_START@, a.len() as int);
}

/// A question that is open stays open, whatever choices follow.
proof fn lemma_choices_missing(
    run: JailRunView,
    choices: Seq<ChatChoiceStreamView>,
    i: int,
    n: int,
    response: AnnotatedView,
    jail: JailedStreamView,
    facts: Seq<ParserFactsView>,
)
    requires
        0 <= i <= n,
        choices_processed(run, choices, i, response, jail, facts) is Err,
    ensures
        choices_processed(run, choices, n, response, jail, facts) == choices_processed(
            run,
            choices,
            i,
            response,
            jail,
            facts,
        ),
    decreases n,
{
    if i < n {
        lemma_choices_missing(run, choices, i, n - 1, response, jail, facts);
    }
}

/// A question that is open stays open, whatever choices follow.
proof fn lemma_finalized_missing(
    run: JailRunView,
    i: int,
    n: int,
    jail: JailedStreamView,
    facts: Seq<ParserFactsView>,
)
    requires
        0 <= i <= n,
        choices_finalized(run, i, jail, facts) is Err,
    ensures
        choices_finalized(run, n, jail, facts) == choices_finalized(run, i, jail, facts),
    decreases n,
{
    if i < n {
        lemma_finalized_missing(run, i, n - 1, jail, facts);
    }
}

/// What a chunk leads to, or the question that is open, in which case nothing changed.
pub open spec fn passed_matches(
    r: Result<(Vec<Annotated>, bool), (usize, ParserQuery)>,
    before: JailRunView,
    after: JailRunView,
    expected: Result<Passed, (int, ParserQueryView)>,
) -> bool {
    match (r, expected) {
        (Ok((chunks, over)), Ok(passed)) => chunks.deep_view() == passed.chunks && over
            == passed.over && after == passed.run,
        (Err((i, query)), Err((j, missing))) => i == j && query.deep_view() == missing && after
            == before,
        _ => false,
    }
}

impl JailRun {
    /// A copy without what the choices of the current chunk emit.
    fn begin_copy(&self) -> (r: JailRun)
        ensures
            r.deep_view() == (JailRunView {
                all_emissions: Seq::empty(),
                forced_terminal_indices: Seq::empty(),
                ..self.deep_view()
            }),
    {
        JailRun {
            choice_states: ChoiceJailStateCollection {
                states: self.choice_states.states.duplicate(),
            },
            preserved: self.preserved.duplicate(),
            last_stream_id: self.last_stream_id.clone(),
            last_stream_model: self.last_stream_model.clone(),
            last_stream_created: self.last_stream_created,
            waiting_for_usage_after_terminal: self.waiting_for_usage_after_terminal,
            all_emissions: no_items(),
            forced_terminal_indices: no_items(),
        }
    }

    /// Processes all the choices of a chunk.
    fn process_choices(
        &mut self,
        response: &Annotated,
        jail_stream: &JailedStream,
        facts: &Vec<ParserFacts>,
    ) -> (r: Result<(), (usize, ParserQuery)>)
        requires
            old(self).deep_view().wf(),
            response.deep_view().data matches Some(data) && room(
                old(self).deep_view(),
                data.inner.choices,
                jail_stream.deep_view(),
            ),
            forall|i: int| 0 <= i < facts@.len() ==> (#[trigger] facts@[i]).deep_view().wf(),
        ensures
            final(self).deep_view().wf(),
            match (
                r,
                choices_processed(
                    old(self).deep_view(),
                    response.deep_view().data->0.inner.choices,
                    response.deep_view().data->0.inner.choices.len() as int,
                    response.deep_view(),
                    jail_stream.deep_view(),
                    facts.deep_view(),
                ),
            ) {
                (Ok(_), Ok(after)) => final(self).deep_view() == after,
                (Err((i, query)), Err((j, missing))) => i == j && query.deep_view() == missing,
                _ => false,
            },
    {
        let ghost before = self.deep_view();
        let ghost all = response.deep_view().data->0.inner.choices;
        let ghost jail = jail_stream.deep_view();
        match &response.data {
            None => Ok(()),
            Some(data) => {
                let nothing: ParserFacts = ParserFacts::new();
                let mut i: usize = 0;
                assert(all.subrange(0, all.len() as int) =~= all);
                while i < data.inner.choices.len()
                    invariant
                        response.deep_view().data == Some(data.deep_view()),
                        all == data.deep_view().inner.choices,
                        all.len() == data.inner.choices@.len(),
                        jail == jail_stream.deep_view(),
                        before == old(self).deep_view(),
                        i <= all.len(),
                        self.deep_view().wf(),
                        nothing.deep_view() == ParserFactsView::none(),
                        nothing.deep_view().wf(),
                        forall|k: int|
                            0 <= k < facts@.len() ==> (#[trigger] facts@[k]).deep_view().wf(),
                        room(self.deep_view(), all.subrange(i as int, all.len() as int), jail),
                        choices_processed(
                            before,
                            all,
                            i as int,
                            response.deep_view(),
                            jail,
                            facts.deep_view(),
                        ) == Ok::<JailRunView, (int, ParserQueryView)>(self.deep_view()),
                    decreases all.len() - i,
                {
                    let ghost rest = all.subrange(i as int, all.len() as int);
                    let ghost here = self.deep_view();
                    let choice_facts: &ParserFacts = if i < facts.len() {
                        &facts[i]
                    } else {
                        &nothing
                    };
                    assert(choice_facts.deep_view() == facts_at(facts.deep_view(), i as int));
                    assert(all[i as int] == data.inner.choices@[i as int].deep_view());
                    proof {
                        assert(rest[0] == all[i as int]);
                        assert(rest.subrange(1, rest.len() as int) =~= all.subrange(
                            i + 1,
                            all.len() as int,
                        ));
                        if jail.parses_markup() {
                            lemma_choice_room(
                                here,
                                rest,
                                response.deep_view(),
                                jail,
                                choice_facts.deep_view(),
                            );
                        }
                    }
                    match self.process_choice(
                        &data.inner.choices[i],
                        response,
                        jail_stream,
                        choice_facts,
                    ) {
                        Ok(_) => {},
                        Err(query) => {
                            proof {
                                lemma_choices_missing(
                                    before,
                                    all,
                                    i + 1,
                                    all.len() as int,
                                    response.deep_view(),
                                    jail,
                                    facts.deep_view(),
                                );
                            }
                            return Err((i, query));
                        },
                    }
                    i += 1;
                }
                Ok(())
            },
        }
    }

    /// A chunk of the stream arrives: the chunks that leave for it, and whether the
    /// stream is over.
    pub fn process_response(
        &mut self,
        response: &Annotated,
        jail_stream: &JailedStream,
        facts: &Vec<ParserFacts>,
    ) -> (r: Result<(Vec<Annotated>, bool), (usize, ParserQuery)>)
        requires
            old(self).deep_view().wf(),
            response.deep_view().data matches Some(data) ==> room(
                old(self).deep_view(),
                data.inner.choices,
                jail_stream.deep_view(),
            ),
            forall|i: int| 0 <= i < facts@.len() ==> (#[trigger] facts@[i]).deep_view().wf(),
        ensures
            final(self).deep_view().wf(),
            passed_matches(
                r,
                old(self).deep_view(),
                final(self).deep_view(),
                response_processed(
                    old(self).deep_view(),
                    response.deep_view(),
                    jail_stream.deep_view(),
                    facts.deep_view(),
                ),
            ),
    {
        let ghost before = self.deep_view();
        if response.data.is_none() {
            return Ok((one_item(response.duplicate()), false));
        }
        let mut next: JailRun = self.begin_copy();
        let ghost begun = before.begun(response.deep_view().data->0);
        let step: ResponseStep = next.begin_response(response);
        assert(next.deep_view() =~= begun);
        let (chunks, over): (Vec<Annotated>, bool) = match step {
            ResponseStep::PassOn => (one_item(response.duplicate()), false),
            ResponseStep::PassOnAndStop => (one_item(response.duplicate()), true),
            ResponseStep::Skip => (no_items(), false),
            ResponseStep::Choices => {
                match next.process_choices(response, jail_stream, facts) {
                    Ok(_) => {},
                    Err(missing) => {
                        return Err(missing);
                    },
                }
                next.finish_response(response, jail_stream)
            },
        };
        *self = next;
        Ok((chunks, over))
    }

    /// The stream ended: the chunks that were still held back.
    pub fn end_stream(&mut self, jail_stream: &JailedStream, facts: &Vec<ParserFacts>) -> (r:
        Result<Vec<Annotated>, (usize, ParserQuery)>)
        requires
            old(self).deep_view().wf(),
        ensures
            final(self).deep_view().wf(),
            match (
                r,
                stream_ended(old(self).deep_view(), jail_stream.deep_view(), facts.deep_view()),
            ) {
                (Ok(chunks), Ok(passed)) => chunks.deep_view() == passed.chunks
                    && final(self).deep_view() == passed.run,
                (Err((i, query)), Err((j, missing))) => i == j && query.deep_view() == missing
                    && final(self).deep_view() == old(self).deep_view(),
                _ => false,
            },
    {
        let ghost old_run = self.deep_view();
        let ghost jail = jail_stream.deep_view();
        let mut next: JailRun = self.begin_copy();
        next.forced_terminal_indices = self.forced_terminal_indices.duplicate();
        let ghost before = next.deep_view();
        assert(before =~= JailRunView { all_emissions: Seq::empty(), ..old_run });
        let nothing: ParserFacts = ParserFacts::new();
        let count: usize = next.choice_states.states.len();
        let mut i: usize = 0;
        while i < count
            invariant
                i <= count,
                count == next.choice_states.states@.len(),
                count == before.choice_states.states.len(),
                jail == jail_stream.deep_view(),
                old_run == self.deep_view(),
                old_run == old(self).deep_view(),
                old_run.wf(),
                before == (JailRunView { all_emissions: Seq::empty(), ..old_run }),
                next.deep_view().wf(),
                nothing.deep_view() == ParserFactsView::none(),
                choices_finalized(before, i as int, jail, facts.deep_view()) == Ok::<
                    JailRunView,
                    (int, ParserQueryView),
                >(next.deep_view()),
            decreases count - i,
        {
            let choice_facts: &ParserFacts = if i < facts.len() {
                &facts[i]
            } else {
                &nothing
            };
            assert(choice_facts.deep_view() == facts_at(facts.deep_view(), i as int));
            let ghost here = next.deep_view();
            match next.finalize_choice(i, jail_stream, choice_facts) {
                Ok(_) => {},
                Err(query) => {
                    proof {
                        lemma_finalized_missing(
                            before,
                            i + 1,
                            count as int,
                            jail,
                            facts.deep_view(),
                        );
                    }
                    return Err((i, query));
                },
            }
            assert(next.deep_view().choice_states.states.len()
                == here.choice_states.states.len());
            assert(next.choice_states.states@.len() == next.deep_view().choice_states.states.len());
            i += 1;
        }
        let chunks: Vec<Annotated> = next.finish_stream(jail_stream);
        *self = next;
        Ok(chunks)
    }

    /// Whether the markup parsers can number the tool calls in the text of a chunk.
    pub fn has_room_for(&self, response: &Annotated, jail_stream: &JailedStream) -> (r: bool)
        ensures
            r == (match response.deep_view().data {
                Some(data) => room(
                    self.deep_view(),
                    data.inner.choices,
                    jail_stream.deep_view(),
                ),
                None => true,
            }),
    {
        let data: &NvCreateChatCompletionStreamResponse = match &response.data {
            Some(data) => data,
            None => {
                return true;
            },
        };
        if !jail_stream.is_poolside_v1_parser() || !jail_stream.poolside_v1_tools_enabled() {
            return true;
        }
        let choices: &Vec<ChatChoiceStream> = &data.inner.choices;
        let ghost all = data.deep_view().inner.choices;
        let ghost states = self.deep_view().choice_states.states;
        assert(all == choices.deep_view());
        let mut p: usize = 0;
        while p < self.choice_states.states.len()
            invariant
                jail_stream.deep_view().parses_markup(),
                response.deep_view().data == Some(data.deep_view()),
                all == data.deep_view().inner.choices,
                all == choices.deep_view(),
                states == self.deep_view().choice_states.states,
                states.len() == self.choice_states.states@.len(),
                p <= states.len(),
                forall|k: int|
                    0 <= k < p ==> (#[trigger] states[k]).has_room(
                        text_for(all, states[k].index),
                    ),
            decreases states.len() - p,
        {
            let state: &ChoiceJailState = &self.choice_states.states[p];
            assert(states[p as int] == state.deep_view());
            let text: String = gather_text(choices, state.index);
            if !state.poolside_v1_state.can_number(text.as_str()) {
                return false;
            }
            p += 1;
        }
        let fresh: PoolsideV1StreamState = PoolsideV1StreamState::initial();
        let mut j: usize = 0;
        while j < choices.len()
            invariant
                jail_stream.deep_view().parses_markup(),
                response.deep_view().data == Some(data.deep_view()),
                all == data.deep_view().inner.choices,
                all == choices.deep_view(),
                all.len() == choices@.len(),
                fresh.deep_view() == PoolsideV1StreamStateView::initial(),
                j <= all.len(),
                forall|k: int|
                    0 <= k < j ==> PoolsideV1StreamStateView::initial().has_room(
                        text_for(all, (#[trigger] all[k]).index),
                    ),
            decreases all.len() - j,
        {
            assert(all[j as int] == choices@[j as int].deep_view());
            let text: String = gather_text(choices, choices[j].index);
            if !fresh.can_number(text.as_str()) {
                return false;
            }
            j += 1;
        }
        true
    }
}

/// The text that choices bring for the choice `index`.
fn gather_text(choices: &Vec<ChatChoiceStream>, index: u32) -> (r: String)
    ensures
        r@ == text_for(choices.deep_view(), index),
{
    let ghost all = choices.deep_view();
    let mut out: String = String::new();
    let mut i: usize = choices.len();
    assert(all.subrange(i as int, all.len() as int) =~= Seq::empty());
    assert(out@ =~= Seq::empty());
    while i > 0
        invariant
            all == choices.deep_view(),
            all.len() == choices@.len(),
            i <= all.len(),
            out@ == text_for(all.subrange(i as int, all.len() as int), index),
        decreases i,
    {
        i -= 1;
        let ghost rest = all.subrange(i as int, all.len() as int);
        let choice: &ChatChoiceStream = &choices[i];
        proof {
            assert(rest[0] == choice.deep_view());
            assert(rest.subrange(1, rest.len() as int) =~= all.subrange(i + 1, all.len() as int));
        }
        let has_calls: bool = match &choice.delta.tool_calls {
            Some(calls) => calls.len() > 0,
            None => false,
        };
        if choice.index == index && !has_calls {
            match &choice.delta.content {
                Some(ChatCompletionMessageContent::Text(text)) => {
                    out = join(text.as_str(), out.as_str());
                },
                _ => {},
            }
        }
        assert(out@ =~= text_for(rest, index));
    }
    assert(all.subrange(0, all.len() as int) =~= all);
    out
}

} // verus!
