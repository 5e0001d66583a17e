//! Jailing a stream of chat-completion chunks.
//!
//! What each choice remembers, what it emits, and the chunks that carry the emissions.

use crate::chat_types::{
    Annotated, AnnotatedView, ChatChoiceStream, ChatChoiceStreamView, ChatCompletionMessageContent,
    ChatCompletionMessageContentView, ChatCompletionStreamResponseDeltaView,
    CreateChatCompletionStreamResponse, CreateChatCompletionStreamResponseView, FinishReason,
    NvCreateChatCompletionStreamResponse, NvCreateChatCompletionStreamResponseView,
};
use crate::copy::{append_items, no_items, one_item, push_item, Duplicate};
use crate::jail_parse::{create_terminal_choice, starts_jail, terminal_choice};
use crate::jail_state::{
    finalized, join_reasoning, lemma_finalized_index, lemma_processed_index, lemma_reasoning_index,
    processed, reasoning_joined, reasoning_processed, ChoiceJailState, ChoiceJailStateView,
    Processed,
};
use crate::jail_types::{
    ChoiceEmission, ChoiceEmissionView, EmissionMode, JailedStream, JailedStreamView,
};
use crate::parser_facts::{ParserFacts, ParserFactsView, ParserQuery, ParserQueryView};
use crate::poolside::PoolsideV1StreamStateView;
use crate::text::join;
use vstd::prelude::*;

verus! {

/// Collection of choice jail states, kept sorted by choice index.
#[derive(Debug, PartialEq, Eq)]
pub struct ChoiceJailStateCollection {
    pub states: Vec<ChoiceJailState>,
}

/// The content of a [`ChoiceJailStateCollection`].
#[verifier::ext_equal]
pub struct ChoiceJailStateCollectionView {
    pub states: Seq<ChoiceJailStateView>,
}

impl DeepView for ChoiceJailStateCollection {
    type V = ChoiceJailStateCollectionView;

    open spec fn deep_view(&self) -> ChoiceJailStateCollectionView {
        ChoiceJailStateCollectionView {
            states: self.states.deep_view(),
        }
    }
}

/// The transport annotations of a chunk.
#[derive(Debug, PartialEq, Eq)]
pub struct StreamMetadata {
    pub id: Option<String>,
    pub event: Option<String>,
    pub comment: Option<Vec<String>>,
}

/// The content of a [`StreamMetadata`].
#[verifier::ext_equal]
pub struct StreamMetadataView {
    pub id: Option<Seq<char>>,
    pub event: Option<Seq<char>>,
    pub comment: Option<Seq<Seq<char>>>,
}

impl DeepView for StreamMetadata {
    type V = StreamMetadataView;

    open spec fn deep_view(&self) -> StreamMetadataView {
        StreamMetadataView {
            id: self.id.deep_view(),
            event: self.event.deep_view(),
            comment: self.comment.deep_view(),
        }
    }
}

impl Duplicate for StreamMetadata {
    fn duplicate(&self) -> (r: Self) {
        StreamMetadata {
            id: self.id.duplicate(),
            event: self.event.duplicate(),
            comment: self.comment.duplicate(),
        }
    }
}

/// What is remembered between the chunks of a jailed stream.
#[derive(Debug, PartialEq, Eq)]
pub struct JailRun {
    pub choice_states: ChoiceJailStateCollection,
    /// The annotations of the chunk that first started a jail.
    pub preserved: StreamMetadata,
    pub last_stream_id: String,
    pub last_stream_model: String,
    pub last_stream_created: u32,
    /// The stream is over but for its usage chunk.
    pub waiting_for_usage_after_terminal: bool,
    /// What the choices of the current chunk emit.
    pub all_emissions: Vec<ChoiceEmission>,
    /// The choices of the current chunk that end here.
    pub forced_terminal_indices: Vec<u32>,
}

/// The content of a [`JailRun`].
#[verifier::ext_equal]
pub struct JailRunView {
    pub choice_states: ChoiceJailStateCollectionView,
    pub preserved: StreamMetadataView,
    pub last_stream_id: Seq<char>,
    pub last_stream_model: Seq<char>,
    pub last_stream_created: u32,
    pub waiting_for_usage_after_terminal: bool,
    pub all_emissions: Seq<ChoiceEmissionView>,
    pub forced_terminal_indices: Seq<u32>,
}

impl DeepView for JailRun {
    type V = JailRunView;

    open spec fn deep_view(&self) -> JailRunView {
        JailRunView {
            choice_states: self.choice_states.deep_view(),
            preserved: self.preserved.deep_view(),
            last_stream_id: self.last_stream_id.deep_view(),
            last_stream_model: self.last_stream_model.deep_view(),
            last_stream_created: self.last_stream_created.deep_view(),
            waiting_for_usage_after_terminal: self.waiting_for_usage_after_terminal.deep_view(),
            all_emissions: self.all_emissions.deep_view(),
            forced_terminal_indices: self.forced_terminal_indices.deep_view(),
        }
    }
}

/// The indices ascend, and every state is consistent.
pub open spec fn states_wf(states: Seq<ChoiceJailStateView>) -> bool {
    &&& forall|i: int, j: int|
        0 <= i < j < states.len() ==> (#[trigger] states[i]).index < (#[trigger] states[j]).index
    &&& forall|i: int| 0 <= i < states.len() ==> (#[trigger] states[i]).wf()
}

/// Where the state of the choice `index` stands, or would stand.
pub open spec fn state_position(states: Seq<ChoiceJailStateView>, index: u32) -> int
    decreases states.len(),
{
    if states.len() == 0 || states[states.len() - 1].index < index {
        states.len() as int
    } else {
        state_position(states.subrange(0, states.len() - 1), index)
    }
}

/// A choice that starts jailed and of which nothing came yet is jailed.
pub open spec fn rejailed(state: ChoiceJailStateView, starts_jailed: bool) -> ChoiceJailStateView {
    if starts_jailed && state.accumulated_content.len() == 0 && state.emitted_tool_calls_count
        == 0 {
        ChoiceJailStateView { is_jailed: true, ..state }
    } else {
        state
    }
}

/// The states with one for the choice `index`.
pub open spec fn with_state(
    states: Seq<ChoiceJailStateView>,
    index: u32,
    starts_jailed: bool,
) -> Seq<ChoiceJailStateView> {
    let p = state_position(states, index);
    if p < states.len() && states[p].index == index {
        states.update(p, rejailed(states[p], starts_jailed))
    } else {
        states.insert(p, ChoiceJailStateView::initial(index, starts_jailed))
    }
}

/// The position splits the states by their index.
pub proof fn lemma_state_position(states: Seq<ChoiceJailStateView>, index: u32)
    requires
        states_wf(states),
    ensures
        0 <= state_position(states, index) <= states.len(),
        forall|i: int|
            0 <= i < state_position(states, index) ==> (#[trigger] states[i]).index < index,
        forall|i: int|
            state_position(states, index) <= i < states.len() ==> (#[trigger] states[i]).index
                >= index,
    decreases states.len(),
{
    if states.len() > 0 && !(states[states.len() - 1].index < index) {
        let front = states.subrange(0, states.len() - 1);
        assert forall|i: int, j: int| 0 <= i < j < front.len() implies (#[trigger] front[i]).index
            < (#[trigger] front[j]).index by {
            assert(front[i] == states[i] && front[j] == states[j]);
        }
        assert forall|i: int| 0 <= i < front.len() implies (#[trigger] front[i]).wf() by {
            assert(front[i] == states[i]);
        }
        lemma_state_position(front, index);
        let p = state_position(front, index);
        assert forall|i: int| 0 <= i < p implies (#[trigger] states[i]).index < index by {
            assert(front[i] == states[i]);
        }
        assert forall|i: int| p <= i < states.len() implies (#[trigger] states[i]).index
            >= index by {
            if i < front.len() {
                assert(front[i] == states[i]);
            }
        }
    }
}

/// The states stay sorted by choice index, whatever choice comes.
pub proof fn law_states_stay_sorted(
    states: Seq<ChoiceJailStateView>,
    index: u32,
    starts_jailed: bool,
)
    requires
        states_wf(states),
    ensures
        states_wf(with_state(states, index, starts_jailed)),
        state_position(states, index) < with_state(states, index, starts_jailed).len(),
        with_state(states, index, starts_jailed)[state_position(states, index)].index == index,
{
    lemma_state_position(states, index);
    let p = state_position(states, index);
    let after = with_state(states, index, starts_jailed);
    assert forall|i: int, j: int| 0 <= i < j < after.len() implies (#[trigger] after[i]).index < (
    #[trigger] after[j]).index by {
        if after.len() == states.len() {
            assert(after[i].index == states[i].index && after[j].index == states[j].index);
        } else {
            let a = if i < p {
                i
            } else {
                i - 1
            };
            let b = if j < p {
                j
            } else {
                j - 1
            };
            if i != p {
                assert(after[i] == states[a]);
            }
            if j != p {
                assert(after[j] == states[b]);
            }
        }
    }
    assert forall|i: int| 0 <= i < after.len() implies (#[trigger] after[i]).wf() by {
        if after.len() == states.len() {
            assert(after[i].poolside_v1_state == states[i].poolside_v1_state);
        } else if i < p {
            assert(after[i] == states[i]);
        } else if i > p {
            assert(after[i] == states[i - 1]);
        }
    }
}

impl ChoiceJailStateCollection {
    /// Create a new empty collection.
    pub fn new() -> (r: Self)
        ensures
            r.deep_view().states == Seq::<ChoiceJailStateView>::empty(),
            states_wf(r.deep_view().states),
    {
        ChoiceJailStateCollection { states: no_items() }
    }

    /// Makes sure that there is a state for the choice, and returns its position.
    pub fn get_or_create_state(&mut self, index: u32, starts_jailed: bool) -> (r: usize)
        requires
            states_wf(old(self).deep_view().states),
        ensures
            final(self).deep_view().states == with_state(
                old(self).deep_view().states,
                index,
                starts_jailed,
            ),
            r == state_position(old(self).deep_view().states, index),
            r < final(self).states@.len(),
            states_wf(final(self).deep_view().states),
    {
        let ghost before = self.deep_view().states;
        proof {
            law_states_stay_sorted(before, index, starts_jailed);
            lemma_state_position(before, index);
        }
        let mut p: usize = 0;
        while p < self.states.len() && self.states[p].index < index
            invariant
                self.deep_view().states == before,
                p <= self.states@.len(),
                p <= state_position(before, index) <= before.len(),
                forall|i: int|
                    state_position(before, index) <= i < before.len() ==> (
                    #[trigger] before[i]).index >= index,
            decreases self.states@.len() - p,
        {
            assert(before[p as int].index == self.states@[p as int].index);
            p += 1;
        }
        assert(p == state_position(before, index)) by {
            if p < state_position(before, index) {
                assert(before[p as int].index < index);
                assert(before[p as int].index == self.states@[p as int].index);
            }
        }
        if p < self.states.len() && self.states[p].index == index {
            assert(before[p as int] == self.states@[p as int].deep_view());
            if starts_jailed && !self.states[p].is_jailed
                && self.states[p].accumulated_content.as_str().is_empty()
                && self.states[p].emitted_tool_calls_count == 0 {
                let mut state: ChoiceJailState = self.states[p].duplicate();
                state.is_jailed = true;
                self.states[p] = state;
            }
            assert(self.deep_view().states =~= with_state(before, index, starts_jailed));
            p
        } else {
            proof {
                if p < before.len() {
                    assert(before[p as int].index == self.states@[p as int].index);
                }
            }
            let state: ChoiceJailState = ChoiceJailState::new(index, starts_jailed);
            self.states.insert(p, state);
            assert(self.deep_view().states =~= with_state(before, index, starts_jailed));
            p
        }
    }

    /// Replaces the state at `p`.
    fn put(&mut self, p: usize, state: ChoiceJailState)
        requires
            p < old(self).states@.len(),
        ensures
            final(self).states@.len() == old(self).states@.len(),
            final(self).deep_view().states == old(self).deep_view().states.update(
                p as int,
                state.deep_view(),
            ),
    {
        let ghost before = self.deep_view().states;
        self.states[p] = state;
        assert(self.deep_view().states =~= before.update(p as int, state.deep_view()));
    }
}

/// The annotations of a chunk.
pub open spec fn metadata_of(response: AnnotatedView) -> StreamMetadataView {
    StreamMetadataView { id: response.id, event: response.event, comment: response.comment }
}

/// What becomes of a chunk that arrives.
#[derive(Debug, Clone, Copy, PartialEq, Eq, Structural)]
pub enum ResponseStep {
    /// It is passed on as it is.
    PassOn,
    /// It is passed on as it is, and the stream is over.
    PassOnAndStop,
    /// It is dropped.
    Skip,
    /// Its choices are processed.
    Choices,
}

impl JailRunView {
    /// Before any chunk.
    pub open spec fn initial() -> Self {
        JailRunView {
            choice_states: ChoiceJailStateCollectionView { states: Seq::empty() },
            preserved: StreamMetadataView { id: None, event: None, comment: None },
            last_stream_id: Seq::empty(),
            last_stream_model: Seq::empty(),
            last_stream_created: 0,
            waiting_for_usage_after_terminal: false,
            all_emissions: Seq::empty(),
            forced_terminal_indices: Seq::empty(),
        }
    }

    /// The states of the choices are sorted and consistent.
    pub open spec fn wf(self) -> bool {
        states_wf(self.choice_states.states)
    }

    /// The markup parser of the choice `index` can number the tool calls in `text`.
    pub open spec fn has_room(self, index: u32, text: Seq<char>) -> bool {
        &&& PoolsideV1StreamStateView::initial().has_room(text)
        &&& forall|i: int|
            0 <= i < self.choice_states.states.len() && (
            #[trigger] self.choice_states.states[i]).index == index
                ==> self.choice_states.states[i].has_room(text)
    }

    /// A chunk with data arrives.
    pub open spec fn begun(self, data: NvCreateChatCompletionStreamResponseView) -> Self {
        JailRunView {
            last_stream_id: data.inner.id,
            last_stream_model: data.inner.model,
            last_stream_created: data.inner.created,
            all_emissions: Seq::empty(),
            forced_terminal_indices: Seq::empty(),
            ..self
        }
    }

    /// What becomes of a chunk with data.
    pub open spec fn step_for(self, data: NvCreateChatCompletionStreamResponseView) -> ResponseStep {
        if data.inner.choices.len() == 0 {
            if self.waiting_for_usage_after_terminal && data.inner.usage is Some {
                ResponseStep::PassOnAndStop
            } else {
                ResponseStep::PassOn
            }
        } else if self.waiting_for_usage_after_terminal {
            ResponseStep::Skip
        } else {
            ResponseStep::Choices
        }
    }

    /// With the state of the choice `index` replaced.
    pub open spec fn with_states(self, states: Seq<ChoiceJailStateView>) -> Self {
        JailRunView { choice_states: ChoiceJailStateCollectionView { states }, ..self }
    }

    /// With one more emission.
    pub open spec fn emitting(self, emission: ChoiceEmissionView) -> Self {
        JailRunView { all_emissions: self.all_emissions.push(emission), ..self }
    }
}

/// A finish reason that came is remembered.
pub open spec fn finish_noted(
    state: ChoiceJailStateView,
    finish_reason: Option<FinishReason>,
) -> ChoiceJailStateView {
    match finish_reason {
        Some(_) => ChoiceJailStateView { stream_finish_reason: finish_reason, ..state },
        None => state,
    }
}

/// A choice that is passed on as it is.
pub open spec fn choice_passed(run: JailRunView, choice: ChatChoiceStreamView) -> JailRunView {
    let states = with_state(run.choice_states.states, choice.index, false);
    let p = state_position(run.choice_states.states, choice.index);
    run.with_states(states.update(p, finish_noted(states[p], choice.finish_reason)))
}

/// The state of a choice just before its text is processed.
pub open spec fn text_state(
    state: ChoiceJailStateView,
    choice: ChatChoiceStreamView,
) -> ChoiceJailStateView {
    ChoiceJailStateView {
        stream_finish_reason: choice.finish_reason,
        pending_reasoning_content: match choice.delta.reasoning_content {
            None => state.pending_reasoning_content,
            Some(reasoning) => Some(
                (match state.pending_reasoning_content {
                    Some(pending) => pending,
                    None => Seq::empty(),
                }) + reasoning,
            ),
        },
        ..state
    }
}

/// Reasoning that was held back rides on the first emission.
pub open spec fn reasoning_released(done: Processed) -> Processed {
    match done.state.pending_reasoning_content {
        Some(reasoning) => if done.emissions.len() > 0 {
            let first = done.emissions[0];
            Processed {
                state: ChoiceJailStateView { pending_reasoning_content: None, ..done.state },
                emissions: done.emissions.update(
                    0,
                    first.with_choice(
                        ChatChoiceStreamView {
                            delta: ChatCompletionStreamResponseDeltaView {
                                reasoning_content: reasoning_joined(
                                    Some(reasoning),
                                    first.choice().delta.reasoning_content,
                                ),
                                ..first.choice().delta
                            },
                            ..first.choice()
                        },
                    ),
                ),
            }
        } else {
            done
        },
        None => done,
    }
}

/// `index` is in the list once.
pub open spec fn noted(indices: Seq<u32>, index: u32) -> Seq<u32> {
    if indices.contains(index) {
        indices
    } else {
        indices.push(index)
    }
}

/// The annotations to preserve: those of the chunk that first starts a jail.
pub open spec fn preserved_after(
    run: JailRunView,
    state: ChoiceJailStateView,
    text: Seq<char>,
    response: AnnotatedView,
    jail: JailedStreamView,
    facts: ParserFactsView,
) -> Result<StreamMetadataView, ParserQueryView> {
    if state.is_jailed || run.preserved.id is Some {
        Ok(run.preserved)
    } else {
        match starts_jail(jail, text, facts) {
            Err(query) => Err(query),
            Ok(true) => Ok(metadata_of(response)),
            Ok(false) => Ok(run.preserved),
        }
    }
}

/// What a choice leads to is taken over.
pub open spec fn choice_taken(
    run: JailRunView,
    states: Seq<ChoiceJailStateView>,
    p: int,
    preserved: StreamMetadataView,
    out: Processed,
    index: u32,
) -> JailRunView {
    JailRunView {
        choice_states: ChoiceJailStateCollectionView {
            states: states.update(
                p,
                ChoiceJailStateView { terminate_after_tool_call: false, ..out.state },
            ),
        },
        preserved,
        all_emissions: run.all_emissions + out.emissions,
        forced_terminal_indices: if out.state.terminate_after_tool_call {
            noted(run.forced_terminal_indices, index)
        } else {
            run.forced_terminal_indices
        },
        ..run
    }
}

/// A choice without content that bears on the reasoning a forced tool choice holds back:
/// more reasoning, or the end of a choice that had nothing but reasoning. Where text is
/// held back, an end without content only notes the finish reason.
pub open spec fn bears_on_reasoning(
    state: ChoiceJailStateView,
    choice: ChatChoiceStreamView,
    jail: JailedStreamView,
) -> bool {
    &&& jail.jail_mode is Immediate
    &&& state.emitted_tool_calls_count == 0
    &&& (choice.delta.reasoning_content matches Some(reasoning) && reasoning.len() > 0) || (
    choice.finish_reason is Some && state.accumulated_content.len() == 0 && state.holds_back(jail))
}

/// A choice without content that bears on the reasoning of a forced tool choice.
pub open spec fn reasoning_taken(
    run: JailRunView,
    choice: ChatChoiceStreamView,
    jail: JailedStreamView,
    facts: ParserFactsView,
) -> Result<JailRunView, ParserQueryView> {
    let states = with_state(run.choice_states.states, choice.index, true);
    let p = state_position(run.choice_states.states, choice.index);
    match reasoning_processed(text_state(states[p], choice), choice, jail, facts) {
        Err(query) => Err(query),
        Ok(done) => Ok(choice_taken(run, states, p, run.preserved, done, choice.index)),
    }
}

/// The text of a choice that the jail looks at.
pub open spec fn text_in(choice: ChatChoiceStreamView) -> Seq<char> {
    if choice.delta.tool_calls matches Some(calls) && calls.len() > 0 {
        Seq::empty()
    } else {
        match choice.delta.content {
            Some(ChatCompletionMessageContentView::Text(text)) => text,
            _ => Seq::empty(),
        }
    }
}

/// A choice with text.
pub open spec fn text_processed(
    run: JailRunView,
    choice: ChatChoiceStreamView,
    text: Seq<char>,
    response: AnnotatedView,
    jail: JailedStreamView,
    facts: ParserFactsView,
) -> Result<JailRunView, ParserQueryView> {
    let states = with_state(run.choice_states.states, choice.index, jail.jail_mode is Immediate);
    let p = state_position(run.choice_states.states, choice.index);
    match preserved_after(run, states[p], text, response, jail, facts) {
        Err(query) => Err(query),
        Ok(preserved) => match processed(text_state(states[p], choice), choice, text, jail, facts) {
            Err(query) => Err(query),
            Ok(done) => Ok(
                choice_taken(run, states, p, preserved, reasoning_released(done), choice.index),
            ),
        },
    }
}

/// One choice of a chunk.
pub open spec fn choice_processed(
    run: JailRunView,
    choice: ChatChoiceStreamView,
    response: AnnotatedView,
    jail: JailedStreamView,
    facts: ParserFactsView,
) -> Result<JailRunView, ParserQueryView> {
    if choice.delta.tool_calls matches Some(calls) && calls.len() > 0 {
        Ok(choice_passed(run, choice).emitting(ChoiceEmissionView::PassThrough(choice)))
    } else {
        match choice.delta.content {
            Some(ChatCompletionMessageContentView::Text(text)) => text_processed(
                run,
                choice,
                text,
                response,
                jail,
                facts,
            ),
            Some(ChatCompletionMessageContentView::Parts(_)) => Ok(run),
            None => {
                let p = state_position(run.choice_states.states, choice.index);
                let after = choice_passed(run, choice);
                let state = after.choice_states.states[p];
                let jailed = with_state(run.choice_states.states, choice.index, true)[p];
                let was_ever_jailed = state.accumulated_content.len() > 0 || state.is_jailed;
                if bears_on_reasoning(jailed, choice, jail) {
                    reasoning_taken(run, choice, jail, facts)
                } else if choice.delta.role is Some || choice.delta.tool_calls is Some
                    || !was_ever_jailed {
                    Ok(after.emitting(ChoiceEmissionView::PassThrough(choice)))
                } else {
                    Ok(after)
                }
            },
        }
    }
}

/// In which order emissions leave.
pub enum Lane {
    Calls,
    Trailing,
    PassThrough,
}

/// Where an emission belongs.
pub open spec fn lane_of(emission: ChoiceEmissionView) -> Lane {
    match emission {
        ChoiceEmissionView::ToolCall(_) => Lane::Calls,
        ChoiceEmissionView::Content(_) => Lane::Calls,
        ChoiceEmissionView::Trailing(_) => Lane::Trailing,
        ChoiceEmissionView::PassThrough(_) => Lane::PassThrough,
    }
}

/// The emissions of a lane, in their order.
pub open spec fn in_lane(emissions: Seq<ChoiceEmissionView>, lane: Lane) -> Seq<ChoiceEmissionView>
    decreases emissions.len(),
{
    if emissions.len() == 0 {
        Seq::empty()
    } else {
        let n = emissions.len() - 1;
        let front = in_lane(emissions.subrange(0, n), lane);
        if lane_of(emissions[n]) == lane {
            front.push(emissions[n])
        } else {
            front
        }
    }
}

/// The choices that end with these emissions, in a terminal tool choice.
pub open spec fn ending(emissions: Seq<ChoiceEmissionView>, indices: Seq<u32>) -> Seq<u32>
    decreases emissions.len(),
{
    if emissions.len() == 0 {
        indices
    } else {
        let n = emissions.len() - 1;
        let front = ending(emissions.subrange(0, n), indices);
        match emissions[n] {
            ChoiceEmissionView::ToolCall(choice) => match choice.delta.tool_calls {
                Some(calls) => if calls.len() > 0 {
                    noted(front, choice.index)
                } else {
                    front
                },
                None => front,
            },
            _ => front,
        }
    }
}

/// A chunk made of choices, with the other data of `base`.
pub open spec fn chunk_with(
    base: NvCreateChatCompletionStreamResponseView,
    choices: Seq<ChatChoiceStreamView>,
    metadata: StreamMetadataView,
) -> AnnotatedView {
    AnnotatedView {
        data: Some(
            NvCreateChatCompletionStreamResponseView {
                inner: CreateChatCompletionStreamResponseView { choices, ..base.inner },
                ..base
            },
        ),
        id: metadata.id,
        event: metadata.event,
        comment: metadata.comment,
        error: None,
    }
}

/// The choices of the emissions.
pub open spec fn choices_of(emissions: Seq<ChoiceEmissionView>) -> Seq<ChatChoiceStreamView> {
    Seq::new(emissions.len(), |i: int| emissions[i].choice())
}

/// The chunks that carry the emissions: one, or one for each.
pub open spec fn emitted(
    mode: EmissionMode,
    emissions: Seq<ChoiceEmissionView>,
    base: NvCreateChatCompletionStreamResponseView,
    metadata: StreamMetadataView,
) -> Seq<AnnotatedView> {
    if emissions.len() == 0 {
        Seq::empty()
    } else {
        match mode {
            EmissionMode::Packed => seq![chunk_with(base, choices_of(emissions), metadata)],
            EmissionMode::SingleChoicePerChunk => Seq::new(
                emissions.len(),
                |i: int| chunk_with(base, seq![emissions[i].choice()], metadata),
            ),
        }
    }
}

/// Choices that only say that tool calls ended them.
pub open spec fn terminal_choices(indices: Seq<u32>) -> Seq<ChatChoiceStreamView> {
    Seq::new(indices.len(), |i: int| terminal_choice(indices[i], FinishReason::ToolCalls))
}

/// The choices of the current chunk that end with it.
pub open spec fn ending_indices(run: JailRunView, jail: JailedStreamView) -> Seq<u32> {
    if jail.is_terminal_choice() {
        ending(run.all_emissions, run.forced_terminal_indices)
    } else {
        run.forced_terminal_indices
    }
}

/// The chunks that leave for the current chunk. Tool calls and released content
/// come first; where a choice ends, its terminal chunk is the last; else the
/// text after tool calls follows, then what is passed through.
pub open spec fn response_chunks(
    run: JailRunView,
    data: NvCreateChatCompletionStreamResponseView,
    response: AnnotatedView,
    jail: JailedStreamView,
) -> Seq<AnnotatedView> {
    let calls = emitted(
        jail.emission_mode,
        in_lane(run.all_emissions, Lane::Calls),
        data,
        run.preserved,
    );
    let ends = ending_indices(run, jail);
    if ends.len() > 0 {
        calls.push(chunk_with(data, terminal_choices(ends), metadata_of(response)))
    } else {
        calls + emitted(
            jail.emission_mode,
            in_lane(run.all_emissions, Lane::Trailing),
            data,
            run.preserved,
        ) + emitted(
            jail.emission_mode,
            in_lane(run.all_emissions, Lane::PassThrough),
            data,
            metadata_of(response),
        )
    }
}

/// The chunk that carries what is released at the end of the stream.
pub open spec fn final_base(run: JailRunView) -> NvCreateChatCompletionStreamResponseView {
    NvCreateChatCompletionStreamResponseView {
        inner: CreateChatCompletionStreamResponseView {
            id: run.last_stream_id,
            object: "chat.completion.chunk"@,
            created: run.last_stream_created,
            model: run.last_stream_model,
            choices: Seq::empty(),
            usage: None,
            service_tier: None,
            system_fingerprint: None,
        },
        nvext: None,
    }
}

/// Whether `index` is in the list.
pub fn has_index(indices: &Vec<u32>, index: u32) -> (r: bool)
    ensures
        r == indices@.contains(index),
{
    let mut i: usize = 0;
    while i < indices.len()
        invariant
            i <= indices@.len(),
            forall|k: int| 0 <= k < i ==> indices@[k] != index,
        decreases indices@.len() - i,
    {
        if indices[i] == index {
            return true;
        }
        i += 1;
    }
    false
}

/// Puts `index` in the list, where it is not there yet.
pub fn note_index(indices: &mut Vec<u32>, index: u32)
    ensures
        final(indices).deep_view() == noted(old(indices).deep_view(), index),
{
    let ghost before = indices.deep_view();
    assert(before =~= indices@);
    if !has_index(indices, index) {
        indices.push(index);
    }
    assert(indices.deep_view() =~= indices@);
}

/// A chunk made of choices, with the other data of `base`.
fn make_chunk(
    base: &NvCreateChatCompletionStreamResponse,
    choices: Vec<ChatChoiceStream>,
    metadata: &StreamMetadata,
) -> (r: Annotated)
    ensures
        r.deep_view() == chunk_with(
            base.deep_view(),
            choices.deep_view(),
            metadata.deep_view(),
        ),
{
    Annotated {
        data: Some(
            NvCreateChatCompletionStreamResponse {
                inner: CreateChatCompletionStreamResponse {
                    id: base.inner.id.clone(),
                    object: base.inner.object.clone(),
                    created: base.inner.created,
                    model: base.inner.model.clone(),
                    choices,
                    usage: base.inner.usage,
                    service_tier: base.inner.service_tier,
                    system_fingerprint: base.inner.system_fingerprint.duplicate(),
                },
                nvext: base.nvext.duplicate(),
            },
        ),
        id: metadata.id.duplicate(),
        event: metadata.event.duplicate(),
        comment: metadata.comment.duplicate(),
        error: None,
    }
}

/// Choices that only say that tool calls ended them.
pub fn make_terminal_choices(indices: &Vec<u32>) -> (r: Vec<ChatChoiceStream>)
    ensures
        r.deep_view() == terminal_choices(indices.deep_view()),
{
    let mut out: Vec<ChatChoiceStream> = Vec::new();
    let mut i: usize = 0;
    while i < indices.len()
        invariant
            i <= indices@.len(),
            out@.len() == i,
            forall|k: int|
                0 <= k < i ==> (#[trigger] out@[k]).deep_view() == terminal_choice(
                    indices@[k],
                    FinishReason::ToolCalls,
                ),
        decreases indices@.len() - i,
    {
        out.push(create_terminal_choice(indices[i], FinishReason::ToolCalls));
        i += 1;
    }
    assert(out.deep_view() =~= terminal_choices(indices.deep_view()));
    out
}

/// Whether an emission leaves in that lane.
fn is_in_lane(emission: &ChoiceEmission, lane: &Lane) -> (r: bool)
    ensures
        r == (lane_of(emission.deep_view()) == *lane),
{
    match (emission, lane) {
        (ChoiceEmission::ToolCall(_), Lane::Calls) => true,
        (ChoiceEmission::Content(_), Lane::Calls) => true,
        (ChoiceEmission::Trailing(_), Lane::Trailing) => true,
        (ChoiceEmission::PassThrough(_), Lane::PassThrough) => true,
        _ => false,
    }
}

/// A copy of an emission.
fn copy_emission(emission: &ChoiceEmission) -> (r: ChoiceEmission)
    ensures
        r.deep_view() == emission.deep_view(),
{
    match emission {
        ChoiceEmission::PassThrough(c) => ChoiceEmission::PassThrough(c.duplicate()),
        ChoiceEmission::ToolCall(c) => ChoiceEmission::ToolCall(c.duplicate()),
        ChoiceEmission::Content(c) => ChoiceEmission::Content(c.duplicate()),
        ChoiceEmission::Trailing(c) => ChoiceEmission::Trailing(c.duplicate()),
    }
}

/// The emissions of a lane, in their order.
fn pick_lane(emissions: &Vec<ChoiceEmission>, lane: Lane) -> (r: Vec<ChoiceEmission>)
    ensures
        r.deep_view() == in_lane(emissions.deep_view(), lane),
{
    let ghost all = emissions.deep_view();
    let mut out: Vec<ChoiceEmission> = no_items();
    let mut i: usize = 0;
    assert(all.subrange(0, 0) =~= Seq::empty());
    while i < emissions.len()
        invariant
            all == emissions.deep_view(),
            i <= emissions@.len(),
            out.deep_view() == in_lane(all.subrange(0, i as int), lane),
        decreases emissions@.len() - i,
    {
        let ghost next = all.subrange(0, i + 1);
        assert(next.subrange(0, next.len() - 1) =~= all.subrange(0, i as int));
        assert(next[next.len() - 1] == emissions@[i as int].deep_view());
        if is_in_lane(&emissions[i], &lane) {
            push_item(&mut out, copy_emission(&emissions[i]));
        }
        i += 1;
    }
    assert(all.subrange(0, all.len() as int) =~= all);
    out
}

/// The choices that end with these emissions, in a terminal tool choice.
fn find_ending(emissions: &Vec<ChoiceEmission>, indices: Vec<u32>) -> (r: Vec<u32>)
    ensures
        r.deep_view() == ending(emissions.deep_view(), indices.deep_view()),
{
    let ghost all = emissions.deep_view();
    let ghost start = indices.deep_view();
    let mut out: Vec<u32> = indices;
    let mut i: usize = 0;
    assert(all.subrange(0, 0) =~= Seq::empty());
    while i < emissions.len()
        invariant
            all == emissions.deep_view(),
            i <= emissions@.len(),
            out.deep_view() == ending(all.subrange(0, i as int), start),
        decreases emissions@.len() - i,
    {
        let ghost next = all.subrange(0, i + 1);
        assert(next.subrange(0, next.len() - 1) =~= all.subrange(0, i as int));
        assert(next[next.len() - 1] == emissions@[i as int].deep_view());
        match &emissions[i] {
            ChoiceEmission::ToolCall(choice) => {
                match &choice.delta.tool_calls {
                    Some(calls) => {
                        if calls.len() > 0 {
                            note_index(&mut out, choice.index);
                        }
                    },
                    None => {},
                }
            },
            _ => {},
        }
        i += 1;
    }
    assert(all.subrange(0, all.len() as int) =~= all);
    out
}

impl JailedStream {
    /// Emit choice emissions based on the configured emission mode.
    pub fn emit_choice_emissions(
        &self,
        emissions: Vec<ChoiceEmission>,
        base_response: &NvCreateChatCompletionStreamResponse,
        metadata: &StreamMetadata,
    ) -> (r: Vec<Annotated>)
        ensures
            r.deep_view() == emitted(
                self.emission_mode,
                emissions.deep_view(),
                base_response.deep_view(),
                metadata.deep_view(),
            ),
    {
        let n: usize = emissions.len();
        if n == 0 {
            return no_items();
        }
        match self.emission_mode {
            EmissionMode::Packed => {
                let mut choices: Vec<ChatChoiceStream> = Vec::new();
                let mut i: usize = 0;
                while i < n
                    invariant
                        n == emissions@.len(),
                        i <= n,
                        choices@.len() == i,
                        forall|k: int|
                            0 <= k < i ==> (#[trigger] choices@[k]).deep_view()
                                == emissions@[k].deep_view().choice(),
                    decreases n - i,
                {
                    choices.push(emissions[i].choice().duplicate());
                    i += 1;
                }
                assert(choices.deep_view() =~= choices_of(emissions.deep_view()));
                one_item(make_chunk(base_response, choices, metadata))
            },
            EmissionMode::SingleChoicePerChunk => {
                let mut out: Vec<Annotated> = Vec::new();
                let mut i: usize = 0;
                while i < n
                    invariant
                        n == emissions@.len(),
                        i <= n,
                        out@.len() == i,
                        forall|k: int|
                            0 <= k < i ==> (#[trigger] out@[k]).deep_view() == chunk_with(
                                base_response.deep_view(),
                                seq![emissions@[k].deep_view().choice()],
                                metadata.deep_view(),
                            ),
                    decreases n - i,
                {
                    let choice: ChatChoiceStream = emissions[i].choice().duplicate();
                    out.push(make_chunk(base_response, one_item(choice), metadata));
                    i += 1;
                }
                assert(out.deep_view() =~= emitted(
                    self.emission_mode,
                    emissions.deep_view(),
                    base_response.deep_view(),
                    metadata.deep_view(),
                ));
                out
            },
        }
    }
}

/// The annotations of a chunk.
pub fn take_metadata(response: &Annotated) -> (r: StreamMetadata)
    ensures
        r.deep_view() == metadata_of(response.deep_view()),
{
    StreamMetadata {
        id: response.id.duplicate(),
        event: response.event.duplicate(),
        comment: response.comment.duplicate(),
    }
}

/// Notes the reasoning and the finish reason of a chunk.
fn note_chunk(state: &mut ChoiceJailState, choice: &ChatChoiceStream)
    ensures
        final(state).deep_view() == text_state(old(state).deep_view(), choice.deep_view()),
{
    match &choice.delta.reasoning_content {
        None => {},
        Some(reasoning) => {
            let pending: String = match state.pending_reasoning_content.take() {
                Some(pending) => pending,
                None => String::new(),
            };
            state.pending_reasoning_content = Some(join(pending.as_str(), reasoning.as_str()));
        },
    }
    state.stream_finish_reason = choice.finish_reason;
}

/// Reasoning that was held back rides on the first emission.
fn release_reasoning(state: &mut ChoiceJailState, emissions: Vec<ChoiceEmission>) -> (r: Vec<
    ChoiceEmission,
>)
    ensures
        (Processed { state: final(state).deep_view(), emissions: r.deep_view() })
            == reasoning_released(
            Processed { state: old(state).deep_view(), emissions: emissions.deep_view() },
        ),
{
    if emissions.len() == 0 {
        return emissions;
    }
    match state.pending_reasoning_content.take() {
        None => emissions,
        Some(reasoning) => {
            let ghost all = emissions.deep_view();
            let mut out: Vec<ChoiceEmission> = emissions;
            let first: ChoiceEmission = copy_emission(&out[0]);
            let mut choice: ChatChoiceStream = first.choice().duplicate();
            let more: Option<String> = choice.delta.reasoning_content.take();
            choice.delta.reasoning_content = join_reasoning(&Some(reasoning), more);
            let changed: ChoiceEmission = first.with_choice(choice);
            out[0] = changed;
            assert(out.deep_view() =~= all.update(0, changed.deep_view()));
            out
        },
    }
}

impl JailRun {
    /// Before any chunk.
    pub fn new() -> (r: Self)
        ensures
            r.deep_view() == JailRunView::initial(),
            r.deep_view().wf(),
    {
        let r: JailRun = JailRun {
            choice_states: ChoiceJailStateCollection::new(),
            preserved: StreamMetadata { id: None, event: None, comment: None },
            last_stream_id: String::new(),
            last_stream_model: String::new(),
            last_stream_created: 0,
            waiting_for_usage_after_terminal: false,
            all_emissions: no_items(),
            forced_terminal_indices: no_items(),
        };
        assert(r.deep_view() =~= JailRunView::initial());
        r
    }

    /// A chunk arrives.
    pub(crate) fn begin_response(&mut self, response: &Annotated) -> (r: ResponseStep)
        ensures
            match response.deep_view().data {
                None => r == ResponseStep::PassOn && final(self).deep_view() == old(self).deep_view(),
                Some(data) => r == old(self).deep_view().step_for(data) && final(self).deep_view()
                    == old(self).deep_view().begun(data),
            },
            old(self).deep_view().wf() ==> final(self).deep_view().wf(),
    {
        match &response.data {
            None => ResponseStep::PassOn,
            Some(data) => {
                self.last_stream_id = data.inner.id.clone();
                self.last_stream_model = data.inner.model.clone();
                self.last_stream_created = data.inner.created;
                self.all_emissions = no_items();
                self.forced_terminal_indices = no_items();
                if data.inner.choices.len() == 0 {
                    if self.waiting_for_usage_after_terminal && data.inner.usage.is_some() {
                        ResponseStep::PassOnAndStop
                    } else {
                        ResponseStep::PassOn
                    }
                } else if self.waiting_for_usage_after_terminal {
                    ResponseStep::Skip
                } else {
                    ResponseStep::Choices
                }
            },
        }
    }

    /// Remembers a choice that is passed on, and returns where its state stands.
    fn pass_choice(&mut self, choice: &ChatChoiceStream) -> (r: usize)
        requires
            old(self).deep_view().wf(),
        ensures
            final(self).deep_view() == choice_passed(old(self).deep_view(), choice.deep_view()),
            r == state_position(old(self).deep_view().choice_states.states, choice.index),
            r < final(self).choice_states.states@.len(),
            final(self).deep_view().wf(),
    {
        let ghost before = self.deep_view();
        let p: usize = self.choice_states.get_or_create_state(choice.index, false);
        let ghost states = self.deep_view().choice_states.states;
        let mut state: ChoiceJailState = self.choice_states.states[p].duplicate();
        if choice.finish_reason.is_some() {
            state.stream_finish_reason = choice.finish_reason;
        }
        assert(states[p as int] == self.choice_states.states@[p as int].deep_view());
        self.choice_states.put(p, state);
        proof {
            lemma_update_wf(states, p as int, state.deep_view());
        }
        p
    }

    /// Processes a choice with text.
    fn process_text(
        &mut self,
        choice: &ChatChoiceStream,
        text: &str,
        response: &Annotated,
        jail_stream: &JailedStream,
        facts: &ParserFacts,
    ) -> (r: Result<(), ParserQuery>)
        requires
            old(self).deep_view().wf(),
            jail_stream.deep_view().parses_markup() ==> old(self).deep_view().has_room(
                choice.index,
                text@,
            ),
            facts.deep_view().wf(),
        ensures
            final(self).deep_view().wf(),
            run_matches(
                r,
                old(self).deep_view(),
                final(self).deep_view(),
                text_processed(
                    old(self).deep_view(),
                    choice.deep_view(),
                    text@,
                    response.deep_view(),
                    jail_stream.deep_view(),
                    facts.deep_view(),
                ),
            ),
    {
        let ghost before = self.deep_view();
        let ghost old_states = before.choice_states.states;
        let ghost states = with_state(
            old_states,
            choice.index,
            jail_stream.deep_view().jail_mode is Immediate,
        );
        proof {
            lemma_state_position(old_states, choice.index);
        }
        let mut changed: ChoiceJailStateCollection = ChoiceJailStateCollection {
            states: self.choice_states.states.duplicate(),
        };
        let p: usize = changed.get_or_create_state(choice.index, jail_stream.is_immediate());
        let mut state: ChoiceJailState = changed.states[p].duplicate();
        assert(state.deep_view() == states[p as int]);
        assert(jail_stream.deep_view().parses_markup() ==> state.deep_view().has_room(text@));
        let mut preserved: StreamMetadata = self.preserved.duplicate();
        if !state.is_jailed && self.preserved.id.is_none() {
            match jail_stream.should_start_jail(text, facts) {
                Err(query) => {
                    return Err(query);
                },
                Ok(true) => {
                    preserved = take_metadata(response);
                },
                Ok(false) => {},
            }
        }
        note_chunk(&mut state, choice);
        let emissions: Vec<ChoiceEmission> = match state.process_content(
            choice,
            text,
            jail_stream,
            facts,
        ) {
            Ok(emissions) => emissions,
            Err(query) => {
                return Err(query);
            },
        };
        proof {
            lemma_processed_index(
                text_state(states[p as int], choice.deep_view()),
                choice.deep_view(),
                text@,
                jail_stream.deep_view(),
                facts.deep_view(),
            );
        }
        let out: Vec<ChoiceEmission> = release_reasoning(&mut state, emissions);
        let terminate: bool = state.take_terminate_after_tool_call();
        if terminate {
            note_index(&mut self.forced_terminal_indices, choice.index);
        }
        append_items(&mut self.all_emissions, out);
        self.preserved = preserved;
        proof {
            lemma_update_wf(states, p as int, state.deep_view());
        }
        changed.put(p, state);
        self.choice_states = changed;
        Ok(())
    }

    /// Processes a choice without content that bears on the reasoning of a forced tool
    /// choice: the states with one for it, and its position there, are given.
    fn process_reasoning_choice(
        &mut self,
        choice: &ChatChoiceStream,
        changed: ChoiceJailStateCollection,
        p: usize,
        jail_stream: &JailedStream,
        facts: &ParserFacts,
    ) -> (r: Result<(), ParserQuery>)
        requires
            old(self).deep_view().wf(),
            changed.deep_view().states == with_state(
                old(self).deep_view().choice_states.states,
                choice.index,
                true,
            ),
            states_wf(changed.deep_view().states),
            p == state_position(old(self).deep_view().choice_states.states, choice.index),
            p < changed.states@.len(),
        ensures
            final(self).deep_view().wf(),
            run_matches(
                r,
                old(self).deep_view(),
                final(self).deep_view(),
                reasoning_taken(
                    old(self).deep_view(),
                    choice.deep_view(),
                    jail_stream.deep_view(),
                    facts.deep_view(),
                ),
            ),
    {
        let ghost states = changed.deep_view().states;
        let mut changed: ChoiceJailStateCollection = changed;
        let mut state: ChoiceJailState = changed.states[p].duplicate();
        assert(state.deep_view() == states[p as int]);
        note_chunk(&mut state, choice);
        let out: Vec<ChoiceEmission> = match state.process_reasoning(choice, jail_stream, facts) {
            Ok(out) => out,
            Err(query) => {
                return Err(query);
            },
        };
        proof {
            lemma_reasoning_index(
                text_state(states[p as int], choice.deep_view()),
                choice.deep_view(),
                jail_stream.deep_view(),
                facts.deep_view(),
            );
        }
        let terminate: bool = state.take_terminate_after_tool_call();
        if terminate {
            note_index(&mut self.forced_terminal_indices, choice.index);
        }
        append_items(&mut self.all_emissions, out);
        proof {
            lemma_update_wf(states, p as int, state.deep_view());
        }
        changed.put(p, state);
        self.choice_states = changed;
        Ok(())
    }

    /// Processes one choice of a chunk.
    ///
    /// Where an answer is missing, nothing changes and the question is returned.
    pub(crate) fn process_choice(
        &mut self,
        choice: &ChatChoiceStream,
        response: &Annotated,
        jail_stream: &JailedStream,
        facts: &ParserFacts,
    ) -> (r: Result<(), ParserQuery>)
        requires
            old(self).deep_view().wf(),
            jail_stream.deep_view().parses_markup() ==> old(self).deep_view().has_room(
                choice.index,
                text_in(choice.deep_view()),
            ),
            facts.deep_view().wf(),
        ensures
            final(self).deep_view().wf(),
            run_matches(
                r,
                old(self).deep_view(),
                final(self).deep_view(),
                choice_processed(
                    old(self).deep_view(),
                    choice.deep_view(),
                    response.deep_view(),
                    jail_stream.deep_view(),
                    facts.deep_view(),
                ),
            ),
    {
        let has_calls: bool = match &choice.delta.tool_calls {
            Some(calls) => calls.len() > 0,
            None => false,
        };
        if has_calls {
            let p: usize = self.pass_choice(choice);
            push_item(&mut self.all_emissions, ChoiceEmission::PassThrough(choice.duplicate()));
            return Ok(());
        }
        match &choice.delta.content {
            Some(ChatCompletionMessageContent::Text(text)) => {
                self.process_text(choice, text.as_str(), response, jail_stream, facts)
            },
            Some(ChatCompletionMessageContent::Parts(_)) => Ok(()),
            None => {
                if jail_stream.is_immediate() {
                    let mut changed: ChoiceJailStateCollection = ChoiceJailStateCollection {
                        states: self.choice_states.states.duplicate(),
                    };
                    let p: usize = changed.get_or_create_state(choice.index, true);
                    let state: &ChoiceJailState = &changed.states[p];
                    assert(state.deep_view() == changed.deep_view().states[p as int]);
                    let has_reasoning: bool = match &choice.delta.reasoning_content {
                        Some(reasoning) => !reasoning.as_str().is_empty(),
                        None => false,
                    };
                    let ends_reasoning: bool = choice.finish_reason.is_some()
                        && state.accumulated_content.as_str().is_empty() && state.holds_back(
                        jail_stream,
                    );
                    if state.emitted_tool_calls_count == 0 && (has_reasoning || ends_reasoning) {
                        return self.process_reasoning_choice(choice, changed, p, jail_stream, facts);
                    }
                }
                let p: usize = self.pass_choice(choice);
                let state: &ChoiceJailState = &self.choice_states.states[p];
                assert(self.deep_view().choice_states.states[p as int] == state.deep_view());
                let was_ever_jailed: bool = !state.accumulated_content.as_str().is_empty()
                    || state.is_jailed;
                if choice.delta.role.is_some() || choice.delta.tool_calls.is_some()
                    || !was_ever_jailed {
                    push_item(
                        &mut self.all_emissions,
                        ChoiceEmission::PassThrough(choice.duplicate()),
                    );
                }
                Ok(())
            },
        }
    }

    /// The chunks that leave for the chunk whose choices were processed, and
    /// whether the stream is over.
    pub(crate) fn finish_response(&mut self, response: &Annotated, jail_stream: &JailedStream) -> (r: (
        Vec<Annotated>,
        bool,
    ))
        requires
            response.data is Some,
            old(self).deep_view().wf(),
        ensures
            r.0.deep_view() == response_chunks(
                old(self).deep_view(),
                response.deep_view().data->0,
                response.deep_view(),
                jail_stream.deep_view(),
            ),
            r.1 == (ending_indices(old(self).deep_view(), jail_stream.deep_view()).len() > 0
                && !jail_stream.defer_terminal_until_usage),
            final(self).deep_view() == (JailRunView {
                waiting_for_usage_after_terminal: old(self).waiting_for_usage_after_terminal || (
                ending_indices(old(self).deep_view(), jail_stream.deep_view()).len() > 0
                    && jail_stream.defer_terminal_until_usage),
                ..old(self).deep_view()
            }),
            final(self).deep_view().wf(),
    {
        let data: &NvCreateChatCompletionStreamResponse = match &response.data {
            Some(data) => data,
            None => {
                return (no_items(), false);
            },
        };
        let current: StreamMetadata = take_metadata(response);
        let calls: Vec<ChoiceEmission> = pick_lane(&self.all_emissions, Lane::Calls);
        let mut out: Vec<Annotated> = jail_stream.emit_choice_emissions(
            calls,
            data,
            &self.preserved,
        );
        let ends: Vec<u32> = if jail_stream.is_terminal_choice() {
            find_ending(&self.all_emissions, self.forced_terminal_indices.duplicate())
        } else {
            self.forced_terminal_indices.duplicate()
        };
        if ends.len() > 0 {
            push_item(&mut out, make_chunk(data, make_terminal_choices(&ends), &current));
            if jail_stream.defer_terminal_until_usage {
                self.waiting_for_usage_after_terminal = true;
                return (out, false);
            }
            return (out, true);
        }
        let trailing: Vec<ChoiceEmission> = pick_lane(&self.all_emissions, Lane::Trailing);
        let trailing_chunks: Vec<Annotated> = jail_stream.emit_choice_emissions(
            trailing,
            data,
            &self.preserved,
        );
        append_items(&mut out, trailing_chunks);
        let passed: Vec<ChoiceEmission> = pick_lane(&self.all_emissions, Lane::PassThrough);
        let passed_chunks: Vec<Annotated> = jail_stream.emit_choice_emissions(
            passed,
            data,
            &current,
        );
        append_items(&mut out, passed_chunks);
        (out, false)
    }

    /// The stream ended: releases what is held back of the choice at position `p`.
    ///
    /// Where an answer is missing, nothing changes and the question is returned.
    pub(crate) fn finalize_choice(
        &mut self,
        p: usize,
        jail_stream: &JailedStream,
        facts: &ParserFacts,
    ) -> (r: Result<(), ParserQuery>)
        requires
            old(self).deep_view().wf(),
            p < old(self).choice_states.states@.len(),
        ensures
            final(self).deep_view().wf(),
            run_matches(
                r,
                old(self).deep_view(),
                final(self).deep_view(),
                choice_finalized(
                    old(self).deep_view(),
                    p as int,
                    jail_stream.deep_view(),
                    facts.deep_view(),
                ),
            ),
    {
        let ghost states = self.deep_view().choice_states.states;
        let mut state: ChoiceJailState = self.choice_states.states[p].duplicate();
        assert(states[p as int] == state.deep_view());
        let emission: Option<ChoiceEmission> = match state.finalize(jail_stream, facts) {
            Ok(emission) => emission,
            Err(query) => {
                return Err(query);
            },
        };
        match emission {
            Some(emission) => {
                push_item(&mut self.all_emissions, emission);
            },
            None => {},
        }
        proof {
            lemma_finalized_index(states[p as int], jail_stream.deep_view(), facts.deep_view());
            lemma_update_wf(states, p as int, state.deep_view());
        }
        self.choice_states.put(p, state);
        Ok(())
    }

    /// The chunks that carry what was released at the end of the stream.
    pub(crate) fn finish_stream(&self, jail_stream: &JailedStream) -> (r: Vec<Annotated>)
        ensures
            r.deep_view() == emitted(
                jail_stream.emission_mode,
                self.deep_view().all_emissions,
                final_base(self.deep_view()),
                self.deep_view().preserved,
            ),
    {
        let base: NvCreateChatCompletionStreamResponse = NvCreateChatCompletionStreamResponse {
            inner: CreateChatCompletionStreamResponse {
                id: self.last_stream_id.clone(),
                object: "chat.completion.chunk".to_owned(),
                created: self.last_stream_created,
                model: self.last_stream_model.clone(),
                choices: no_items(),
                usage: None,
                service_tier: None,
                system_fingerprint: None,
            },
            nvext: None,
        };
        let mut emissions: Vec<ChoiceEmission> = Vec::new();
        let mut i: usize = 0;
        while i < self.all_emissions.len()
            invariant
                i <= self.all_emissions@.len(),
                emissions@.len() == i,
                forall|k: int|
                    0 <= k < i ==> (#[trigger] emissions@[k]).deep_view()
                        == self.all_emissions@[k].deep_view(),
            decreases self.all_emissions@.len() - i,
        {
            emissions.push(copy_emission(&self.all_emissions[i]));
            i += 1;
        }
        assert(emissions.deep_view() =~= self.deep_view().all_emissions);
        jail_stream.emit_choice_emissions(emissions, &base, &self.preserved)
    }
}

/// What the end of the stream releases of the choice at position `p`.
pub open spec fn choice_finalized(
    run: JailRunView,
    p: int,
    jail: JailedStreamView,
    facts: ParserFactsView,
) -> Result<JailRunView, ParserQueryView> {
    match finalized(run.choice_states.states[p], jail, facts) {
        Err(query) => Err(query),
        Ok((state, emission)) => {
            let after = run.with_states(run.choice_states.states.update(p, state));
            Ok(
                match emission {
                    Some(emission) => after.emitting(emission),
                    None => after,
                },
            )
        },
    }
}

/// A step, or the question that is open, in which case nothing changed.
pub open spec fn run_matches(
    r: Result<(), ParserQuery>,
    before: JailRunView,
    after: JailRunView,
    expected: Result<JailRunView, ParserQueryView>,
) -> bool {
    match (r, expected) {
        (Ok(_), Ok(next)) => after == next,
        (Err(query), Err(missing)) => query.deep_view() == missing && after == before,
        _ => false,
    }
}

pub(crate) proof fn lemma_update_wf(
    states: Seq<ChoiceJailStateView>,
    p: int,
    state: ChoiceJailStateView,
)
    requires
        states_wf(states),
        0 <= p < states.len(),
        state.index == states[p].index,
        state.wf(),
    ensures
        states_wf(states.update(p, state)),
{
    let after = states.update(p, state);
    assert forall|i: int, j: int| 0 <= i < j < after.len() implies (#[trigger] after[i]).index < (
    #[trigger] after[j]).index by {
        assert(after[i].index == states[i].index && after[j].index == states[j].index);
    }
}

} // verus!
