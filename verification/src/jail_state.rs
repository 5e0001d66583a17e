//! What is remembered of a choice while its stream is jailed.

use crate::chat_types::{
    ChatChoiceLogprobs, ChatChoiceLogprobsView, ChatChoiceStream, ChatChoiceStreamView,
    ChatCompletionMessageToolCallChunk, ChatCompletionMessageToolCallChunkView,
    ChatCompletionStreamResponseDeltaView, FinishReason, FunctionCallStream, Role,
};
use crate::copy::{append_items, no_items, one_item, push_item, Duplicate};
use crate::jail_parse::{
    call_choice, capped, choice_complete, create_choice_stream,
    create_choice_stream_optional_content, create_terminal_choice, ends_jail, is_choice_complete,
    optional_choice, starts_jail, terminal_choice, text_choice,
};
use crate::jail_types::{
    ChoiceEmission, ChoiceEmissionView, JailMode, JailedStream, JailedStreamView, ToolChoiceFormat,
};
use crate::json::Json;
use crate::json_order::canonicalize_json_value;
use crate::json_text::{json_text, parsed_json};
use crate::parser_facts::{
    marker_answer, MatchResult, MatchResultView, ParserFacts, ParserFactsView, ParserQuery,
    ParserQueryView,
};
use crate::poolside::{
    delta_result, PoolsideV1StreamDelta, PoolsideV1StreamState, PoolsideV1StreamStateView,
};
use crate::text::{blank, is_blank, join, same_text, slice_of, trim, trim_spec};
use vstd::prelude::*;

verus! {

/// How often an identical tool call may be repeated before the stream ends.
pub const MAX_SUPPRESSED_REQUIRED_TOOL_DUPLICATES: usize = 2;

/// How often a tool call came.
#[derive(Debug, PartialEq, Eq)]
pub struct KeyCount {
    pub key: String,
    pub count: usize,
}

/// The content of a [`KeyCount`].
#[verifier::ext_equal]
pub struct KeyCountView {
    pub key: Seq<char>,
    pub count: usize,
}

impl DeepView for KeyCount {
    type V = KeyCountView;

    open spec fn deep_view(&self) -> KeyCountView {
        KeyCountView {
            key: self.key.deep_view(),
            count: self.count.deep_view(),
        }
    }
}

impl Duplicate for KeyCount {
    fn duplicate(&self) -> (r: Self) {
        KeyCount {
            key: self.key.duplicate(),
            count: self.count.duplicate(),
        }
    }
}

/// State tracking for an individual choice during jail processing.
#[derive(Debug, PartialEq, Eq)]
pub struct ChoiceJailState {
    /// The choice index (0, 1, 2, ...).
    pub index: u32,
    /// Whether this choice is currently jailed.
    pub is_jailed: bool,
    /// Accumulated content for this choice while jailed.
    pub accumulated_content: String,
    /// Accumulated logprobs for this choice while jailed.
    pub accumulated_logprobs: Option<ChatChoiceLogprobs>,
    /// Buffer for partial marker matches across chunks.
    pub partial_match_buffer: String,
    /// Stream finish reason.
    pub stream_finish_reason: Option<FinishReason>,
    /// Number of tool calls already emitted for this choice.
    pub emitted_tool_calls_count: usize,
    /// Exact tool calls already emitted where any tool is required.
    pub emitted_required_tool_call_keys: Vec<KeyCount>,
    /// Stop the stream after a tool call was repeated too often.
    pub terminate_after_tool_call: bool,
    /// Reasoning content collected while waiting for a suitable emission.
    pub pending_reasoning_content: Option<String>,
    /// The parser of the `poolside_v1` markup.
    pub poolside_v1_state: PoolsideV1StreamState,
}

/// The content of a [`ChoiceJailState`].
#[verifier::ext_equal]
pub struct ChoiceJailStateView {
    pub index: u32,
    pub is_jailed: bool,
    pub accumulated_content: Seq<char>,
    pub accumulated_logprobs: Option<ChatChoiceLogprobsView>,
    pub partial_match_buffer: Seq<char>,
    pub stream_finish_reason: Option<FinishReason>,
    pub emitted_tool_calls_count: usize,
    pub emitted_required_tool_call_keys: Seq<KeyCountView>,
    pub terminate_after_tool_call: bool,
    pub pending_reasoning_content: Option<Seq<char>>,
    pub poolside_v1_state: PoolsideV1StreamStateView,
}

impl DeepView for ChoiceJailState {
    type V = ChoiceJailStateView;

    open spec fn deep_view(&self) -> ChoiceJailStateView {
        ChoiceJailStateView {
            index: self.index.deep_view(),
            is_jailed: self.is_jailed.deep_view(),
            accumulated_content: self.accumulated_content.deep_view(),
            accumulated_logprobs: self.accumulated_logprobs.deep_view(),
            partial_match_buffer: self.partial_match_buffer.deep_view(),
            stream_finish_reason: self.stream_finish_reason.deep_view(),
            emitted_tool_calls_count: self.emitted_tool_calls_count.deep_view(),
            emitted_required_tool_call_keys: self.emitted_required_tool_call_keys.deep_view(),
            terminate_after_tool_call: self.terminate_after_tool_call.deep_view(),
            pending_reasoning_content: self.pending_reasoning_content.deep_view(),
            poolside_v1_state: self.poolside_v1_state.deep_view(),
        }
    }
}

impl Duplicate for ChoiceJailState {
    fn duplicate(&self) -> (r: Self) {
        ChoiceJailState {
            index: self.index.duplicate(),
            is_jailed: self.is_jailed.duplicate(),
            accumulated_content: self.accumulated_content.duplicate(),
            accumulated_logprobs: self.accumulated_logprobs.duplicate(),
            partial_match_buffer: self.partial_match_buffer.duplicate(),
            stream_finish_reason: self.stream_finish_reason.duplicate(),
            emitted_tool_calls_count: self.emitted_tool_calls_count.duplicate(),
            emitted_required_tool_call_keys: self.emitted_required_tool_call_keys.duplicate(),
            terminate_after_tool_call: self.terminate_after_tool_call.duplicate(),
            pending_reasoning_content: self.pending_reasoning_content.duplicate(),
            poolside_v1_state: self.poolside_v1_state.duplicate(),
        }
    }
}

/// What tells a tool call from another: the trimmed name, and the arguments as
/// JSON text without regard to the order of object members. Calls without a
/// name are not told apart.
pub open spec fn dedupe_key(chunk: ChatCompletionMessageToolCallChunkView) -> Option<Seq<char>> {
    match chunk.function {
        None => None,
        Some(function) => match function.name {
            None => None,
            Some(raw_name) => {
                let name = trim_spec(raw_name);
                let args = trim_spec(
                    match function.arguments {
                        Some(a) => a,
                        None => Seq::empty(),
                    },
                );
                if name.len() == 0 {
                    None
                } else {
                    Some(
                        name + seq!['\u{1f}'] + (match parsed_json(args) {
                            Some(value) => json_text(value),
                            None => args,
                        }),
                    )
                }
            },
        },
    }
}

/// The position of `key` among the calls that came, at or after `from`.
pub open spec fn key_position(keys: Seq<KeyCountView>, key: Seq<char>, from: int) -> Option<int>
    decreases keys.len() - from,
{
    if from < 0 || from >= keys.len() {
        None
    } else if keys[from].key == key {
        Some(from)
    } else {
        key_position(keys, key, from + 1)
    }
}

/// The calls that came, those that are kept, and whether one came too often.
#[verifier::ext_equal]
pub struct Sorted {
    pub keys: Seq<KeyCountView>,
    pub kept: Seq<ChatCompletionMessageToolCallChunkView>,
    pub stopped: bool,
}

impl Sorted {
    /// One more call: the first of its kind is kept, repetitions are counted
    /// and dropped, and after too many of them no more calls are looked at.
    pub open spec fn step(self, chunk: ChatCompletionMessageToolCallChunkView) -> Sorted {
        if self.stopped {
            self
        } else {
            match dedupe_key(chunk) {
                None => Sorted { kept: self.kept.push(chunk), ..self },
                Some(key) => match key_position(self.keys, key, 0) {
                    None => Sorted {
                        keys: self.keys.push(KeyCountView { key, count: 1 }),
                        kept: self.kept.push(chunk),
                        stopped: false,
                    },
                    Some(p) => {
                        let count = capped(self.keys[p].count + 1) as usize;
                        Sorted {
                            keys: self.keys.update(
                                p,
                                KeyCountView { key: self.keys[p].key, count },
                            ),
                            kept: self.kept,
                            stopped: count > MAX_SUPPRESSED_REQUIRED_TOOL_DUPLICATES + 1,
                        }
                    },
                },
            }
        }
    }

    /// All the calls in turn.
    pub open spec fn over(self, chunks: Seq<ChatCompletionMessageToolCallChunkView>) -> Sorted
        decreases chunks.len(),
    {
        if chunks.len() == 0 {
            self
        } else {
            self.over(chunks.subrange(0, chunks.len() - 1)).step(chunks[chunks.len() - 1])
        }
    }
}

/// What is emitted of a choice with tool calls, how many calls that are, and
/// what is remembered.
pub open spec fn prepared(
    state: ChoiceJailStateView,
    choice: ChatChoiceStreamView,
    jail: JailedStreamView,
) -> (ChoiceJailStateView, ChatChoiceStreamView, int) {
    match choice.delta.tool_calls {
        None => (state, choice, 0),
        Some(chunks) => if !jail.guards_duplicates() {
            (state, choice, chunks.len() as int)
        } else {
            let sorted = Sorted {
                keys: state.emitted_required_tool_call_keys,
                kept: Seq::empty(),
                stopped: false,
            }.over(chunks);
            (
                ChoiceJailStateView {
                    emitted_required_tool_call_keys: sorted.keys,
                    terminate_after_tool_call: state.terminate_after_tool_call || sorted.stopped,
                    ..state
                },
                ChatChoiceStreamView {
                    delta: ChatCompletionStreamResponseDeltaView {
                        tool_calls: if sorted.kept.len() > 0 {
                            Some(sorted.kept)
                        } else {
                            None
                        },
                        ..choice.delta
                    },
                    ..choice
                },
                sorted.kept.len() as int,
            )
        },
    }
}

/// More tool calls were emitted.
pub open spec fn counted(state: ChoiceJailStateView, n: int) -> ChoiceJailStateView {
    ChoiceJailStateView {
        emitted_tool_calls_count: capped(state.emitted_tool_calls_count + n) as usize,
        ..state
    }
}

/// Log-probabilities with more of them behind.
pub open spec fn logprobs_joined(
    old_ones: Option<ChatChoiceLogprobsView>,
    new_ones: Option<ChatChoiceLogprobsView>,
) -> Option<ChatChoiceLogprobsView> {
    match new_ones {
        None => old_ones,
        Some(new) => {
            let old = match old_ones {
                Some(old) => old,
                None => ChatChoiceLogprobsView { content: None, refusal: None },
            };
            Some(
                ChatChoiceLogprobsView {
                    content: lists_joined(old.content, new.content),
                    refusal: lists_joined(old.refusal, new.refusal),
                },
            )
        },
    }
}

/// A list with more items behind.
pub open spec fn lists_joined(a: Option<Seq<u64>>, b: Option<Seq<u64>>) -> Option<Seq<u64>> {
    match b {
        None => a,
        Some(more) => match a {
            Some(items) => Some(items + more),
            None => Some(more),
        },
    }
}

impl ChoiceJailStateView {
    /// The state of a choice that nothing is known of.
    pub open spec fn initial(index: u32, starts_jailed: bool) -> Self {
        ChoiceJailStateView {
            index,
            is_jailed: starts_jailed,
            accumulated_content: Seq::empty(),
            accumulated_logprobs: None,
            partial_match_buffer: Seq::empty(),
            stream_finish_reason: None,
            emitted_tool_calls_count: 0,
            emitted_required_tool_call_keys: Seq::empty(),
            terminate_after_tool_call: false,
            pending_reasoning_content: None,
            poolside_v1_state: PoolsideV1StreamStateView::initial(),
        }
    }

    /// The markup parser is consistent.
    pub open spec fn wf(self) -> bool {
        self.poolside_v1_state.wf()
    }

    /// The markup parser can number the tool calls in `text`.
    pub open spec fn has_room(self, text: Seq<char>) -> bool {
        self.poolside_v1_state.has_room(text)
    }

    /// Text after a required tool call is no content.
    pub open spec fn hides_trailing(self, jail: JailedStreamView) -> bool {
        jail.is_required() && self.emitted_tool_calls_count > 0
    }

    /// White space after a tool call is no content.
    pub open spec fn hides_blank(self, text: Seq<char>) -> bool {
        self.emitted_tool_calls_count > 0 && is_blank(text)
    }

    /// The reasoning of a forced tool choice, which may hold its JSON.
    pub open spec fn held_reasoning(self, jail: JailedStreamView) -> Option<Seq<char>> {
        match self.pending_reasoning_content {
            Some(reasoning) => if jail.jail_mode is Immediate && reasoning.len() > 0 {
                Some(reasoning)
            } else {
                None
            },
            None => None,
        }
    }

    /// Text, or the reasoning of a forced tool choice, is held back.
    pub open spec fn holds_back(self, jail: JailedStreamView) -> bool {
        self.is_jailed && (self.accumulated_content.len() > 0 || self.held_reasoning(jail) is Some)
    }

    /// Jailed with that text.
    pub open spec fn jailed_with(
        self,
        text: Seq<char>,
        logprobs: Option<ChatChoiceLogprobsView>,
    ) -> Self {
        ChoiceJailStateView {
            is_jailed: true,
            accumulated_content: text,
            accumulated_logprobs: logprobs,
            ..self
        }
    }

    /// Not jailed, with nothing accumulated.
    pub open spec fn unjailed(self) -> Self {
        ChoiceJailStateView {
            is_jailed: false,
            accumulated_content: Seq::empty(),
            accumulated_logprobs: None,
            ..self
        }
    }

    /// With nothing held back of a marker.
    pub open spec fn nothing_partial(self) -> Self {
        ChoiceJailStateView { partial_match_buffer: Seq::empty(), ..self }
    }
}

/// What processing a piece of text leads to.
#[verifier::ext_equal]
pub struct Processed {
    pub state: ChoiceJailStateView,
    pub emissions: Seq<ChoiceEmissionView>,
}

/// `text` of the chunk `choice`, as a choice of its own.
pub open spec fn piece(choice: ChatChoiceStreamView, text: Seq<char>) -> ChatChoiceStreamView {
    text_choice(
        choice.index,
        choice.delta.role,
        text,
        None,
        choice.finish_reason,
        choice.logprobs,
    )
}

/// Text before a marker is passed on, unless it is not content.
pub open spec fn prefix_emitted(
    state: ChoiceJailStateView,
    choice: ChatChoiceStreamView,
    jail: JailedStreamView,
    prefix: Seq<char>,
) -> Seq<ChoiceEmissionView> {
    if prefix.len() > 0 && !state.hides_trailing(jail) && !state.hides_blank(prefix) {
        seq![ChoiceEmissionView::PassThrough(piece(choice, prefix))]
    } else {
        Seq::empty()
    }
}

/// A choice made from jailed text is emitted: as tool calls where any are left
/// in it, else as content.
pub open spec fn released(
    before: Processed,
    choice: ChatChoiceStreamView,
    jail: JailedStreamView,
) -> Processed {
    let (state, ready, n) = prepared(before.state, choice, jail);
    if n > 0 {
        Processed {
            state: counted(state, n),
            emissions: before.emissions.push(ChoiceEmissionView::ToolCall(ready)),
        }
    } else if !state.terminate_after_tool_call {
        Processed { state, emissions: before.emissions.push(ChoiceEmissionView::Content(ready)) }
    } else {
        Processed { state, emissions: before.emissions }
    }
}

/// Text after a tool call is jailed again, dropped, or passed on.
pub open spec fn trail_known(
    before: Processed,
    choice: ChatChoiceStreamView,
    jail: JailedStreamView,
    trailing: Seq<char>,
    starts: bool,
) -> Processed {
    if starts {
        Processed { state: before.state.jailed_with(trailing, None), ..before }
    } else if before.state.hides_blank(trailing) {
        before
    } else if before.state.hides_trailing(jail) {
        Processed { state: before.state.jailed_with(trailing, None), ..before }
    } else {
        Processed {
            emissions: before.emissions.push(
                ChoiceEmissionView::Trailing(piece(choice, trailing)),
            ),
            ..before
        }
    }
}

/// Text after a tool call, where there is any.
pub open spec fn trailed(
    before: Processed,
    choice: ChatChoiceStreamView,
    jail: JailedStreamView,
    trailing: Seq<char>,
    facts: ParserFactsView,
) -> Result<Processed, ParserQueryView> {
    if trailing.len() == 0 {
        Ok(before)
    } else {
        match starts_jail(jail, trailing, facts) {
            Err(query) => Err(query),
            Ok(starts) => Ok(trail_known(before, choice, jail, trailing, starts)),
        }
    }
}

/// A whole marker came: either the tool call is complete, or the jail starts.
pub open spec fn marker_seen(
    state: ChoiceJailStateView,
    choice: ChatChoiceStreamView,
    jail: JailedStreamView,
    prefix: Seq<char>,
    full: Seq<char>,
    facts: ParserFactsView,
) -> Result<Processed, ParserQueryView> {
    let before = Processed { state, emissions: prefix_emitted(state, choice, jail, prefix) };
    match ends_jail(jail, full, facts) {
        Err(query) => Err(query),
        Ok((false, _)) => Ok(
            Processed {
                state: state.jailed_with(full, choice.logprobs).nothing_partial(),
                ..before
            },
        ),
        Ok((true, split)) => match call_choice(
            jail,
            choice.index,
            full.subrange(0, split),
            choice,
            state.emitted_tool_calls_count as int,
            false,
            facts,
        ) {
            Err(query) => Err(query),
            Ok(made) => match trailed(
                released(before, made, jail),
                choice,
                jail,
                full.subrange(split, full.len() as int),
                facts,
            ) {
                Err(query) => Err(query),
                Ok(after) => Ok(Processed { state: after.state.nothing_partial(), ..after }),
            },
        },
    }
}

/// No marker came: the text, with what was held back before it, may still start
/// a jail.
pub open spec fn no_marker_seen(
    state: ChoiceJailStateView,
    choice: ChatChoiceStreamView,
    jail: JailedStreamView,
    content: Seq<char>,
    facts: ParserFactsView,
) -> Result<Processed, ParserQueryView> {
    let combined = state.partial_match_buffer + content;
    let jailed = Processed {
        state: state.jailed_with(combined, choice.logprobs).nothing_partial(),
        emissions: Seq::empty(),
    };
    match starts_jail(jail, combined, facts) {
        Err(query) => Err(query),
        Ok(true) => Ok(jailed),
        Ok(false) => if state.hides_blank(content) {
            Ok(Processed { state: state.nothing_partial(), emissions: Seq::empty() })
        } else if state.hides_trailing(jail) {
            Ok(jailed)
        } else {
            Ok(
                Processed {
                    state: state.nothing_partial(),
                    emissions: if content.len() > 0 {
                        seq![ChoiceEmissionView::PassThrough(piece(choice, content))]
                    } else {
                        Seq::empty()
                    },
                },
            )
        },
    }
}

/// Text of a choice that is not jailed.
pub open spec fn free_text(
    state: ChoiceJailStateView,
    choice: ChatChoiceStreamView,
    content: Seq<char>,
    jail: JailedStreamView,
    facts: ParserFactsView,
) -> Result<Processed, ParserQueryView> {
    match marker_answer(facts.markers, content, state.partial_match_buffer) {
        None => Err(ParserQueryView::Marker { content, partial: state.partial_match_buffer }),
        Some(MatchResultView::Complete { prefix, marker, suffix }) => marker_seen(
            state,
            choice,
            jail,
            prefix,
            marker + suffix,
            facts,
        ),
        Some(MatchResultView::Partial { prefix, partial }) => Ok(
            Processed {
                state: ChoiceJailStateView { partial_match_buffer: partial, ..state },
                emissions: prefix_emitted(state, choice, jail, prefix),
            },
        ),
        Some(MatchResultView::NoMatch { content: seen }) => no_marker_seen(
            state,
            choice,
            jail,
            seen,
            facts,
        ),
    }
}

/// Text of a jailed choice is accumulated until the jail ends.
pub open spec fn jailed_text(
    state: ChoiceJailStateView,
    choice: ChatChoiceStreamView,
    content: Seq<char>,
    jail: JailedStreamView,
    facts: ParserFactsView,
) -> Result<Processed, ParserQueryView> {
    let all = state.accumulated_content + content;
    let logprobs = logprobs_joined(state.accumulated_logprobs, choice.logprobs);
    let grown = ChoiceJailStateView {
        accumulated_content: all,
        accumulated_logprobs: logprobs,
        ..state
    };
    match ends_jail(jail, all, facts) {
        Err(query) => Err(query),
        Ok((false, _)) => Ok(Processed { state: grown, emissions: Seq::empty() }),
        Ok((true, split)) => match call_choice(
            jail,
            choice.index,
            all.subrange(0, split),
            choice,
            state.emitted_tool_calls_count as int,
            false,
            facts,
        ) {
            Err(query) => Err(query),
            Ok(made) => {
                let out = released(
                    Processed { state: grown, emissions: Seq::empty() },
                    ChatChoiceStreamView { logprobs, ..made },
                    jail,
                );
                trailed(
                    Processed { state: out.state.unjailed(), ..out },
                    choice,
                    jail,
                    all.subrange(split, all.len() as int),
                    facts,
                )
            },
        },
    }
}

/// With another finish reason.
pub open spec fn finishing(
    emission: ChoiceEmissionView,
    finish_reason: Option<FinishReason>,
) -> ChoiceEmissionView {
    emission.with_choice(ChatChoiceStreamView { finish_reason, ..emission.choice() })
}

/// What is held back leaves with the finish reason of the chunk; where nothing leaves,
/// the finish reason gets a chunk of its own.
pub open spec fn released_at_finish(
    state: ChoiceJailStateView,
    index: u32,
    reason: FinishReason,
    jail: JailedStreamView,
    facts: ParserFactsView,
) -> Result<Processed, ParserQueryView> {
    match finalized(
        ChoiceJailStateView { stream_finish_reason: Some(reason), ..state },
        jail,
        facts,
    ) {
        Err(query) => Err(query),
        Ok((after, emission)) => Ok(
            Processed {
                state: after,
                emissions: seq![
                    match emission {
                        Some(emission) => emission,
                        None => ChoiceEmissionView::PassThrough(terminal_choice(index, reason)),
                    },
                ],
            },
        ),
    }
}

/// The finish reason of the chunk rides on the last emission of a marker-based
/// jail; where nothing is emitted it gets a chunk of its own. After tool calls
/// it is `ToolCalls`. What a forced tool choice without calls still holds back leaves
/// with it.
pub open spec fn finish_kept(
    after: Processed,
    choice: ChatChoiceStreamView,
    jail: JailedStreamView,
    facts: ParserFactsView,
) -> Result<Processed, ParserQueryView> {
    match choice.finish_reason {
        None => Ok(after),
        Some(given) => {
            let reason = if after.state.emitted_tool_calls_count > 0 {
                FinishReason::ToolCalls
            } else {
                given
            };
            let n = after.emissions.len() as int;
            if n == 0 {
                if jail.jail_mode is Immediate && after.state.emitted_tool_calls_count == 0
                    && after.state.holds_back(jail) {
                    released_at_finish(after.state, choice.index, reason, jail, facts)
                } else {
                    Ok(
                        Processed {
                            emissions: seq![
                                ChoiceEmissionView::PassThrough(
                                    terminal_choice(choice.index, reason),
                                ),
                            ],
                            ..after
                        },
                    )
                }
            } else if jail.jail_mode is MarkerBased {
                Ok(
                    Processed {
                        emissions: Seq::new(
                            n as nat,
                            |i: int|
                                finishing(
                                    after.emissions[i],
                                    if i == n - 1 {
                                        Some(reason)
                                    } else {
                                        None
                                    },
                                ),
                        ),
                        ..after
                    },
                )
            } else {
                Ok(after)
            }
        },
    }
}

/// The tool call that the reasoning of a forced tool choice holds, if any.
pub open spec fn reasoning_call(
    state: ChoiceJailStateView,
    jail: JailedStreamView,
    reasoning: Seq<char>,
    finalize: bool,
    facts: ParserFactsView,
) -> Result<Option<ChatChoiceStreamView>, ParserQueryView> {
    match call_choice(
        jail,
        state.index,
        reasoning,
        reasoning_base(state),
        state.emitted_tool_calls_count as int,
        finalize,
        facts,
    ) {
        Err(query) => Err(query),
        Ok(made) => Ok(
            if made.delta.tool_calls is Some {
                Some(made)
            } else {
                None
            },
        ),
    }
}

/// A choice without content, with what is known of the choice.
pub open spec fn reasoning_base(state: ChoiceJailStateView) -> ChatChoiceStreamView {
    optional_choice(
        state.index,
        Some(Role::Assistant),
        None,
        None,
        state.stream_finish_reason,
        state.accumulated_logprobs,
    )
}

/// Reasoning of a forced tool choice that came without content, and is already among
/// what is held back. It is parsed as content is: a complete call leaves at once, and
/// with the end of the choice everything leaves.
pub open spec fn reasoning_processed(
    state: ChoiceJailStateView,
    choice: ChatChoiceStreamView,
    jail: JailedStreamView,
    facts: ParserFactsView,
) -> Result<Processed, ParserQueryView> {
    let grown = ChoiceJailStateView {
        accumulated_logprobs: logprobs_joined(state.accumulated_logprobs, choice.logprobs),
        ..state
    };
    let held = Processed { state: grown, emissions: Seq::empty() };
    match (choice.finish_reason, grown.held_reasoning(jail)) {
        (Some(reason), _) => released_at_finish(grown, choice.index, reason, jail, facts),
        (None, Some(reasoning)) => if grown.accumulated_content.len() == 0 && choice_complete(
            jail.jail_mode->format,
            reasoning,
        ) {
            match reasoning_call(grown, jail, reasoning, false, facts) {
                Err(query) => Err(query),
                Ok(None) => Ok(held),
                Ok(Some(made)) => {
                    let out = released(
                        Processed {
                            state: ChoiceJailStateView {
                                pending_reasoning_content: None,
                                ..grown
                            },
                            ..held
                        },
                        made,
                        jail,
                    );
                    Ok(Processed { state: out.state.unjailed(), ..out })
                },
            }
        } else {
            Ok(held)
        },
        (None, None) => Ok(held),
    }
}

/// Text of a choice whose `poolside_v1` markup is parsed while it arrives.
pub open spec fn poolside_text(
    state: ChoiceJailStateView,
    choice: ChatChoiceStreamView,
    content: Seq<char>,
    jail: JailedStreamView,
    facts: ParserFactsView,
) -> Result<Processed, ParserQueryView> {
    if !jail.has_tools() {
        Ok(
            Processed {
                state,
                emissions: seq![ChoiceEmissionView::PassThrough(piece(choice, content))],
            },
        )
    } else {
        match delta_result(state.poolside_v1_state, content, jail.tool_definitions, facts) {
            Err(query) => Err(query),
            Ok(run) => {
                let next = ChoiceJailStateView { poolside_v1_state: run.state, ..state };
                let calls = run.delta.tool_calls;
                let out = optional_choice(
                    choice.index,
                    match choice.delta.role {
                        Some(role) => Some(role),
                        None => Some(Role::Assistant),
                    },
                    run.delta.content,
                    if calls.len() > 0 {
                        Some(calls)
                    } else {
                        None
                    },
                    choice.finish_reason,
                    choice.logprobs,
                );
                Ok(
                    Processed {
                        state: next,
                        emissions: if calls.len() > 0 {
                            seq![ChoiceEmissionView::ToolCall(out)]
                        } else if run.delta.content is Some {
                            seq![ChoiceEmissionView::PassThrough(out)]
                        } else {
                            Seq::empty()
                        },
                    },
                )
            },
        }
    }
}

/// What a piece of text of a choice leads to.
#[verifier::opaque]
pub open spec fn processed(
    state: ChoiceJailStateView,
    choice: ChatChoiceStreamView,
    content: Seq<char>,
    jail: JailedStreamView,
    facts: ParserFactsView,
) -> Result<Processed, ParserQueryView> {
    if jail.is_poolside_v1() {
        poolside_text(state, choice, content, jail, facts)
    } else {
        let after = if state.is_jailed {
            jailed_text(state, choice, content, jail, facts)
        } else {
            free_text(state, choice, content, jail, facts)
        };
        match after {
            Err(query) => Err(query),
            Ok(after) => finish_kept(after, choice, jail, facts),
        }
    }
}

/// What is held back of a choice, with the tool calls in it parsed. Without text, the
/// reasoning of a forced tool choice is looked through for a call; where there is none
/// it stays reasoning.
pub open spec fn final_choice(
    state: ChoiceJailStateView,
    jail: JailedStreamView,
    facts: ParserFactsView,
) -> Result<ChatChoiceStreamView, ParserQueryView> {
    if state.accumulated_content.len() > 0 {
        let base = text_choice(
            state.index,
            Some(Role::Assistant),
            state.accumulated_content,
            None,
            state.stream_finish_reason,
            state.accumulated_logprobs,
        );
        match call_choice(
            jail,
            state.index,
            state.accumulated_content,
            base,
            state.emitted_tool_calls_count as int,
            true,
            facts,
        ) {
            Err(query) => Err(query),
            Ok(made) => Ok(
                ChatChoiceStreamView {
                    logprobs: state.accumulated_logprobs,
                    delta: ChatCompletionStreamResponseDeltaView {
                        reasoning_content: reasoning_joined(
                            state.pending_reasoning_content,
                            made.delta.reasoning_content,
                        ),
                        ..made.delta
                    },
                    ..made
                },
            ),
        }
    } else {
        let reasoning = match state.held_reasoning(jail) {
            Some(reasoning) => reasoning,
            None => Seq::empty(),
        };
        match reasoning_call(state, jail, reasoning, true, facts) {
            Err(query) => Err(query),
            Ok(Some(made)) => Ok(made),
            Ok(None) => Ok(
                ChatChoiceStreamView {
                    delta: ChatCompletionStreamResponseDeltaView {
                        reasoning_content: Some(reasoning),
                        ..reasoning_base(state).delta
                    },
                    ..reasoning_base(state)
                },
            ),
        }
    }
}

/// Reasoning with more of it behind.
pub open spec fn reasoning_joined(
    first: Option<Seq<char>>,
    more: Option<Seq<char>>,
) -> Option<Seq<char>> {
    match (first, more) {
        (None, _) => more,
        (_, None) => first,
        (Some(a), Some(b)) => Some(a + b),
    }
}

/// What the end of the stream leads to for a choice.
pub open spec fn finalized(
    state: ChoiceJailStateView,
    jail: JailedStreamView,
    facts: ParserFactsView,
) -> Result<(ChoiceJailStateView, Option<ChoiceEmissionView>), ParserQueryView> {
    let markup = state.poolside_v1_state;
    if jail.is_poolside_v1() {
        let emptied = PoolsideV1StreamStateView {
            buffer: Seq::empty(),
            ..if markup.in_tool_call {
                markup.finished()
            } else {
                markup
            }
        };
        Ok(
            (
                ChoiceJailStateView { poolside_v1_state: emptied, ..state },
                if markup.in_tool_call || markup.buffer.len() == 0 {
                    None
                } else {
                    Some(
                        ChoiceEmissionView::Content(
                            optional_choice(
                                state.index,
                                Some(Role::Assistant),
                                Some(markup.buffer),
                                None,
                                state.stream_finish_reason,
                                None,
                            ),
                        ),
                    )
                },
            ),
        )
    } else if !state.holds_back(jail) {
        Ok((state, None))
    } else {
        match final_choice(state, jail, facts) {
            Err(query) => Err(query),
            Ok(full) => {
                let ended = ChoiceJailStateView { pending_reasoning_content: None, ..state };
                let (prep, ready, n) = prepared(ended, full, jail);
                let last = counted(prep, n).unjailed();
                Ok(
                    (
                        last,
                        if ready.delta.tool_calls is Some {
                            Some(
                                ChoiceEmissionView::ToolCall(
                                    ChatChoiceStreamView {
                                        finish_reason: match ready.finish_reason {
                                            Some(reason) => Some(reason),
                                            None => Some(FinishReason::ToolCalls),
                                        },
                                        ..ready
                                    },
                                ),
                            )
                        } else if last.terminate_after_tool_call {
                            None
                        } else {
                            Some(
                                ChoiceEmissionView::Content(
                                    ChatChoiceStreamView {
                                        finish_reason: match ready.finish_reason {
                                            Some(reason) => Some(reason),
                                            None => state.stream_finish_reason,
                                        },
                                        ..ready
                                    },
                                ),
                            )
                        },
                    ),
                )
            },
        }
    }
}

/// What tells a tool call from another.
pub fn tool_call_dedupe_key(tool_call: &ChatCompletionMessageToolCallChunk) -> (r: Option<String>)
    ensures
        r.deep_view() == dedupe_key(tool_call.deep_view()),
{
    let function: &FunctionCallStream = match &tool_call.function {
        Some(function) => function,
        None => {
            return None;
        },
    };
    let name: String = match &function.name {
        Some(name) => trim(name.as_str()),
        None => {
            return None;
        },
    };
    if name.as_str().is_empty() {
        return None;
    }
    proof {
        reveal_strlit("");
        assert(""@ =~= Seq::<char>::empty());
    }
    let args: String = match &function.arguments {
        Some(arguments) => trim(arguments.as_str()),
        None => trim(""),
    };
    let normalized: String = match Json::parse(args.as_str()) {
        Some(value) => canonicalize_json_value(&value).to_text(),
        None => args,
    };
    let mut key: String = name.clone();
    key.push('\u{1f}');
    assert(key@ =~= name@ + seq!['\u{1f}']);
    key.append(normalized.as_str());
    Some(key)
}

/// The position of `key` among the calls that came.
fn find_key(keys: &Vec<KeyCount>, key: &str) -> (r: Option<usize>)
    ensures
        r matches Some(p) ==> key_position(keys.deep_view(), key@, 0) == Some(p as int) && p
            < keys@.len(),
        r is None ==> key_position(keys.deep_view(), key@, 0) is None,
{
    let ghost all = keys.deep_view();
    let mut i: usize = 0;
    while i < keys.len()
        invariant
            all == keys.deep_view(),
            i <= keys@.len(),
            key_position(all, key@, 0) == key_position(all, key@, i as int),
        decreases keys@.len() - i,
    {
        assert(all[i as int] == keys@[i as int].deep_view());
        if same_text(keys[i].key.as_str(), key) {
            return Some(i);
        }
        i += 1;
    }
    None
}

/// Once a call came too often, the rest does not matter.
proof fn lemma_stopped(
    from: Sorted,
    chunks: Seq<ChatCompletionMessageToolCallChunkView>,
    i: int,
)
    requires
        0 <= i <= chunks.len(),
        from.over(chunks.subrange(0, i)).stopped,
    ensures
        from.over(chunks) == from.over(chunks.subrange(0, i)),
    decreases chunks.len(),
{
    if i == chunks.len() {
        assert(chunks.subrange(0, i) =~= chunks);
    } else {
        let front = chunks.subrange(0, chunks.len() - 1);
        assert(front.subrange(0, i) =~= chunks.subrange(0, i));
        lemma_stopped(from, front, i);
    }
}

/// A list with more items behind.
fn join_lists(a: Option<Vec<u64>>, b: &Option<Vec<u64>>) -> (r: Option<Vec<u64>>)
    ensures
        r.deep_view() == lists_joined(a.deep_view(), b.deep_view()),
{
    match b {
        None => a,
        Some(more) => {
            let mut items: Vec<u64> = match a {
                Some(items) => items,
                None => no_items(),
            };
            let ghost before = items.deep_view();
            append_items(&mut items, more.duplicate());
            proof {
                if a is None {
                    assert(before + more.deep_view() =~= more.deep_view());
                }
            }
            Some(items)
        },
    }
}

/// Log-probabilities with more of them behind.
pub fn join_logprobs(
    old_ones: Option<ChatChoiceLogprobs>,
    new_ones: &Option<ChatChoiceLogprobs>,
) -> (r: Option<ChatChoiceLogprobs>)
    ensures
        r.deep_view() == logprobs_joined(old_ones.deep_view(), new_ones.deep_view()),
{
    match new_ones {
        None => old_ones,
        Some(new) => {
            let old: ChatChoiceLogprobs = match old_ones {
                Some(old) => old,
                None => ChatChoiceLogprobs { content: None, refusal: None },
            };
            Some(
                ChatChoiceLogprobs {
                    content: join_lists(old.content, &new.content),
                    refusal: join_lists(old.refusal, &new.refusal),
                },
            )
        },
    }
}

/// The emission with another finish reason.
fn set_finish(emission: ChoiceEmission, finish_reason: Option<FinishReason>) -> (r: ChoiceEmission)
    ensures
        r.deep_view() == finishing(emission.deep_view(), finish_reason),
{
    let mut choice: ChatChoiceStream = emission.choice().duplicate();
    choice.finish_reason = finish_reason;
    emission.with_choice(choice)
}

/// Emissions, or the question that is open, in which case nothing changed.
pub open spec fn processing_matches(
    r: Result<Vec<ChoiceEmission>, ParserQuery>,
    before: ChoiceJailStateView,
    after: ChoiceJailStateView,
    expected: Result<Processed, ParserQueryView>,
) -> bool {
    match (r, expected) {
        (Ok(emissions), Ok(done)) => emissions.deep_view() == done.emissions && after
            == done.state,
        (Err(query), Err(missing)) => query.deep_view() == missing && after == before,
        _ => false,
    }
}

impl ChoiceJailState {
    /// Create a new jail state for a choice.
    pub fn new(index: u32, starts_jailed: bool) -> (r: Self)
        ensures
            r.deep_view() == ChoiceJailStateView::initial(index, starts_jailed),
            r.deep_view().wf(),
    {
        let r: ChoiceJailState = ChoiceJailState {
            index,
            is_jailed: starts_jailed,
            accumulated_content: String::new(),
            accumulated_logprobs: None,
            partial_match_buffer: String::new(),
            stream_finish_reason: None,
            emitted_tool_calls_count: 0,
            emitted_required_tool_call_keys: no_items(),
            terminate_after_tool_call: false,
            pending_reasoning_content: None,
            poolside_v1_state: PoolsideV1StreamState::initial(),
        };
        assert(r.deep_view() =~= ChoiceJailStateView::initial(index, starts_jailed));
        r
    }

    /// Add content and logprobs to this choice's accumulation.
    pub fn accumulate(&mut self, content: &str, logprobs: &Option<ChatChoiceLogprobs>)
        ensures
            final(self).deep_view() == (if old(self).is_jailed {
                ChoiceJailStateView {
                    accumulated_content: old(self).accumulated_content@ + content@,
                    accumulated_logprobs: logprobs_joined(
                        old(self).accumulated_logprobs.deep_view(),
                        logprobs.deep_view(),
                    ),
                    ..old(self).deep_view()
                }
            } else {
                old(self).deep_view()
            }),
    {
        if self.is_jailed {
            self.accumulated_content.append(content);
            let old_ones: Option<ChatChoiceLogprobs> = self.accumulated_logprobs.take();
            self.accumulated_logprobs = join_logprobs(old_ones, logprobs);
        }
    }

    /// Consume the accumulated logprobs, replacing them with `None`.
    pub fn take_accumulated_logprobs(&mut self) -> (r: Option<ChatChoiceLogprobs>)
        ensures
            r.deep_view() == old(self).deep_view().accumulated_logprobs,
            final(self).deep_view() == (ChoiceJailStateView {
                accumulated_logprobs: None,
                ..old(self).deep_view()
            }),
    {
        self.accumulated_logprobs.take()
    }

    /// End jailing and return the accumulated content.
    pub fn end_jail(&mut self) -> (r: String)
        ensures
            r@ == old(self).accumulated_content@,
            final(self).deep_view() == old(self).deep_view().unjailed(),
    {
        self.is_jailed = false;
        self.accumulated_logprobs = None;
        let content: String = self.accumulated_content.clone();
        self.accumulated_content = String::new();
        content
    }

    /// Whether text after a required tool call is no content.
    pub fn should_suppress_non_tool_trailing(&self, jail_stream: &JailedStream) -> (r: bool)
        ensures
            r == self.deep_view().hides_trailing(jail_stream.deep_view()),
    {
        jail_stream.is_required() && self.emitted_tool_calls_count > 0
    }

    /// Whether `content` is only white space after a tool call.
    pub fn should_suppress_post_tool_whitespace(&self, content: &str) -> (r: bool)
        ensures
            r == self.deep_view().hides_blank(content@),
    {
        self.emitted_tool_calls_count > 0 && blank(content)
    }

    /// Whether repeated tool calls are dropped.
    pub fn should_guard_required_duplicates(&self, jail_stream: &JailedStream) -> (r: bool)
        ensures
            r == jail_stream.deep_view().guards_duplicates(),
    {
        jail_stream.guards_duplicates()
    }

    /// Drops tool calls that came before, and counts how often they came.
    pub fn prepare_tool_call_emission(
        &mut self,
        choice: &mut ChatChoiceStream,
        jail_stream: &JailedStream,
    ) -> (r: usize)
        ensures
            (final(self).deep_view(), final(choice).deep_view(), r as int) == prepared(
                old(self).deep_view(),
                old(choice).deep_view(),
                jail_stream.deep_view(),
            ),
    {
        let tool_calls: Vec<ChatCompletionMessageToolCallChunk> = match choice.delta.tool_calls.take() {
            Some(tool_calls) => tool_calls,
            None => {
                return 0;
            },
        };
        if !self.should_guard_required_duplicates(jail_stream) {
            let n: usize = tool_calls.len();
            choice.delta.tool_calls = Some(tool_calls);
            return n;
        }
        let ghost all = tool_calls.deep_view();
        let ghost start = Sorted {
            keys: self.deep_view().emitted_required_tool_call_keys,
            kept: Seq::empty(),
            stopped: false,
        };
        let ghost before = self.deep_view();
        let mut kept: Vec<ChatCompletionMessageToolCallChunk> = no_items();
        let mut stopped: bool = false;
        let mut i: usize = 0;
        assert(all.subrange(0, 0) =~= Seq::empty());
        while i < tool_calls.len() && !stopped
            invariant
                all == tool_calls.deep_view(),
                i <= tool_calls@.len(),
                self.deep_view() == (ChoiceJailStateView {
                    emitted_required_tool_call_keys: self.deep_view().emitted_required_tool_call_keys,
                    ..before
                }),
                (Sorted {
                    keys: self.deep_view().emitted_required_tool_call_keys,
                    kept: kept.deep_view(),
                    stopped,
                }) == start.over(all.subrange(0, i as int)),
            decreases tool_calls@.len() - i,
        {
            let ghost next = all.subrange(0, i + 1);
            assert(next.subrange(0, next.len() - 1) =~= all.subrange(0, i as int));
            assert(next[next.len() - 1] == tool_calls@[i as int].deep_view());
            match tool_call_dedupe_key(&tool_calls[i]) {
                None => {
                    push_item(&mut kept, tool_calls[i].duplicate());
                },
                Some(key) => {
                    match find_key(&self.emitted_required_tool_call_keys, key.as_str()) {
                        None => {
                            push_item(
                                &mut self.emitted_required_tool_call_keys,
                                KeyCount { key, count: 1 },
                            );
                            push_item(&mut kept, tool_calls[i].duplicate());
                        },
                        Some(p) => {
                            let ghost keys = self.deep_view().emitted_required_tool_call_keys;
                            let count: usize =
                                self.emitted_required_tool_call_keys[p].count.saturating_add(1);
                            let same: String = self.emitted_required_tool_call_keys[p].key.clone();
                            let entry: KeyCount = KeyCount { key: same, count };
                            self.emitted_required_tool_call_keys[p] = entry;
                            assert(self.deep_view().emitted_required_tool_call_keys =~= keys.update(
                                p as int,
                                entry.deep_view(),
                            ));
                            stopped = count > MAX_SUPPRESSED_REQUIRED_TOOL_DUPLICATES + 1;
                        },
                    }
                },
            }
            i += 1;
        }
        proof {
            if stopped {
                lemma_stopped(start, all, i as int);
            } else {
                assert(all.subrange(0, all.len() as int) =~= all);
            }
        }
        if stopped {
            self.terminate_after_tool_call = true;
        }
        let n: usize = kept.len();
        if n > 0 {
            choice.delta.tool_calls = Some(kept);
        }
        n
    }

    /// Whether the stream is to stop; the wish is then forgotten.
    pub fn take_terminate_after_tool_call(&mut self) -> (r: bool)
        ensures
            r == old(self).terminate_after_tool_call,
            final(self).deep_view() == (ChoiceJailStateView {
                terminate_after_tool_call: false,
                ..old(self).deep_view()
            }),
    {
        let terminate: bool = self.terminate_after_tool_call;
        self.terminate_after_tool_call = false;
        terminate
    }

    /// Emits a choice made from jailed text.
    fn release(
        &mut self,
        emissions: &mut Vec<ChoiceEmission>,
        made: ChatChoiceStream,
        jail_stream: &JailedStream,
    )
        ensures
            (Processed { state: final(self).deep_view(), emissions: final(emissions).deep_view() })
                == released(
                Processed { state: old(self).deep_view(), emissions: old(emissions).deep_view() },
                made.deep_view(),
                jail_stream.deep_view(),
            ),
    {
        let mut ready: ChatChoiceStream = made;
        let n: usize = self.prepare_tool_call_emission(&mut ready, jail_stream);
        if n > 0 {
            self.emitted_tool_calls_count = self.emitted_tool_calls_count.saturating_add(n);
            push_item(emissions, ChoiceEmission::ToolCall(ready));
        } else if !self.terminate_after_tool_call {
            push_item(emissions, ChoiceEmission::Content(ready));
        }
    }

    /// Handles text after a tool call.
    fn trail(
        &mut self,
        emissions: &mut Vec<ChoiceEmission>,
        choice: &ChatChoiceStream,
        jail_stream: &JailedStream,
        trailing: &str,
        starts: bool,
    )
        ensures
            (Processed { state: final(self).deep_view(), emissions: final(emissions).deep_view() })
                == trail_known(
                Processed { state: old(self).deep_view(), emissions: old(emissions).deep_view() },
                choice.deep_view(),
                jail_stream.deep_view(),
                trailing@,
                starts,
            ),
    {
        if starts || (!self.should_suppress_post_tool_whitespace(trailing)
            && self.should_suppress_non_tool_trailing(jail_stream)) {
            self.is_jailed = true;
            self.accumulated_content = trailing.to_owned();
            self.accumulated_logprobs = None;
        } else if !self.should_suppress_post_tool_whitespace(trailing) {
            push_item(emissions, ChoiceEmission::Trailing(make_piece(choice, trailing)));
        }
    }

    /// What is passed on of the text before a marker.
    fn emit_prefix(
        &self,
        choice: &ChatChoiceStream,
        jail_stream: &JailedStream,
        prefix: &str,
    ) -> (r: Vec<ChoiceEmission>)
        ensures
            r.deep_view() == prefix_emitted(
                self.deep_view(),
                choice.deep_view(),
                jail_stream.deep_view(),
                prefix@,
            ),
    {
        if !prefix.is_empty() && !self.should_suppress_non_tool_trailing(jail_stream)
            && !self.should_suppress_post_tool_whitespace(prefix) {
            one_item(ChoiceEmission::PassThrough(make_piece(choice, prefix)))
        } else {
            no_items()
        }
    }

    /// A whole marker came.
    fn on_marker(
        &mut self,
        choice: &ChatChoiceStream,
        jail_stream: &JailedStream,
        prefix: &str,
        full: &str,
        facts: &ParserFacts,
    ) -> (r: Result<Vec<ChoiceEmission>, ParserQuery>)
        requires
            facts.deep_view().wf(),
        ensures
            processing_matches(
                r,
                old(self).deep_view(),
                final(self).deep_view(),
                marker_seen(
                    old(self).deep_view(),
                    choice.deep_view(),
                    jail_stream.deep_view(),
                    prefix@,
                    full@,
                    facts.deep_view(),
                ),
            ),
    {
        let mut emissions: Vec<ChoiceEmission> = self.emit_prefix(choice, jail_stream, prefix);
        let (ends, split): (bool, usize) = match jail_stream.should_end_jail(full, facts) {
            Ok(end) => end,
            Err(query) => {
                return Err(query);
            },
        };
        if !ends {
            self.is_jailed = true;
            self.accumulated_content = full.to_owned();
            self.accumulated_logprobs = choice.logprobs.duplicate();
            self.partial_match_buffer = String::new();
            return Ok(emissions);
        }
        let n: usize = full.unicode_len();
        let jailed: String = slice_of(full, 0, split);
        let trailing: String = slice_of(full, split, n);
        let made: ChatChoiceStream = match jail_stream.create_tool_call_choice(
            choice.index,
            jailed.as_str(),
            choice,
            self.emitted_tool_calls_count,
            false,
            facts,
        ) {
            Ok(made) => made,
            Err(query) => {
                return Err(query);
            },
        };
        if trailing.as_str().is_empty() {
            self.release(&mut emissions, made, jail_stream);
        } else {
            let starts: bool = match jail_stream.should_start_jail(trailing.as_str(), facts) {
                Ok(starts) => starts,
                Err(query) => {
                    return Err(query);
                },
            };
            self.release(&mut emissions, made, jail_stream);
            self.trail(&mut emissions, choice, jail_stream, trailing.as_str(), starts);
        }
        self.partial_match_buffer = String::new();
        Ok(emissions)
    }

    /// No marker came.
    fn on_no_marker(
        &mut self,
        choice: &ChatChoiceStream,
        jail_stream: &JailedStream,
        content: &str,
        facts: &ParserFacts,
    ) -> (r: Result<Vec<ChoiceEmission>, ParserQuery>)
        ensures
            processing_matches(
                r,
                old(self).deep_view(),
                final(self).deep_view(),
                no_marker_seen(
                    old(self).deep_view(),
                    choice.deep_view(),
                    jail_stream.deep_view(),
                    content@,
                    facts.deep_view(),
                ),
            ),
    {
        let combined: String = join(self.partial_match_buffer.as_str(), content);
        let starts: bool = match jail_stream.should_start_jail(combined.as_str(), facts) {
            Ok(starts) => starts,
            Err(query) => {
                return Err(query);
            },
        };
        let hides_blank: bool = self.should_suppress_post_tool_whitespace(content);
        let hides_trailing: bool = self.should_suppress_non_tool_trailing(jail_stream);
        self.partial_match_buffer = String::new();
        if starts || (!hides_blank && hides_trailing) {
            self.is_jailed = true;
            self.accumulated_content = combined;
            self.accumulated_logprobs = choice.logprobs.duplicate();
            Ok(no_items())
        } else if hides_blank || content.is_empty() {
            Ok(no_items())
        } else {
            Ok(one_item(ChoiceEmission::PassThrough(make_piece(choice, content))))
        }
    }

    /// Text of a choice that is not jailed.
    fn on_free_text(
        &mut self,
        choice: &ChatChoiceStream,
        content: &str,
        jail_stream: &JailedStream,
        facts: &ParserFacts,
    ) -> (r: Result<Vec<ChoiceEmission>, ParserQuery>)
        requires
            facts.deep_view().wf(),
        ensures
            processing_matches(
                r,
                old(self).deep_view(),
                final(self).deep_view(),
                free_text(
                    old(self).deep_view(),
                    choice.deep_view(),
                    content@,
                    jail_stream.deep_view(),
                    facts.deep_view(),
                ),
            ),
    {
        match facts.marker(content, self.partial_match_buffer.as_str()) {
            None => Err(
                ParserQuery::Marker {
                    content: content.to_owned(),
                    partial: self.partial_match_buffer.clone(),
                },
            ),
            Some(MatchResult::Complete { prefix, marker, suffix }) => {
                let full: String = join(marker.as_str(), suffix.as_str());
                self.on_marker(choice, jail_stream, prefix.as_str(), full.as_str(), facts)
            },
            Some(MatchResult::Partial { prefix, partial }) => {
                let emissions: Vec<ChoiceEmission> = self.emit_prefix(
                    choice,
                    jail_stream,
                    prefix.as_str(),
                );
                self.partial_match_buffer = partial.clone();
                Ok(emissions)
            },
            Some(MatchResult::NoMatch { content: seen }) => {
                self.on_no_marker(choice, jail_stream, seen.as_str(), facts)
            },
        }
    }

    /// Text of a jailed choice.
    fn on_jailed_text(
        &mut self,
        choice: &ChatChoiceStream,
        content: &str,
        jail_stream: &JailedStream,
        facts: &ParserFacts,
    ) -> (r: Result<Vec<ChoiceEmission>, ParserQuery>)
        requires
            facts.deep_view().wf(),
            old(self).is_jailed,
        ensures
            processing_matches(
                r,
                old(self).deep_view(),
                final(self).deep_view(),
                jailed_text(
                    old(self).deep_view(),
                    choice.deep_view(),
                    content@,
                    jail_stream.deep_view(),
                    facts.deep_view(),
                ),
            ),
    {
        let all: String = join(self.accumulated_content.as_str(), content);
        let (ends, split): (bool, usize) = match jail_stream.should_end_jail(all.as_str(), facts) {
            Ok(end) => end,
            Err(query) => {
                return Err(query);
            },
        };
        if !ends {
            self.accumulate(content, &choice.logprobs);
            return Ok(no_items());
        }
        let n: usize = all.as_str().unicode_len();
        let jailed: String = slice_of(all.as_str(), 0, split);
        let trailing: String = slice_of(all.as_str(), split, n);
        let mut made: ChatChoiceStream = match jail_stream.create_tool_call_choice(
            choice.index,
            jailed.as_str(),
            choice,
            self.emitted_tool_calls_count,
            false,
            facts,
        ) {
            Ok(made) => made,
            Err(query) => {
                return Err(query);
            },
        };
        let mut starts: bool = false;
        if !trailing.as_str().is_empty() {
            match jail_stream.should_start_jail(trailing.as_str(), facts) {
                Ok(b) => {
                    starts = b;
                },
                Err(query) => {
                    return Err(query);
                },
            }
        }
        let mut emissions: Vec<ChoiceEmission> = no_items();
        self.accumulate(content, &choice.logprobs);
        made.logprobs = self.accumulated_logprobs.duplicate();
        self.release(&mut emissions, made, jail_stream);
        let ended: String = self.end_jail();
        if !trailing.as_str().is_empty() {
            self.trail(&mut emissions, choice, jail_stream, trailing.as_str(), starts);
        }
        Ok(emissions)
    }

    /// The tool call that the reasoning of a forced tool choice holds, if any.
    fn call_in_reasoning(
        &self,
        jail_stream: &JailedStream,
        reasoning: &str,
        finalize: bool,
        facts: &ParserFacts,
    ) -> (r: Result<Option<ChatChoiceStream>, ParserQuery>)
        ensures
            match (
                r,
                reasoning_call(
                    self.deep_view(),
                    jail_stream.deep_view(),
                    reasoning@,
                    finalize,
                    facts.deep_view(),
                ),
            ) {
                (Ok(a), Ok(b)) => a.deep_view() == b,
                (Err(query), Err(missing)) => query.deep_view() == missing,
                _ => false,
            },
    {
        let base: ChatChoiceStream = self.base_for_reasoning();
        match jail_stream.create_tool_call_choice(
            self.index,
            reasoning,
            &base,
            self.emitted_tool_calls_count,
            finalize,
            facts,
        ) {
            Err(query) => Err(query),
            Ok(made) => if made.delta.tool_calls.is_some() {
                Ok(Some(made))
            } else {
                Ok(None)
            },
        }
    }

    /// A choice without content, with what is known of the choice.
    fn base_for_reasoning(&self) -> (r: ChatChoiceStream)
        ensures
            r.deep_view() == reasoning_base(self.deep_view()),
    {
        create_choice_stream_optional_content(
            self.index,
            Some(Role::Assistant),
            None,
            None,
            self.stream_finish_reason,
            self.accumulated_logprobs.duplicate(),
        )
    }

    /// Whether text, or the reasoning of a forced tool choice, is held back.
    pub fn holds_back(&self, jail_stream: &JailedStream) -> (r: bool)
        ensures
            r == self.deep_view().holds_back(jail_stream.deep_view()),
    {
        let has_reasoning: bool = match &self.pending_reasoning_content {
            Some(reasoning) => jail_stream.is_immediate() && !reasoning.as_str().is_empty(),
            None => false,
        };
        self.is_jailed && (!self.accumulated_content.as_str().is_empty() || has_reasoning)
    }

    /// Releases what is held back with the finish reason of the chunk. Where an answer
    /// is missing, the state is not to be used any more.
    fn release_at_finish(
        &mut self,
        index: u32,
        reason: FinishReason,
        jail_stream: &JailedStream,
        facts: &ParserFacts,
    ) -> (r: Result<Vec<ChoiceEmission>, ParserQuery>)
        requires
            old(self).deep_view().wf(),
        ensures
            final(self).deep_view().wf(),
            match (
                r,
                released_at_finish(
                    old(self).deep_view(),
                    index,
                    reason,
                    jail_stream.deep_view(),
                    facts.deep_view(),
                ),
            ) {
                (Ok(emissions), Ok(done)) => emissions.deep_view() == done.emissions
                    && final(self).deep_view() == done.state,
                (Err(query), Err(missing)) => query.deep_view() == missing,
                _ => false,
            },
    {
        self.stream_finish_reason = Some(reason);
        match self.finalize(jail_stream, facts) {
            Err(query) => Err(query),
            Ok(Some(emission)) => Ok(one_item(emission)),
            Ok(None) => Ok(
                one_item(ChoiceEmission::PassThrough(create_terminal_choice(index, reason))),
            ),
        }
    }

    /// Reasoning of a forced tool choice that came without content, and is already among
    /// what is held back.
    ///
    /// Where an answer is missing, the state stays as it was and the question
    /// is returned.
    pub fn process_reasoning(
        &mut self,
        choice: &ChatChoiceStream,
        jail_stream: &JailedStream,
        facts: &ParserFacts,
    ) -> (r: Result<Vec<ChoiceEmission>, ParserQuery>)
        requires
            old(self).deep_view().wf(),
        ensures
            final(self).deep_view().wf(),
            processing_matches(
                r,
                old(self).deep_view(),
                final(self).deep_view(),
                reasoning_processed(
                    old(self).deep_view(),
                    choice.deep_view(),
                    jail_stream.deep_view(),
                    facts.deep_view(),
                ),
            ),
    {
        let saved: ChoiceJailState = self.duplicate();
        let old_ones: Option<ChatChoiceLogprobs> = self.accumulated_logprobs.take();
        self.accumulated_logprobs = join_logprobs(old_ones, &choice.logprobs);
        match choice.finish_reason {
            Some(reason) => {
                return match self.release_at_finish(choice.index, reason, jail_stream, facts) {
                    Ok(emissions) => Ok(emissions),
                    Err(query) => {
                        *self = saved;
                        Err(query)
                    },
                };
            },
            None => {},
        }
        let format: &ToolChoiceFormat = match &jail_stream.jail_mode {
            JailMode::Immediate { format } => format,
            JailMode::MarkerBased => {
                return Ok(no_items());
            },
        };
        let made: Option<ChatChoiceStream> = match &self.pending_reasoning_content {
            Some(reasoning) => if !reasoning.as_str().is_empty()
                && self.accumulated_content.as_str().is_empty() && is_choice_complete(
                format,
                reasoning.as_str(),
            ) {
                match self.call_in_reasoning(jail_stream, reasoning.as_str(), false, facts) {
                    Ok(made) => made,
                    Err(query) => {
                        *self = saved;
                        return Err(query);
                    },
                }
            } else {
                None
            },
            None => None,
        };
        match made {
            None => Ok(no_items()),
            Some(made) => {
                self.pending_reasoning_content = None;
                let mut emissions: Vec<ChoiceEmission> = no_items();
                self.release(&mut emissions, made, jail_stream);
                let ended: String = self.end_jail();
                Ok(emissions)
            },
        }
    }

    /// Keeps the finish reason of the chunk. Where an answer is missing, the state is
    /// not to be used any more.
    fn keep_finish(
        &mut self,
        emissions: Vec<ChoiceEmission>,
        choice: &ChatChoiceStream,
        jail_stream: &JailedStream,
        facts: &ParserFacts,
    ) -> (r: Result<Vec<ChoiceEmission>, ParserQuery>)
        requires
            old(self).deep_view().wf(),
        ensures
            final(self).deep_view().wf(),
            match (
                r,
                finish_kept(
                    Processed { state: old(self).deep_view(), emissions: emissions.deep_view() },
                    choice.deep_view(),
                    jail_stream.deep_view(),
                    facts.deep_view(),
                ),
            ) {
                (Ok(out), Ok(done)) => out.deep_view() == done.emissions
                    && final(self).deep_view() == done.state,
                (Err(query), Err(missing)) => query.deep_view() == missing,
                _ => false,
            },
    {
        let reason: FinishReason = match choice.finish_reason {
            Some(reason) => if self.emitted_tool_calls_count > 0 {
                FinishReason::ToolCalls
            } else {
                reason
            },
            None => {
                return Ok(emissions);
            },
        };
        let n: usize = emissions.len();
        if n == 0 {
            if jail_stream.is_immediate() && self.emitted_tool_calls_count == 0
                && self.holds_back(jail_stream) {
                return self.release_at_finish(choice.index, reason, jail_stream, facts);
            }
            return Ok(
                one_item(
                    ChoiceEmission::PassThrough(create_terminal_choice(choice.index, reason)),
                ),
            );
        }
        if jail_stream.is_immediate() {
            return Ok(emissions);
        }
        let ghost all = emissions.deep_view();
        let ghost last = n - 1;
        let mut rest: Vec<ChoiceEmission> = emissions;
        let mut out: Vec<ChoiceEmission> = Vec::new();
        let mut i: usize = 0;
        while i < n
            invariant
                i <= n,
                n == all.len(),
                last == n - 1,
                rest@.len() == n - i,
                out@.len() == i,
                forall|k: int| 0 <= k < n - i ==> (#[trigger] rest@[k]).deep_view() == all[i + k],
                forall|k: int|
                    0 <= k < i ==> (#[trigger] out@[k]).deep_view() == finishing(
                        all[k],
                        if k == last {
                            Some(reason)
                        } else {
                            None
                        },
                    ),
            decreases n - i,
        {
            let emission: ChoiceEmission = rest.remove(0);
            let finish: Option<FinishReason> = if i + 1 == n {
                Some(reason)
            } else {
                None
            };
            out.push(set_finish(emission, finish));
            i += 1;
        }
        assert(out.deep_view() =~= Seq::new(
            n as nat,
            |k: int|
                finishing(
                    all[k],
                    if k == n - 1 {
                        Some(reason)
                    } else {
                        None
                    },
                ),
        ));
        Ok(out)
    }

    /// Text of a choice whose `poolside_v1` markup is parsed while it arrives.
    pub fn process_poolside_v1_content(
        &mut self,
        choice: &ChatChoiceStream,
        content: &str,
        jail_stream: &JailedStream,
        facts: &ParserFacts,
    ) -> (r: Result<Vec<ChoiceEmission>, ParserQuery>)
        requires
            old(self).deep_view().wf(),
            jail_stream.deep_view().has_tools() ==> old(self).deep_view().has_room(content@),
        ensures
            final(self).deep_view().wf(),
            processing_matches(
                r,
                old(self).deep_view(),
                final(self).deep_view(),
                poolside_text(
                    old(self).deep_view(),
                    choice.deep_view(),
                    content@,
                    jail_stream.deep_view(),
                    facts.deep_view(),
                ),
            ),
    {
        if !jail_stream.poolside_v1_tools_enabled() {
            return Ok(one_item(ChoiceEmission::PassThrough(make_piece(choice, content))));
        }
        let parsed: PoolsideV1StreamDelta = match self.poolside_v1_state.process_delta(
            content,
            &jail_stream.tool_definitions,
            facts,
        ) {
            Ok(parsed) => parsed,
            Err(query) => {
                return Err(query);
            },
        };
        let has_content: bool = parsed.content.is_some();
        let has_tool_calls: bool = parsed.tool_calls.len() > 0;
        if !has_content && !has_tool_calls {
            return Ok(no_items());
        }
        let role: Option<Role> = match choice.delta.role {
            Some(role) => Some(role),
            None => Some(Role::Assistant),
        };
        let tool_calls: Option<Vec<ChatCompletionMessageToolCallChunk>> = if has_tool_calls {
            Some(parsed.tool_calls)
        } else {
            None
        };
        let out: ChatChoiceStream = create_choice_stream_optional_content(
            choice.index,
            role,
            parsed.content,
            tool_calls,
            choice.finish_reason,
            choice.logprobs.duplicate(),
        );
        if has_tool_calls {
            Ok(one_item(ChoiceEmission::ToolCall(out)))
        } else {
            Ok(one_item(ChoiceEmission::PassThrough(out)))
        }
    }

    /// Process incoming content and return what should be emitted (if anything).
    ///
    /// Where an answer is missing, the state stays as it was and the question
    /// is returned.
    pub fn process_content(
        &mut self,
        choice: &ChatChoiceStream,
        content: &str,
        jail_stream: &JailedStream,
        facts: &ParserFacts,
    ) -> (r: Result<Vec<ChoiceEmission>, ParserQuery>)
        requires
            old(self).deep_view().wf(),
            jail_stream.deep_view().parses_markup() ==> old(self).deep_view().has_room(content@),
            facts.deep_view().wf(),
        ensures
            final(self).deep_view().wf(),
            processing_matches(
                r,
                old(self).deep_view(),
                final(self).deep_view(),
                processed(
                    old(self).deep_view(),
                    choice.deep_view(),
                    content@,
                    jail_stream.deep_view(),
                    facts.deep_view(),
                ),
            ),
    {
        proof {
            reveal(processed);
        }
        if jail_stream.is_poolside_v1_parser() {
            return self.process_poolside_v1_content(choice, content, jail_stream, facts);
        }
        let saved: ChoiceJailState = self.duplicate();
        let done: Result<Vec<ChoiceEmission>, ParserQuery> = if self.is_jailed {
            self.on_jailed_text(choice, content, jail_stream, facts)
        } else {
            self.on_free_text(choice, content, jail_stream, facts)
        };
        match done {
            Err(query) => Err(query),
            Ok(emissions) => match self.keep_finish(emissions, choice, jail_stream, facts) {
                Ok(emissions) => Ok(emissions),
                Err(query) => {
                    *self = saved;
                    Err(query)
                },
            },
        }
    }

    /// What is held back of the choice, with the tool calls in it parsed.
    fn make_final_choice(&self, jail_stream: &JailedStream, facts: &ParserFacts) -> (r: Result<
        ChatChoiceStream,
        ParserQuery,
    >)
        requires
            self.deep_view().holds_back(jail_stream.deep_view()),
        ensures
            match (
                r,
                final_choice(self.deep_view(), jail_stream.deep_view(), facts.deep_view()),
            ) {
                (Ok(a), Ok(b)) => a.deep_view() == b,
                (Err(query), Err(missing)) => query.deep_view() == missing,
                _ => false,
            },
    {
        if self.accumulated_content.as_str().is_empty() {
            let reasoning: &str = match &self.pending_reasoning_content {
                Some(reasoning) => reasoning.as_str(),
                None => "",
            };
            return match self.call_in_reasoning(jail_stream, reasoning, true, facts) {
                Err(query) => Err(query),
                Ok(Some(made)) => Ok(made),
                Ok(None) => {
                    let mut last: ChatChoiceStream = self.base_for_reasoning();
                    last.delta.reasoning_content = Some(reasoning.to_owned());
                    Ok(last)
                },
            };
        }
        let base: ChatChoiceStream = create_choice_stream(
            self.index,
            Some(Role::Assistant),
            self.accumulated_content.as_str(),
            None,
            self.stream_finish_reason,
            self.accumulated_logprobs.duplicate(),
        );
        let mut last: ChatChoiceStream = match jail_stream.create_tool_call_choice(
            self.index,
            self.accumulated_content.as_str(),
            &base,
            self.emitted_tool_calls_count,
            true,
            facts,
        ) {
            Ok(last) => last,
            Err(query) => {
                return Err(query);
            },
        };
        last.logprobs = self.accumulated_logprobs.duplicate();
        let more: Option<String> = last.delta.reasoning_content.take();
        last.delta.reasoning_content = join_reasoning(&self.pending_reasoning_content, more);
        Ok(last)
    }

    /// Finalize any remaining content when the stream ends.
    ///
    /// Where an answer is missing, the state stays as it was and the question
    /// is returned.
    pub fn finalize(&mut self, jail_stream: &JailedStream, facts: &ParserFacts) -> (r: Result<
        Option<ChoiceEmission>,
        ParserQuery,
    >)
        requires
            old(self).deep_view().wf(),
        ensures
            final(self).deep_view().wf(),
            match (
                r,
                finalized(old(self).deep_view(), jail_stream.deep_view(), facts.deep_view()),
            ) {
                (Ok(emission), Ok(done)) => emission.deep_view() == done.1 && final(self).deep_view()
                    == done.0,
                (Err(query), Err(missing)) => query.deep_view() == missing && final(self).deep_view()
                    == old(self).deep_view(),
                _ => false,
            },
    {
        let assistant: Option<Role> = Some(Role::Assistant);
        if jail_stream.is_poolside_v1_parser() {
            return match self.poolside_v1_state.finalize_content() {
                None => Ok(None),
                Some(content) => Ok(
                    Some(
                        ChoiceEmission::Content(
                            create_choice_stream_optional_content(
                                self.index,
                                assistant,
                                Some(content),
                                None,
                                self.stream_finish_reason,
                                None,
                            ),
                        ),
                    ),
                ),
            };
        }
        if !self.holds_back(jail_stream) {
            return Ok(None);
        }
        let mut last: ChatChoiceStream = match self.make_final_choice(jail_stream, facts) {
            Ok(last) => last,
            Err(query) => {
                return Err(query);
            },
        };
        self.pending_reasoning_content = None;
        let n: usize = self.prepare_tool_call_emission(&mut last, jail_stream);
        self.emitted_tool_calls_count = self.emitted_tool_calls_count.saturating_add(n);
        let ended: String = self.end_jail();
        if last.delta.tool_calls.is_some() {
            if last.finish_reason.is_none() {
                last.finish_reason = Some(FinishReason::ToolCalls);
            }
            Ok(Some(ChoiceEmission::ToolCall(last)))
        } else if self.terminate_after_tool_call {
            Ok(None)
        } else {
            if last.finish_reason.is_none() {
                last.finish_reason = self.stream_finish_reason;
            }
            Ok(Some(ChoiceEmission::Content(last)))
        }
    }
}

/// Reasoning with more of it behind.
pub fn join_reasoning(first: &Option<String>, more: Option<String>) -> (r: Option<String>)
    ensures
        r.deep_view() == reasoning_joined(first.deep_view(), more.deep_view()),
{
    match (first, more) {
        (None, more) => more,
        (Some(a), None) => Some(a.clone()),
        (Some(a), Some(b)) => Some(join(a.as_str(), b.as_str())),
    }
}

/// `text` of the chunk `choice`, as a choice of its own.
fn make_piece(choice: &ChatChoiceStream, text: &str) -> (r: ChatChoiceStream)
    ensures
        r.deep_view() == piece(choice.deep_view(), text@),
{
    create_choice_stream(
        choice.index,
        choice.delta.role,
        text,
        None,
        choice.finish_reason,
        choice.logprobs.duplicate(),
    )
}

proof fn lemma_released_index(
    before: Processed,
    choice: ChatChoiceStreamView,
    jail: JailedStreamView,
)
    ensures
        released(before, choice, jail).state.index == before.state.index,
{
}

proof fn lemma_trailed_index(
    before: Processed,
    choice: ChatChoiceStreamView,
    jail: JailedStreamView,
    trailing: Seq<char>,
    facts: ParserFactsView,
)
    ensures
        trailed(before, choice, jail, trailing, facts) matches Ok(done) ==> done.state.index
            == before.state.index,
{
}

proof fn lemma_marker_index(
    state: ChoiceJailStateView,
    choice: ChatChoiceStreamView,
    jail: JailedStreamView,
    prefix: Seq<char>,
    full: Seq<char>,
    facts: ParserFactsView,
)
    ensures
        marker_seen(state, choice, jail, prefix, full, facts) matches Ok(done) ==> done.state.index
            == state.index,
{
    if let Ok((true, split)) = ends_jail(jail, full, facts) {
        let before = Processed { state, emissions: prefix_emitted(state, choice, jail, prefix) };
        if let Ok(made) = call_choice(
            jail,
            choice.index,
            full.subrange(0, split),
            choice,
            state.emitted_tool_calls_count as int,
            false,
            facts,
        ) {
            lemma_released_index(before, made, jail);
            lemma_trailed_index(
                released(before, made, jail),
                choice,
                jail,
                full.subrange(split, full.len() as int),
                facts,
            );
        }
    }
}

/// The end of the stream does not change which choice a state belongs to, and what it
/// releases belongs to that choice.
pub proof fn lemma_finalized_index(
    state: ChoiceJailStateView,
    jail: JailedStreamView,
    facts: ParserFactsView,
)
    ensures
        finalized(state, jail, facts) matches Ok(done) ==> done.0.index == state.index && (
        done.1 matches Some(emission) ==> emission.choice().index == state.index)
            && done.0.poolside_v1_state.tools == state.poolside_v1_state.tools
            && done.0.poolside_v1_state.buffer.len() <= state.poolside_v1_state.buffer.len(),
{
}

/// Reasoning does not change which choice a state belongs to, and what it releases
/// belongs to that choice.
pub proof fn lemma_reasoning_index(
    state: ChoiceJailStateView,
    choice: ChatChoiceStreamView,
    jail: JailedStreamView,
    facts: ParserFactsView,
)
    ensures
        reasoning_processed(state, choice, jail, facts) matches Ok(done) ==> {
            &&& done.state.index == state.index
            &&& done.state.poolside_v1_state.tools == state.poolside_v1_state.tools
            &&& done.state.poolside_v1_state.buffer.len() <= state.poolside_v1_state.buffer.len()
            &&& state.index == choice.index ==> forall|i: int|
                0 <= i < done.emissions.len() ==> (#[trigger] done.emissions[i]).choice().index
                    == choice.index
        },
{
    let grown = ChoiceJailStateView {
        accumulated_logprobs: logprobs_joined(state.accumulated_logprobs, choice.logprobs),
        ..state
    };
    if let Some(reason) = choice.finish_reason {
        lemma_finalized_index(
            ChoiceJailStateView { stream_finish_reason: Some(reason), ..grown },
            jail,
            facts,
        );
    }
}

/// Text does not change which choice a state belongs to.
pub proof fn lemma_text_index(
    state: ChoiceJailStateView,
    choice: ChatChoiceStreamView,
    content: Seq<char>,
    jail: JailedStreamView,
    facts: ParserFactsView,
)
    ensures
        (if state.is_jailed {
            jailed_text(state, choice, content, jail, facts)
        } else {
            free_text(state, choice, content, jail, facts)
        }) matches Ok(done) ==> done.state.index == state.index,
{
    if state.is_jailed {
        let all = state.accumulated_content + content;
        let logprobs = logprobs_joined(state.accumulated_logprobs, choice.logprobs);
        let grown = ChoiceJailStateView {
            accumulated_content: all,
            accumulated_logprobs: logprobs,
            ..state
        };
        if let Ok((true, split)) = ends_jail(jail, all, facts) {
            if let Ok(made) = call_choice(
                jail,
                choice.index,
                all.subrange(0, split),
                choice,
                state.emitted_tool_calls_count as int,
                false,
                facts,
            ) {
                let before = Processed { state: grown, emissions: Seq::empty() };
                let full = ChatChoiceStreamView { logprobs, ..made };
                lemma_released_index(before, full, jail);
                let out = released(before, full, jail);
                lemma_trailed_index(
                    Processed { state: out.state.unjailed(), ..out },
                    choice,
                    jail,
                    all.subrange(split, all.len() as int),
                    facts,
                );
            }
        }
    } else {
        match marker_answer(facts.markers, content, state.partial_match_buffer) {
            Some(MatchResultView::Complete { prefix, marker, suffix }) => {
                lemma_marker_index(state, choice, jail, prefix, marker + suffix, facts);
            },
            _ => {},
        }
    }
}

/// Processing text does not change which choice a state belongs to.
pub proof fn lemma_processed_index(
    state: ChoiceJailStateView,
    choice: ChatChoiceStreamView,
    content: Seq<char>,
    jail: JailedStreamView,
    facts: ParserFactsView,
)
    ensures
        processed(state, choice, content, jail, facts) matches Ok(done) ==> done.state.index
            == state.index,
{
    reveal(processed);
    lemma_text_index(state, choice, content, jail, facts);
    if !jail.is_poolside_v1() {
        let after = if state.is_jailed {
            jailed_text(state, choice, content, jail, facts)
        } else {
            free_text(state, choice, content, jail, facts)
        };
        if let (Ok(after), Some(reason)) = (after, choice.finish_reason) {
            lemma_finalized_index(
                ChoiceJailStateView { stream_finish_reason: Some(reason), ..after.state },
                jail,
                facts,
            );
        }
    }
}

} // verus!
