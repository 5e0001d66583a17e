//! Folding the chunks of a stream into a complete response.

use crate::chat_types::{
    Annotated, AnnotatedView, ChatChoice, ChatChoiceLogprobs, ChatChoiceLogprobsView,
    ChatChoiceStream, ChatChoiceStreamView, ChatChoiceView, ChatCompletionMessageContent,
    ChatCompletionMessageContentView, ChatCompletionMessageToolCall,
    ChatCompletionMessageToolCallChunk, ChatCompletionMessageToolCallChunkView,
    ChatCompletionMessageToolCallView, ChatCompletionResponseMessage,
    ChatCompletionResponseMessageView, CompletionUsage, CreateChatCompletionResponse,
    CreateChatCompletionResponseView, FinishReason, FunctionCall, FunctionCallStream,
    FunctionCallStreamView, FunctionCallView, FunctionType, NvCreateChatCompletionResponse,
    NvCreateChatCompletionResponseView, NvCreateChatCompletionStreamResponse, ParsedToolCalls, Role,
    ServiceTierResponse, ToolCallResponse, ToolCallResponseChunk, ToolCallResponseChunkView,
    ToolCallResponseView,
};
use crate::copy::{append_items, no_items, push_item, Duplicate};
use crate::jail_state::{join_logprobs, logprobs_joined};
use crate::json::{fields_map, lemma_fields_push, Json, JsonField, JsonView};
use crate::parser_facts::{
    answer_about, find_answer, ParserFacts, ParserFactsView, ParserQuery, ParserQueryView,
};
use crate::text::{chars_of, rfind, rfind_text, same_text, slice_of};
use vstd::prelude::*;

verus! {

/// The accumulated state of a single choice during aggregation.
#[derive(Debug, PartialEq, Eq)]
pub struct DeltaChoice {
    /// The index of the choice in the completion.
    pub index: u32,
    /// The accumulated text content for the choice.
    pub text: String,
    /// The role associated with this message.
    pub role: Option<Role>,
    /// The reason the completion was finished (if applicable).
    pub finish_reason: Option<FinishReason>,
    /// Optional log probabilities for the chat choice.
    pub logprobs: Option<ChatChoiceLogprobs>,
    /// Tool-call chunks merged by their index, in the order of the index.
    pub tool_call_chunks: Vec<ChatCompletionMessageToolCallChunk>,
    /// Tool calls, once the stream has ended.
    pub tool_calls: Option<Vec<ChatCompletionMessageToolCall>>,
    /// Optional reasoning content for the chat choice.
    pub reasoning_content: Option<String>,
    /// Accumulated content parts for multimodal responses.
    pub content_parts: Vec<u64>,
}

/// The content of a [`DeltaChoice`].
#[verifier::ext_equal]
pub struct DeltaChoiceView {
    pub index: u32,
    pub text: Seq<char>,
    pub role: Option<Role>,
    pub finish_reason: Option<FinishReason>,
    pub logprobs: Option<ChatChoiceLogprobsView>,
    pub tool_call_chunks: Seq<ChatCompletionMessageToolCallChunkView>,
    pub tool_calls: Option<Seq<ChatCompletionMessageToolCallView>>,
    pub reasoning_content: Option<Seq<char>>,
    pub content_parts: Seq<u64>,
}

impl DeepView for DeltaChoice {
    type V = DeltaChoiceView;

    open spec fn deep_view(&self) -> DeltaChoiceView {
        DeltaChoiceView {
            index: self.index.deep_view(),
            text: self.text.deep_view(),
            role: self.role.deep_view(),
            finish_reason: self.finish_reason.deep_view(),
            logprobs: self.logprobs.deep_view(),
            tool_call_chunks: self.tool_call_chunks.deep_view(),
            tool_calls: self.tool_calls.deep_view(),
            reasoning_content: self.reasoning_content.deep_view(),
            content_parts: self.content_parts.deep_view(),
        }
    }
}

impl Duplicate for DeltaChoice {
    fn duplicate(&self) -> (r: Self) {
        DeltaChoice {
            index: self.index.duplicate(),
            text: self.text.duplicate(),
            role: self.role.duplicate(),
            finish_reason: self.finish_reason.duplicate(),
            logprobs: self.logprobs.duplicate(),
            tool_call_chunks: self.tool_call_chunks.duplicate(),
            tool_calls: self.tool_calls.duplicate(),
            reasoning_content: self.reasoning_content.duplicate(),
            content_parts: self.content_parts.duplicate(),
        }
    }
}

/// How the text of a complete response is searched for tool calls.
#[derive(Debug, PartialEq, Eq)]
pub struct ParsingOptions {
    pub tool_call_parser: Option<String>,
    pub parse_bare_json_tool_calls: bool,
    pub tool_names: Option<Vec<String>>,
}

/// The content of a [`ParsingOptions`].
#[verifier::ext_equal]
pub struct ParsingOptionsView {
    pub tool_call_parser: Option<Seq<char>>,
    pub parse_bare_json_tool_calls: bool,
    pub tool_names: Option<Seq<Seq<char>>>,
}

impl DeepView for ParsingOptions {
    type V = ParsingOptionsView;

    open spec fn deep_view(&self) -> ParsingOptionsView {
        ParsingOptionsView {
            tool_call_parser: self.tool_call_parser.deep_view(),
            parse_bare_json_tool_calls: self.parse_bare_json_tool_calls.deep_view(),
            tool_names: self.tool_names.deep_view(),
        }
    }
}

/// Aggregates the chunks of a stream into a single response.
#[derive(Debug, PartialEq, Eq)]
pub struct DeltaAggregator {
    /// Unique identifier for the chat completion.
    pub id: String,
    /// Model name used for the chat completion.
    pub model: String,
    /// Timestamp (Unix epoch) indicating when the response was created.
    pub created: u32,
    /// Optional usage statistics for the completion request.
    pub usage: Option<CompletionUsage>,
    /// Optional system fingerprint for version tracking.
    pub system_fingerprint: Option<String>,
    /// The choices in the order of their index.
    pub choices: Vec<DeltaChoice>,
    /// Optional error message if an error occurs during aggregation.
    pub error: Option<String>,
    /// Optional service tier information for the response.
    pub service_tier: Option<ServiceTierResponse>,
    /// Aggregated extension data from stream responses.
    pub nvext: Option<Json>,
}

/// The content of a [`DeltaAggregator`].
#[verifier::ext_equal]
pub struct DeltaAggregatorView {
    pub id: Seq<char>,
    pub model: Seq<char>,
    pub created: u32,
    pub usage: Option<CompletionUsage>,
    pub system_fingerprint: Option<Seq<char>>,
    pub choices: Seq<DeltaChoiceView>,
    pub error: Option<Seq<char>>,
    pub service_tier: Option<ServiceTierResponse>,
    pub nvext: Option<JsonView>,
}

impl DeepView for DeltaAggregator {
    type V = DeltaAggregatorView;

    open spec fn deep_view(&self) -> DeltaAggregatorView {
        DeltaAggregatorView {
            id: self.id.deep_view(),
            model: self.model.deep_view(),
            created: self.created.deep_view(),
            usage: self.usage.deep_view(),
            system_fingerprint: self.system_fingerprint.deep_view(),
            choices: self.choices.deep_view(),
            error: self.error.deep_view(),
            service_tier: self.service_tier.deep_view(),
            nvext: self.nvext.deep_view(),
        }
    }
}

/// Where `index` stands, or would stand, in an ascending list of indices.
pub open spec fn index_position(indices: Seq<u32>, index: u32) -> int
    decreases indices.len(),
{
    if indices.len() == 0 || indices[indices.len() - 1] < index {
        indices.len() as int
    } else {
        index_position(indices.subrange(0, indices.len() - 1), index)
    }
}

/// The indices ascend; none comes twice.
pub open spec fn ascending(indices: Seq<u32>) -> bool {
    forall|i: int, j: int|
        0 <= i < j < indices.len() ==> (#[trigger] indices[i]) < (#[trigger] indices[j])
}

/// The position splits the indices.
pub proof fn lemma_index_position(indices: Seq<u32>, index: u32)
    requires
        ascending(indices),
    ensures
        0 <= index_position(indices, index) <= indices.len(),
        forall|i: int|
            0 <= i < index_position(indices, index) ==> (#[trigger] indices[i]) < index,
        forall|i: int|
            index_position(indices, index) <= i < indices.len() ==> (#[trigger] indices[i])
                >= index,
    decreases indices.len(),
{
    if indices.len() > 0 && !(indices[indices.len() - 1] < index) {
        let front = indices.subrange(0, indices.len() - 1);
        assert forall|i: int, j: int| 0 <= i < j < front.len() implies (#[trigger] front[i]) < (
        #[trigger] front[j]) by {
            assert(front[i] == indices[i] && front[j] == indices[j]);
        }
        lemma_index_position(front, index);
        let p = index_position(front, index);
        assert forall|i: int| 0 <= i < p implies (#[trigger] indices[i]) < index by {
            assert(front[i] == indices[i]);
        }
        assert forall|i: int| p <= i < indices.len() implies (#[trigger] indices[i]) >= index by {
            if i < front.len() {
                assert(front[i] == indices[i]);
            }
        }
    }
}

/// The position is the only one that splits the indices.
proof fn lemma_index_position_unique(indices: Seq<u32>, index: u32, p: int)
    requires
        ascending(indices),
        0 <= p <= indices.len(),
        forall|i: int| 0 <= i < p ==> (#[trigger] indices[i]) < index,
        p < indices.len() ==> indices[p] >= index,
    ensures
        p == index_position(indices, index),
{
    lemma_index_position(indices, index);
    let q = index_position(indices, index);
    if p < q {
        assert(indices[p] < index);
    } else if q < p {
        assert(indices[q] >= index);
    }
}

/// A new index in its place keeps the list ascending.
pub proof fn lemma_insert_ascending(indices: Seq<u32>, index: u32)
    requires
        ascending(indices),
        ({
            let p = index_position(indices, index);
            p == indices.len() || indices[p] != index
        }),
    ensures
        ascending(indices.insert(index_position(indices, index), index)),
{
    lemma_index_position(indices, index);
    let p = index_position(indices, index);
    let after = indices.insert(p, index);
    assert forall|i: int, j: int| 0 <= i < j < after.len() implies (#[trigger] after[i]) < (
    #[trigger] after[j]) by {
        let a = if i < p {
            i
        } else {
            i - 1
        };
        let b = if j < p {
            j
        } else {
            j - 1
        };
        if i != p {
            assert(after[i] == indices[a]);
        }
        if j != p {
            assert(after[j] == indices[b]);
        }
    }
}

/// The indices of chunks.
pub open spec fn chunk_indices(chunks: Seq<ChatCompletionMessageToolCallChunkView>) -> Seq<u32> {
    Seq::new(chunks.len(), |i: int| chunks[i].index)
}

/// The indices of choices.
pub open spec fn choice_indices(choices: Seq<DeltaChoiceView>) -> Seq<u32> {
    Seq::new(choices.len(), |i: int| choices[i].index)
}

/// A function fragment merged into another: the first name wins, arguments are joined.
pub open spec fn functions_merged(
    existing: Option<FunctionCallStreamView>,
    incoming: Option<FunctionCallStreamView>,
) -> Option<FunctionCallStreamView> {
    match (existing, incoming) {
        (None, other) => other,
        (other, None) => other,
        (Some(old), Some(new)) => Some(
            FunctionCallStreamView {
                name: if old.name is None {
                    new.name
                } else {
                    old.name
                },
                arguments: match new.arguments {
                    None => old.arguments,
                    Some(fragment) => Some(
                        (match old.arguments {
                            Some(arguments) => arguments,
                            None => Seq::empty(),
                        }) + fragment,
                    ),
                },
            },
        ),
    }
}

/// A chunk merged into another: the first identifier and type win.
pub open spec fn chunks_merged(
    existing: ChatCompletionMessageToolCallChunkView,
    incoming: ChatCompletionMessageToolCallChunkView,
) -> ChatCompletionMessageToolCallChunkView {
    ChatCompletionMessageToolCallChunkView {
        index: existing.index,
        id: if existing.id is None {
            incoming.id
        } else {
            existing.id
        },
        tool_type: if existing.tool_type is None {
            incoming.tool_type
        } else {
            existing.tool_type
        },
        function: functions_merged(existing.function, incoming.function),
    }
}

/// A chunk without content.
pub open spec fn blank_chunk(index: u32) -> ChatCompletionMessageToolCallChunkView {
    ChatCompletionMessageToolCallChunkView { index, id: None, tool_type: None, function: None }
}

/// The merged chunks after one more chunk.
pub open spec fn chunk_added(
    chunks: Seq<ChatCompletionMessageToolCallChunkView>,
    incoming: ChatCompletionMessageToolCallChunkView,
) -> Seq<ChatCompletionMessageToolCallChunkView> {
    let p = index_position(chunk_indices(chunks), incoming.index);
    if p < chunks.len() && chunks[p].index == incoming.index {
        chunks.update(p, chunks_merged(chunks[p], incoming))
    } else {
        chunks.insert(p, chunks_merged(blank_chunk(incoming.index), incoming))
    }
}

/// The merged chunks after more chunks.
pub open spec fn chunks_added(
    chunks: Seq<ChatCompletionMessageToolCallChunkView>,
    incoming: Seq<ChatCompletionMessageToolCallChunkView>,
) -> Seq<ChatCompletionMessageToolCallChunkView>
    decreases incoming.len(),
{
    if incoming.len() == 0 {
        chunks
    } else {
        let n = incoming.len() - 1;
        chunk_added(chunks_added(chunks, incoming.subrange(0, n)), incoming[n])
    }
}

/// A choice of which nothing came but its role.
pub open spec fn new_choice(index: u32, role: Option<Role>) -> DeltaChoiceView {
    DeltaChoiceView {
        index,
        text: Seq::empty(),
        role,
        finish_reason: None,
        logprobs: None,
        tool_call_chunks: Seq::empty(),
        tool_calls: None,
        reasoning_content: None,
        content_parts: Seq::empty(),
    }
}

/// A choice after one more delta.
pub open spec fn choice_grown(
    state: DeltaChoiceView,
    choice: ChatChoiceStreamView,
) -> DeltaChoiceView {
    DeltaChoiceView {
        index: state.index,
        text: match choice.delta.content {
            Some(ChatCompletionMessageContentView::Text(text)) => state.text + text,
            _ => state.text,
        },
        role: if state.role is None {
            choice.delta.role
        } else {
            state.role
        },
        finish_reason: if choice.finish_reason is Some {
            choice.finish_reason
        } else {
            state.finish_reason
        },
        logprobs: logprobs_joined(state.logprobs, choice.logprobs),
        tool_call_chunks: match choice.delta.tool_calls {
            Some(incoming) => chunks_added(state.tool_call_chunks, incoming),
            None => state.tool_call_chunks,
        },
        tool_calls: state.tool_calls,
        reasoning_content: match choice.delta.reasoning_content {
            None => state.reasoning_content,
            Some(more) => Some(
                (match state.reasoning_content {
                    Some(reasoning) => reasoning,
                    None => Seq::empty(),
                }) + more,
            ),
        },
        content_parts: match choice.delta.content {
            Some(ChatCompletionMessageContentView::Parts(parts)) => state.content_parts + parts,
            _ => state.content_parts,
        },
    }
}

/// The choices after one more delta.
pub open spec fn choice_added(
    choices: Seq<DeltaChoiceView>,
    choice: ChatChoiceStreamView,
) -> Seq<DeltaChoiceView> {
    let p = index_position(choice_indices(choices), choice.index);
    if p < choices.len() && choices[p].index == choice.index {
        choices.update(p, choice_grown(choices[p], choice))
    } else {
        choices.insert(p, choice_grown(new_choice(choice.index, choice.delta.role), choice))
    }
}

/// The choices after more deltas.
pub open spec fn choices_added(
    choices: Seq<DeltaChoiceView>,
    incoming: Seq<ChatChoiceStreamView>,
) -> Seq<DeltaChoiceView>
    decreases incoming.len(),
{
    if incoming.len() == 0 {
        choices
    } else {
        let n = incoming.len() - 1;
        choice_added(choices_added(choices, incoming.subrange(0, n)), incoming[n])
    }
}

/// Extension data merged: members of objects are taken together, the later
/// value winning; anything else is replaced.
pub open spec fn nvext_merged(target: Option<JsonView>, incoming: Option<JsonView>) -> Option<
    JsonView,
> {
    match (target, incoming) {
        (_, None) => target,
        (Some(JsonView::Object(old)), Some(JsonView::Object(new))) => Some(
            JsonView::Object(old.union_prefer_right(new)),
        ),
        (_, Some(value)) => Some(value),
    }
}

/// Texts joined with a separator between them.
pub open spec fn joined(items: Seq<Seq<char>>, separator: Seq<char>) -> Seq<char>
    decreases items.len(),
{
    if items.len() == 0 {
        Seq::empty()
    } else if items.len() == 1 {
        items[0]
    } else {
        joined(items.subrange(0, items.len() - 1), separator) + separator
            + items[items.len() - 1]
    }
}

/// What an error chunk says.
pub open spec fn error_text(delta: AnnotatedView) -> Seq<char> {
    match delta.error {
        Some(error) => error,
        None => match delta.comment {
            Some(comment) => joined(comment, ", "@),
            None => "unknown error"@,
        },
    }
}

impl DeltaAggregatorView {
    /// Before any chunk.
    pub open spec fn initial() -> Self {
        DeltaAggregatorView {
            id: Seq::empty(),
            model: Seq::empty(),
            created: 0,
            usage: None,
            system_fingerprint: None,
            choices: Seq::empty(),
            error: None,
            service_tier: None,
            nvext: None,
        }
    }

    /// The choices, and the tool calls in each, are in the order of their index.
    pub open spec fn wf(self) -> bool {
        &&& ascending(choice_indices(self.choices))
        &&& forall|i: int|
            0 <= i < self.choices.len() ==> ascending(
                chunk_indices((#[trigger] self.choices[i]).tool_call_chunks),
            )
    }

    /// After one more chunk. After an error only another error is taken in.
    pub open spec fn after(self, delta: AnnotatedView) -> Self {
        if delta.event == Some("error"@) {
            DeltaAggregatorView { error: Some(error_text(delta)), ..self }
        } else if self.error is Some {
            self
        } else {
            match delta.data {
                None => self,
                Some(data) => DeltaAggregatorView {
                    id: data.inner.id,
                    model: data.inner.model,
                    created: data.inner.created,
                    usage: if data.inner.usage is Some {
                        data.inner.usage
                    } else {
                        self.usage
                    },
                    system_fingerprint: if data.inner.system_fingerprint is Some {
                        data.inner.system_fingerprint
                    } else {
                        self.system_fingerprint
                    },
                    choices: choices_added(self.choices, data.inner.choices),
                    error: None,
                    service_tier: data.inner.service_tier,
                    nvext: nvext_merged(self.nvext, data.nvext),
                },
            }
        }
    }
}

/// `s` without line breaks in front.
pub open spec fn without_leading_breaks(s: Seq<char>) -> Seq<char>
    decreases s.len(),
{
    if s.len() > 0 && (s[0] == '\n' || s[0] == '\r') {
        without_leading_breaks(s.subrange(1, s.len() as int))
    } else {
        s
    }
}

impl DeltaChoiceView {
    /// There is reasoning.
    pub open spec fn reasons(self) -> bool {
        self.reasoning_content matches Some(reasoning) && reasoning.len() > 0
    }

    /// There are tool calls.
    pub open spec fn calls(self) -> bool {
        self.tool_calls matches Some(calls) && calls.len() > 0
    }

    /// After reasoning, text up to the end of a reasoning block belongs to the
    /// reasoning, and the content does not start with line breaks.
    pub open spec fn normalized(self) -> Self {
        if !self.reasons() || self.text.len() == 0 {
            self
        } else {
            match rfind_text(self.text, "</think>"@) {
                Some(i) => DeltaChoiceView {
                    text: without_leading_breaks(
                        self.text.subrange(i + "</think>"@.len(), self.text.len() as int),
                    ),
                    reasoning_content: Some(
                        self.reasoning_content->0 + self.text.subrange(0, i),
                    ),
                    ..self
                },
                None => DeltaChoiceView { text: without_leading_breaks(self.text), ..self },
            }
        }
    }

    /// A choice with nothing but reasoning has the reasoning as its content.
    pub open spec fn mirrored(self) -> Self {
        if self.text.len() > 0 || self.calls() || self.tool_call_chunks.len() > 0
            || !self.reasons() {
            self
        } else {
            DeltaChoiceView { text: self.reasoning_content->0, ..self }
        }
    }
}

/// A merged chunk as a tool call; nothing where its identifier or name never came.
pub open spec fn chunk_finalized(chunk: ChatCompletionMessageToolCallChunkView) -> Option<
    ChatCompletionMessageToolCallView,
> {
    match (chunk.id, chunk.function) {
        (Some(id), Some(function)) => match function.name {
            Some(name) => Some(
                ChatCompletionMessageToolCallView {
                    id,
                    tool_type: match chunk.tool_type {
                        Some(tool_type) => tool_type,
                        None => FunctionType::Function,
                    },
                    function: FunctionCallView {
                        name,
                        arguments: match function.arguments {
                            Some(arguments) => arguments,
                            None => Seq::empty(),
                        },
                    },
                },
            ),
            None => None,
        },
        _ => None,
    }
}

/// The tool calls that merged chunks make.
pub open spec fn chunks_finalized(chunks: Seq<ChatCompletionMessageToolCallChunkView>) -> Seq<
    ChatCompletionMessageToolCallView,
>
    decreases chunks.len(),
{
    if chunks.len() == 0 {
        Seq::empty()
    } else {
        let n = chunks.len() - 1;
        let front = chunks_finalized(chunks.subrange(0, n));
        match chunk_finalized(chunks[n]) {
            Some(call) => front.push(call),
            None => front,
        }
    }
}

/// The chunks of a choice become its tool calls.
pub open spec fn choice_called(choice: DeltaChoiceView) -> DeltaChoiceView {
    let calls = chunks_finalized(choice.tool_call_chunks);
    DeltaChoiceView {
        tool_call_chunks: Seq::empty(),
        tool_calls: if calls.len() > 0 {
            Some(calls)
        } else {
            choice.tool_calls
        },
        ..choice
    }
}

/// A parsed tool call in the form of the protocol.
pub open spec fn protocol_call(parsed: ToolCallResponseView) -> ChatCompletionMessageToolCallView {
    ChatCompletionMessageToolCallView {
        id: parsed.id,
        tool_type: FunctionType::Function,
        function: FunctionCallView {
            name: parsed.function.name,
            arguments: parsed.function.arguments,
        },
    }
}

/// Parsed tool calls in the form of the protocol.
pub open spec fn protocol_calls(parsed: Seq<ToolCallResponseView>) -> Seq<
    ChatCompletionMessageToolCallView,
> {
    Seq::new(parsed.len(), |i: int| protocol_call(parsed[i]))
}

/// The calls of tools that are named.
pub open spec fn calls_by_name(parsed: Seq<ToolCallResponseView>, names: Seq<Seq<char>>) -> Seq<
    ChatCompletionMessageToolCallView,
>
    decreases parsed.len(),
{
    if parsed.len() == 0 {
        Seq::empty()
    } else {
        let n = parsed.len() - 1;
        let front = calls_by_name(parsed.subrange(0, n), names);
        if names.contains(parsed[n].function.name) {
            front.push(protocol_call(parsed[n]))
        } else {
            front
        }
    }
}

/// Tool calls in a text, and the text around them.
#[verifier::ext_equal]
pub struct Found {
    pub calls: Seq<ChatCompletionMessageToolCallView>,
    pub content: Option<Seq<char>>,
}

/// JSON tool calls in a text: between tags, else the text as a whole. `None`
/// stands for an error of the parser.
pub open spec fn jsonish(message: Seq<char>, names: Seq<Seq<char>>, facts: ParserFactsView) -> Result<
    Option<Found>,
    ParserQueryView,
> {
    match facts.tagged_in(message, true) {
        None => Err(ParserQueryView::TaggedJson { text: message, recover: true }),
        Some(None) => Ok(None),
        Some(Some(tagged)) => {
            let tagged_calls = calls_by_name(tagged.calls, names);
            if tagged_calls.len() > 0 {
                Ok(Some(Found { calls: tagged_calls, content: tagged.normal_text }))
            } else {
                match facts.bare_in(message, true) {
                    None => Err(ParserQueryView::BareJson { text: message, recover: true }),
                    Some(None) => Ok(None),
                    Some(Some(bare)) => {
                        let bare_calls = calls_by_name(bare.calls, names);
                        if bare_calls.len() > 0 {
                            Ok(Some(Found { calls: bare_calls, content: bare.normal_text }))
                        } else {
                            Ok(Some(Found { calls: Seq::empty(), content: Some(message) }))
                        }
                    },
                }
            }
        },
    }
}

/// The tool calls in the text of a choice. `None` stands for an error of the parser.
pub open spec fn text_calls(
    text: Seq<char>,
    options: ParsingOptionsView,
    facts: ParserFactsView,
) -> Result<Option<Found>, ParserQueryView> {
    match facts.calls_in(text, true) {
        None => Err(ParserQueryView::ToolCalls { text, finalize: true }),
        Some(None) => Ok(None),
        Some(Some(parsed)) => {
            let direct = Found {
                calls: protocol_calls(parsed.calls),
                content: parsed.normal_text,
            };
            if parsed.calls.len() == 0 && options.parse_bare_json_tool_calls
                && options.tool_names is Some && options.tool_names->0.len() > 0 {
                match jsonish(text, options.tool_names->0, facts) {
                    Err(query) => Err(query),
                    Ok(Some(found)) => Ok(Some(found)),
                    Ok(None) => Ok(Some(direct)),
                }
            } else {
                Ok(Some(direct))
            }
        },
    }
}

/// A choice after its text was searched for tool calls.
pub open spec fn choice_parsed(
    choice: DeltaChoiceView,
    options: ParsingOptionsView,
    facts: ParserFactsView,
) -> Result<DeltaChoiceView, ParserQueryView> {
    if options.tool_call_parser is None || choice.calls() || choice.text.len() == 0 {
        Ok(choice)
    } else {
        match text_calls(choice.text, options, facts) {
            Err(query) => Err(query),
            Ok(None) => Ok(choice),
            Ok(Some(found)) => if found.calls.len() > 0 {
                Ok(
                    DeltaChoiceView {
                        tool_calls: Some(found.calls),
                        text: match found.content {
                            Some(content) => content,
                            None => Seq::empty(),
                        },
                        ..choice
                    }.normalized(),
                )
            } else {
                Ok(choice)
            },
        }
    }
}

/// A choice after a brace that leaked in front of its text was taken away.
pub open spec fn choice_repaired(choice: DeltaChoiceView, facts: ParserFactsView) -> Result<
    DeltaChoiceView,
    ParserQueryView,
> {
    if choice.text.len() == 0 {
        Ok(choice)
    } else {
        match answer_about(facts.repairs, choice.text) {
            None => Err(ParserQueryView::Repair { text: choice.text }),
            Some(None) => Ok(choice),
            Some(Some(repaired)) => Ok(DeltaChoiceView { text: repaired, ..choice }),
        }
    }
}

/// A choice once the stream has ended.
pub open spec fn choice_settled(
    choice: DeltaChoiceView,
    options: ParsingOptionsView,
    facts: ParserFactsView,
) -> Result<DeltaChoiceView, ParserQueryView> {
    match choice_parsed(choice_called(choice).normalized().mirrored(), options, facts) {
        Err(query) => Err(query),
        Ok(parsed) => choice_repaired(parsed, facts),
    }
}

/// A choice in the form of the complete response. With tool calls, the finish
/// reason is `ToolCalls`.
pub open spec fn choice_completed(delta: DeltaChoiceView) -> ChatChoiceView {
    ChatChoiceView {
        index: delta.index,
        message: ChatCompletionResponseMessageView {
            role: delta.role->0,
            content: if delta.content_parts.len() > 0 {
                Some(ChatCompletionMessageContentView::Parts(delta.content_parts))
            } else if delta.text.len() > 0 {
                Some(ChatCompletionMessageContentView::Text(delta.text))
            } else {
                None
            },
            tool_calls: delta.tool_calls,
            refusal: None,
            function_call: None,
            audio: None,
            reasoning_content: delta.reasoning_content,
        },
        finish_reason: if delta.calls() {
            Some(FinishReason::ToolCalls)
        } else {
            delta.finish_reason
        },
        logprobs: delta.logprobs,
    }
}

/// The choices of the complete response.
pub open spec fn choices_completed(
    choices: Seq<DeltaChoiceView>,
    options: ParsingOptionsView,
    facts: ParserFactsView,
) -> Result<Seq<ChatChoiceView>, ParserQueryView>
    decreases choices.len(),
{
    if choices.len() == 0 {
        Ok(Seq::empty())
    } else {
        let n = choices.len() - 1;
        match choices_completed(choices.subrange(0, n), options, facts) {
            Err(query) => Err(query),
            Ok(front) => match choice_settled(choices[n], options, facts) {
                Err(query) => Err(query),
                Ok(settled) => Ok(front.push(choice_completed(settled))),
            },
        }
    }
}

/// The complete response.
pub open spec fn response_of(
    agg: DeltaAggregatorView,
    choices: Seq<ChatChoiceView>,
) -> NvCreateChatCompletionResponseView {
    NvCreateChatCompletionResponseView {
        inner: CreateChatCompletionResponseView {
            id: agg.id,
            object: "chat.completion"@,
            created: agg.created,
            model: agg.model,
            choices,
            usage: agg.usage,
            service_tier: agg.service_tier,
            system_fingerprint: agg.system_fingerprint,
        },
        nvext: agg.nvext,
    }
}

/// Merge an incoming chunk into the per-index accumulator.
///
/// A tool call may come in pieces: a first chunk with identifier and name, then
/// chunks with fragments of the arguments. Identifier, type and name: the first
/// wins. Arguments: the fragments are joined.
pub fn merge_tool_call_chunk(
    existing: ChatCompletionMessageToolCallChunk,
    incoming: &ChatCompletionMessageToolCallChunk,
) -> (r: ChatCompletionMessageToolCallChunk)
    ensures
        r.deep_view() == chunks_merged(existing.deep_view(), incoming.deep_view()),
{
    let id: Option<String> = match existing.id {
        Some(id) => Some(id),
        None => incoming.id.duplicate(),
    };
    let tool_type: Option<FunctionType> = match existing.tool_type {
        Some(tool_type) => Some(tool_type),
        None => incoming.tool_type,
    };
    let function: Option<FunctionCallStream> = match (existing.function, &incoming.function) {
        (None, other) => other.duplicate(),
        (Some(old), None) => Some(old),
        (Some(old), Some(new)) => {
            let name: Option<String> = match old.name {
                Some(name) => Some(name),
                None => new.name.duplicate(),
            };
            let arguments: Option<String> = match &new.arguments {
                None => old.arguments,
                Some(fragment) => {
                    let mut all: String = match old.arguments {
                        Some(arguments) => arguments,
                        None => String::new(),
                    };
                    all.append(fragment.as_str());
                    Some(all)
                },
            };
            Some(FunctionCallStream { name, arguments })
        },
    };
    ChatCompletionMessageToolCallChunk { index: existing.index, id, tool_type, function }
}

/// A merged chunk as a tool call.
///
/// Without identifier or name the chunk is dropped; missing arguments are empty.
pub fn finalize_merged_tool_chunk(chunk: &ChatCompletionMessageToolCallChunk) -> (r: Option<
    ChatCompletionMessageToolCall,
>)
    ensures
        r.deep_view() == chunk_finalized(chunk.deep_view()),
{
    match (&chunk.id, &chunk.function) {
        (Some(id), Some(function)) => match &function.name {
            Some(name) => {
                let arguments: String = match &function.arguments {
                    Some(arguments) => arguments.clone(),
                    None => String::new(),
                };
                let tool_type: FunctionType = match chunk.tool_type {
                    Some(tool_type) => tool_type,
                    None => FunctionType::Function,
                };
                Some(
                    ChatCompletionMessageToolCall {
                        id: id.clone(),
                        tool_type,
                        function: FunctionCall { name: name.clone(), arguments },
                    },
                )
            },
            None => None,
        },
        _ => None,
    }
}

/// The position of the chunk with that index.
fn find_chunk(chunks: &Vec<ChatCompletionMessageToolCallChunk>, index: u32) -> (r: usize)
    requires
        ascending(chunk_indices(chunks.deep_view())),
    ensures
        r == index_position(chunk_indices(chunks.deep_view()), index),
        r <= chunks@.len(),
{
    let ghost indices = chunk_indices(chunks.deep_view());
    let mut p: usize = 0;
    while p < chunks.len() && chunks[p].index < index
        invariant
            indices == chunk_indices(chunks.deep_view()),
            p <= chunks@.len(),
            forall|i: int| 0 <= i < p ==> (#[trigger] indices[i]) < index,
        decreases chunks@.len() - p,
    {
        assert(indices[p as int] == chunks@[p as int].index);
        p += 1;
    }
    proof {
        if p < indices.len() {
            assert(indices[p as int] == chunks@[p as int].index);
        }
        lemma_index_position_unique(indices, index, p as int);
    }
    p
}

/// Merging a chunk keeps the order of the indices.
proof fn lemma_chunk_added(
    chunks: Seq<ChatCompletionMessageToolCallChunkView>,
    incoming: ChatCompletionMessageToolCallChunkView,
)
    requires
        ascending(chunk_indices(chunks)),
    ensures
        ascending(chunk_indices(chunk_added(chunks, incoming))),
{
    let indices = chunk_indices(chunks);
    let after = chunk_added(chunks, incoming);
    lemma_index_position(indices, incoming.index);
    let p = index_position(indices, incoming.index);
    if p < chunks.len() && chunks[p].index == incoming.index {
        assert(chunk_indices(after) =~= indices);
    } else {
        lemma_insert_ascending(indices, incoming.index);
        assert(chunk_indices(after) =~= indices.insert(p, incoming.index));
    }
}

/// Merges one more chunk.
fn add_chunk(
    chunks: &mut Vec<ChatCompletionMessageToolCallChunk>,
    incoming: &ChatCompletionMessageToolCallChunk,
)
    requires
        ascending(chunk_indices(old(chunks).deep_view())),
    ensures
        final(chunks).deep_view() == chunk_added(old(chunks).deep_view(), incoming.deep_view()),
        ascending(chunk_indices(final(chunks).deep_view())),
{
    let ghost before = chunks.deep_view();
    proof {
        lemma_chunk_added(before, incoming.deep_view());
    }
    let p: usize = find_chunk(chunks, incoming.index);
    if p < chunks.len() && chunks[p].index == incoming.index {
        let merged: ChatCompletionMessageToolCallChunk = merge_tool_call_chunk(
            chunks[p].duplicate(),
            incoming,
        );
        chunks[p] = merged;
        assert(chunks.deep_view() =~= before.update(p as int, merged.deep_view()));
    } else {
        let blank: ChatCompletionMessageToolCallChunk = ChatCompletionMessageToolCallChunk {
            index: incoming.index,
            id: None,
            tool_type: None,
            function: None,
        };
        let merged: ChatCompletionMessageToolCallChunk = merge_tool_call_chunk(blank, incoming);
        chunks.insert(p, merged);
        assert(chunks.deep_view() =~= before.insert(p as int, merged.deep_view()));
    }
}

/// Merges more chunks.
fn add_chunks(
    chunks: &mut Vec<ChatCompletionMessageToolCallChunk>,
    incoming: &Vec<ChatCompletionMessageToolCallChunk>,
)
    requires
        ascending(chunk_indices(old(chunks).deep_view())),
    ensures
        final(chunks).deep_view() == chunks_added(old(chunks).deep_view(), incoming.deep_view()),
        ascending(chunk_indices(final(chunks).deep_view())),
{
    let ghost before = chunks.deep_view();
    let ghost all = incoming.deep_view();
    let mut i: usize = 0;
    assert(all.subrange(0, 0) =~= Seq::empty());
    while i < incoming.len()
        invariant
            all == incoming.deep_view(),
            i <= incoming@.len(),
            ascending(chunk_indices(chunks.deep_view())),
            chunks.deep_view() == chunks_added(before, all.subrange(0, i as int)),
        decreases incoming@.len() - i,
    {
        let ghost next = all.subrange(0, i + 1);
        assert(next.subrange(0, next.len() - 1) =~= all.subrange(0, i as int));
        assert(next[next.len() - 1] == incoming@[i as int].deep_view());
        add_chunk(chunks, &incoming[i]);
        i += 1;
    }
    assert(all.subrange(0, all.len() as int) =~= all);
}

/// A text with more text behind, where there may be none yet.
fn grow_optional(old_text: Option<String>, more: &Option<String>) -> (r: Option<String>)
    ensures
        r.deep_view() == (match more.deep_view() {
            None => old_text.deep_view(),
            Some(text) => Some(
                (match old_text.deep_view() {
                    Some(before) => before,
                    None => Seq::empty(),
                }) + text,
            ),
        }),
{
    match more {
        None => old_text,
        Some(text) => {
            let mut all: String = match old_text {
                Some(before) => before,
                None => String::new(),
            };
            all.append(text.as_str());
            Some(all)
        },
    }
}

/// A choice after one more delta.
fn grow_choice(state: DeltaChoice, choice: &ChatChoiceStream) -> (r: DeltaChoice)
    requires
        ascending(chunk_indices(state.deep_view().tool_call_chunks)),
    ensures
        r.deep_view() == choice_grown(state.deep_view(), choice.deep_view()),
        ascending(chunk_indices(r.deep_view().tool_call_chunks)),
{
    let mut text: String = state.text;
    let mut content_parts: Vec<u64> = state.content_parts;
    match &choice.delta.content {
        Some(ChatCompletionMessageContent::Text(more)) => {
            text.append(more.as_str());
        },
        Some(ChatCompletionMessageContent::Parts(parts)) => {
            append_items(&mut content_parts, parts.duplicate());
        },
        None => {},
    }
    let role: Option<Role> = match state.role {
        Some(role) => Some(role),
        None => choice.delta.role,
    };
    let finish_reason: Option<FinishReason> = match choice.finish_reason {
        Some(reason) => Some(reason),
        None => state.finish_reason,
    };
    let mut tool_call_chunks: Vec<ChatCompletionMessageToolCallChunk> = state.tool_call_chunks;
    match &choice.delta.tool_calls {
        Some(incoming) => {
            add_chunks(&mut tool_call_chunks, incoming);
        },
        None => {},
    }
    DeltaChoice {
        index: state.index,
        text,
        role,
        finish_reason,
        logprobs: join_logprobs(state.logprobs, &choice.logprobs),
        tool_call_chunks,
        tool_calls: state.tool_calls,
        reasoning_content: grow_optional(state.reasoning_content, &choice.delta.reasoning_content),
        content_parts,
    }
}

/// Texts joined with a separator between them.
fn join_texts(items: &Vec<String>, separator: &str) -> (r: String)
    ensures
        r@ == joined(items.deep_view(), separator@),
{
    let ghost all = items.deep_view();
    if items.len() == 0 {
        return String::new();
    }
    let mut out: String = items[0].clone();
    let mut i: usize = 1;
    assert(all.subrange(0, 1).len() == 1 && all.subrange(0, 1)[0] == all[0]);
    while i < items.len()
        invariant
            all == items.deep_view(),
            1 <= i <= items@.len(),
            out@ == joined(all.subrange(0, i as int), separator@),
        decreases items@.len() - i,
    {
        let ghost next = all.subrange(0, i + 1);
        assert(next.subrange(0, next.len() - 1) =~= all.subrange(0, i as int));
        out.append(separator);
        out.append(items[i].as_str());
        i += 1;
    }
    assert(all.subrange(0, all.len() as int) =~= all);
    out
}

/// Members added one by one are a union of maps.
proof fn lemma_fields_union(old_map: Map<Seq<char>, JsonView>, fields: Seq<JsonField>, i: int)
    requires
        0 <= i < fields.len(),
    ensures
        old_map.union_prefer_right(fields_map(fields.subrange(0, i + 1)))
            == old_map.union_prefer_right(fields_map(fields.subrange(0, i))).insert(
            fields[i].key@,
            fields[i].value.model(),
        ),
{
    let front = fields.subrange(0, i);
    assert(fields.subrange(0, i + 1) =~= front.push(fields[i]));
    lemma_fields_push(front, fields[i]);
    assert(old_map.union_prefer_right(fields_map(fields.subrange(0, i + 1)))
        =~= old_map.union_prefer_right(fields_map(front)).insert(
        fields[i].key@,
        fields[i].value.model(),
    ));
}

/// Merges extension data.
pub fn merge_response_nvext(target: Option<Json>, incoming: &Option<Json>) -> (r: Option<Json>)
    ensures
        r.deep_view() == nvext_merged(target.deep_view(), incoming.deep_view()),
{
    match (target, incoming) {
        (target, None) => target,
        (Some(Json::Object(old)), Some(Json::Object(new))) => {
            let ghost old_map = fields_map(old@);
            let mut out: Json = Json::Object(old);
            let mut i: usize = 0;
            assert(new@.subrange(0, 0) =~= Seq::empty());
            assert(old_map.union_prefer_right(fields_map(new@.subrange(0, 0))) =~= old_map);
            while i < new.len()
                invariant
                    i <= new@.len(),
                    out@ == JsonView::Object(
                        old_map.union_prefer_right(fields_map(new@.subrange(0, i as int))),
                    ),
                decreases new@.len() - i,
            {
                proof {
                    lemma_fields_union(old_map, new@, i as int);
                }
                out.set(new[i].key.as_str(), new[i].value.duplicate());
                i += 1;
            }
            assert(new@.subrange(0, new@.len() as int) =~= new@);
            Some(out)
        },
        (_, Some(value)) => Some(value.duplicate()),
    }
}

impl DeltaAggregator {
    /// Creates a new, empty aggregator.
    pub fn new() -> (r: Self)
        ensures
            r.deep_view() == DeltaAggregatorView::initial(),
            r.deep_view().wf(),
    {
        DeltaAggregator {
            id: String::new(),
            model: String::new(),
            created: 0,
            usage: None,
            system_fingerprint: None,
            choices: no_items(),
            error: None,
            service_tier: None,
            nvext: None,
        }
    }

    /// The position of the choice with that index.
    fn find_choice(&self, index: u32) -> (r: usize)
        requires
            self.deep_view().wf(),
        ensures
            r == index_position(choice_indices(self.deep_view().choices), index),
            r <= self.choices@.len(),
    {
        let ghost indices = choice_indices(self.deep_view().choices);
        let mut p: usize = 0;
        while p < self.choices.len() && self.choices[p].index < index
            invariant
                indices == choice_indices(self.deep_view().choices),
                p <= self.choices@.len(),
                forall|i: int| 0 <= i < p ==> (#[trigger] indices[i]) < index,
            decreases self.choices@.len() - p,
        {
            assert(indices[p as int] == self.choices@[p as int].index);
            p += 1;
        }
        proof {
            if p < indices.len() {
                assert(indices[p as int] == self.choices@[p as int].index);
            }
            lemma_index_position_unique(indices, index, p as int);
        }
        p
    }

    /// Takes in the delta of one choice.
    fn observe_choice(&mut self, choice: &ChatChoiceStream)
        requires
            old(self).deep_view().wf(),
        ensures
            final(self).deep_view() == (DeltaAggregatorView {
                choices: choice_added(old(self).deep_view().choices, choice.deep_view()),
                ..old(self).deep_view()
            }),
            final(self).deep_view().wf(),
    {
        let ghost before = self.deep_view();
        let ghost indices = choice_indices(before.choices);
        let p: usize = self.find_choice(choice.index);
        proof {
            lemma_index_position(indices, choice.index);
        }
        if p < self.choices.len() && self.choices[p].index == choice.index {
            assert(before.choices[p as int] == self.choices@[p as int].deep_view());
            let grown: DeltaChoice = grow_choice(self.choices[p].duplicate(), choice);
            self.choices[p] = grown;
            assert(self.deep_view().choices =~= before.choices.update(
                p as int,
                grown.deep_view(),
            ));
            assert(choice_indices(self.deep_view().choices) =~= indices);
            assert forall|i: int| 0 <= i < self.deep_view().choices.len() implies ascending(
                chunk_indices((#[trigger] self.deep_view().choices[i]).tool_call_chunks),
            ) by {
                if i != p {
                    assert(self.deep_view().choices[i] == before.choices[i]);
                }
            }
        } else {
            proof {
                if p < before.choices.len() {
                    assert(before.choices[p as int] == self.choices@[p as int].deep_view());
                }
                lemma_insert_ascending(indices, choice.index);
            }
            let fresh: DeltaChoice = DeltaChoice {
                index: choice.index,
                text: String::new(),
                role: choice.delta.role,
                finish_reason: None,
                logprobs: None,
                tool_call_chunks: no_items(),
                tool_calls: None,
                reasoning_content: None,
                content_parts: no_items(),
            };
            assert(fresh.deep_view() =~= new_choice(choice.index, choice.delta.role));
            let grown: DeltaChoice = grow_choice(fresh, choice);
            self.choices.insert(p, grown);
            assert(self.deep_view().choices =~= before.choices.insert(
                p as int,
                grown.deep_view(),
            ));
            assert(choice_indices(self.deep_view().choices) =~= indices.insert(
                p as int,
                choice.index,
            ));
            assert forall|i: int| 0 <= i < self.deep_view().choices.len() implies ascending(
                chunk_indices((#[trigger] self.deep_view().choices[i]).tool_call_chunks),
            ) by {
                if i < p {
                    assert(self.deep_view().choices[i] == before.choices[i]);
                } else if i > p {
                    assert(self.deep_view().choices[i] == before.choices[i - 1]);
                }
            }
        }
    }

    /// Observes a streaming chunk by reference.
    pub fn observe(&mut self, delta: &Annotated)
        requires
            old(self).deep_view().wf(),
        ensures
            final(self).deep_view() == old(self).deep_view().after(delta.deep_view()),
            final(self).deep_view().wf(),
    {
        let is_error: bool = match &delta.event {
            Some(event) => same_text(event.as_str(), "error"),
            None => false,
        };
        if is_error {
            let text: String = match &delta.error {
                Some(error) => error.clone(),
                None => match &delta.comment {
                    Some(comment) => join_texts(comment, ", "),
                    None => "unknown error".to_owned(),
                },
            };
            self.error = Some(text);
            return ;
        }
        if self.error.is_some() {
            return ;
        }
        let data: &NvCreateChatCompletionStreamResponse = match &delta.data {
            Some(data) => data,
            None => {
                return ;
            },
        };
        self.id = data.inner.id.clone();
        self.model = data.inner.model.clone();
        self.created = data.inner.created;
        self.service_tier = data.inner.service_tier;
        if data.inner.usage.is_some() {
            self.usage = data.inner.usage;
        }
        if data.inner.system_fingerprint.is_some() {
            self.system_fingerprint = data.inner.system_fingerprint.duplicate();
        }
        let target: Option<Json> = self.nvext.take();
        self.nvext = merge_response_nvext(target, &data.nvext);
        let ghost before = self.deep_view();
        let ghost all = data.deep_view().inner.choices;
        let mut i: usize = 0;
        assert(all.subrange(0, 0) =~= Seq::empty());
        while i < data.inner.choices.len()
            invariant
                all == data.deep_view().inner.choices,
                all.len() == data.inner.choices@.len(),
                i <= data.inner.choices@.len(),
                self.deep_view() == (DeltaAggregatorView {
                    choices: choices_added(before.choices, all.subrange(0, i as int)),
                    ..before
                }),
                self.deep_view().wf(),
            decreases data.inner.choices@.len() - i,
        {
            let ghost next = all.subrange(0, i + 1);
            assert(next.subrange(0, next.len() - 1) =~= all.subrange(0, i as int));
            assert(next[next.len() - 1] == data.inner.choices@[i as int].deep_view());
            self.observe_choice(&data.inner.choices[i]);
            i += 1;
        }
        assert(all.subrange(0, all.len() as int) =~= all);
    }
}

impl Default for DeltaAggregator {
    fn default() -> (r: Self)
        ensures
            r.deep_view() == DeltaAggregatorView::initial(),
    {
        DeltaAggregator::new()
    }
}

/// `s` without line breaks in front.
fn trim_leading_breaks(s: &str) -> (r: String)
    ensures
        r@ == without_leading_breaks(s@),
{
    let h: Vec<char> = chars_of(s);
    let mut i: usize = 0;
    assert(h@.subrange(0, h@.len() as int) =~= h@);
    while i < h.len() && (h[i] == '\n' || h[i] == '\r')
        invariant
            h@ == s@,
            i <= h@.len(),
            without_leading_breaks(s@) == without_leading_breaks(
                h@.subrange(i as int, h@.len() as int),
            ),
        decreases h@.len() - i,
    {
        let ghost rest = h@.subrange(i as int, h@.len() as int);
        assert(rest.subrange(1, rest.len() as int) =~= h@.subrange(i + 1, h@.len() as int));
        i += 1;
    }
    slice_of(s, i, h.len())
}

impl DeltaChoice {
    /// Whether there is reasoning.
    pub fn has_reasoning_content(&self) -> (r: bool)
        ensures
            r == self.deep_view().reasons(),
    {
        match &self.reasoning_content {
            Some(reasoning) => !reasoning.as_str().is_empty(),
            None => false,
        }
    }

    /// Whether there are tool calls.
    pub fn has_tool_calls(&self) -> (r: bool)
        ensures
            r == self.deep_view().calls(),
    {
        match &self.tool_calls {
            Some(calls) => calls.len() > 0,
            None => false,
        }
    }

    /// Whether there are tool calls, or chunks of them.
    pub fn has_tool_calls_or_chunks(&self) -> (r: bool)
        ensures
            r == (self.deep_view().calls() || self.deep_view().tool_call_chunks.len() > 0),
    {
        self.has_tool_calls() || self.tool_call_chunks.len() > 0
    }

    /// After reasoning, moves text up to the end of a reasoning block to the
    /// reasoning, and takes line breaks off the front of the content.
    pub fn normalize_content_after_reasoning(&mut self)
        ensures
            final(self).deep_view() == old(self).deep_view().normalized(),
    {
        if !self.has_reasoning_content() || self.text.as_str().is_empty() {
            return ;
        }
        match rfind(self.text.as_str(), "</think>") {
            Some(i) => {
                proof {
                    reveal_strlit("</think>");
                }
                let n: usize = self.text.as_str().unicode_len();
                let before: String = slice_of(self.text.as_str(), 0, i);
                let after: String = trim_leading_breaks(
                    slice_of(self.text.as_str(), i + 8, n).as_str(),
                );
                let mut reasoning: String = match self.reasoning_content.take() {
                    Some(reasoning) => reasoning,
                    None => String::new(),
                };
                reasoning.append(before.as_str());
                self.reasoning_content = Some(reasoning);
                self.text = after;
            },
            None => {
                let after: String = trim_leading_breaks(self.text.as_str());
                self.text = after;
            },
        }
    }

    /// Makes reasoning the content, where there is nothing else.
    pub fn mirror_reasoning_as_content_if_needed(&mut self)
        ensures
            final(self).deep_view() == old(self).deep_view().mirrored(),
    {
        if !self.text.as_str().is_empty() || self.has_tool_calls_or_chunks() {
            return ;
        }
        match &self.reasoning_content {
            Some(reasoning) => {
                if !reasoning.as_str().is_empty() {
                    let text: String = reasoning.clone();
                    self.text = text;
                }
            },
            None => {},
        }
    }

    /// Turns the merged chunks into tool calls.
    fn finalize_chunks(&mut self)
        ensures
            final(self).deep_view() == choice_called(old(self).deep_view()),
    {
        let ghost all = self.deep_view().tool_call_chunks;
        let mut calls: Vec<ChatCompletionMessageToolCall> = no_items();
        let mut i: usize = 0;
        assert(all.subrange(0, 0) =~= Seq::empty());
        while i < self.tool_call_chunks.len()
            invariant
                *self == *old(self),
                all == self.deep_view().tool_call_chunks,
                i <= self.tool_call_chunks@.len(),
                calls.deep_view() == chunks_finalized(all.subrange(0, i as int)),
            decreases self.tool_call_chunks@.len() - i,
        {
            let ghost next = all.subrange(0, i + 1);
            assert(next.subrange(0, next.len() - 1) =~= all.subrange(0, i as int));
            assert(next[next.len() - 1] == self.tool_call_chunks@[i as int].deep_view());
            match finalize_merged_tool_chunk(&self.tool_call_chunks[i]) {
                Some(call) => {
                    push_item(&mut calls, call);
                },
                None => {},
            }
            i += 1;
        }
        assert(all.subrange(0, all.len() as int) =~= all);
        self.tool_call_chunks = no_items();
        if calls.len() > 0 {
            self.tool_calls = Some(calls);
        }
    }

    /// Searches the text for tool calls.
    fn parse_text(&mut self, options: &ParsingOptions, facts: &ParserFacts) -> (r: Option<ParserQuery>)
        ensures
            match (
                r,
                choice_parsed(old(self).deep_view(), options.deep_view(), facts.deep_view()),
            ) {
                (None, Ok(parsed)) => final(self).deep_view() == parsed,
                (Some(query), Err(missing)) => query.deep_view() == missing,
                _ => false,
            },
    {
        if options.tool_call_parser.is_none() || self.has_tool_calls()
            || self.text.as_str().is_empty() {
            return None;
        }
        match find_text_calls(self.text.as_str(), options, facts) {
            Err(query) => Some(query),
            Ok(None) => None,
            Ok(Some(found)) => {
                if found.calls.len() > 0 {
                    self.tool_calls = Some(found.calls);
                    self.text = match found.content {
                        Some(content) => content,
                        None => String::new(),
                    };
                    self.normalize_content_after_reasoning();
                }
                None
            },
        }
    }

    /// Takes away a brace that leaked in front of the text.
    fn repair_text(&mut self, facts: &ParserFacts) -> (r: Option<ParserQuery>)
        ensures
            match (r, choice_repaired(old(self).deep_view(), facts.deep_view())) {
                (None, Ok(repaired)) => final(self).deep_view() == repaired,
                (Some(query), Err(missing)) => query.deep_view() == missing,
                _ => false,
            },
    {
        if self.text.as_str().is_empty() {
            return None;
        }
        match find_answer(&facts.repairs, self.text.as_str()) {
            None => Some(ParserQuery::Repair { text: self.text.clone() }),
            Some(None) => None,
            Some(Some(repaired)) => {
                self.text = repaired.clone();
                None
            },
        }
    }

    /// The choice in the form of the complete response.
    pub fn into_chat_choice(self) -> (r: ChatChoice)
        requires
            self.role is Some,
        ensures
            r.deep_view() == choice_completed(self.deep_view()),
    {
        let finish_reason: Option<FinishReason> = if self.has_tool_calls() {
            Some(FinishReason::ToolCalls)
        } else {
            self.finish_reason
        };
        let content: Option<ChatCompletionMessageContent> = if self.content_parts.len() > 0 {
            Some(ChatCompletionMessageContent::Parts(self.content_parts))
        } else if !self.text.as_str().is_empty() {
            Some(ChatCompletionMessageContent::Text(self.text))
        } else {
            None
        };
        ChatChoice {
            index: self.index,
            message: ChatCompletionResponseMessage {
                role: self.role.unwrap(),
                content,
                tool_calls: self.tool_calls,
                refusal: None,
                function_call: None,
                audio: None,
                reasoning_content: self.reasoning_content,
            },
            finish_reason,
            logprobs: self.logprobs,
        }
    }
}

/// Tool calls in a text, and the text around them.
pub struct FoundCalls {
    pub calls: Vec<ChatCompletionMessageToolCall>,
    pub content: Option<String>,
}

impl DeepView for FoundCalls {
    type V = Found;

    open spec fn deep_view(&self) -> Found {
        Found { calls: self.calls.deep_view(), content: self.content.deep_view() }
    }
}

/// A parsed tool call in the form of the protocol.
pub fn tool_call_response_to_protocol(parsed: &ToolCallResponse) -> (r: ChatCompletionMessageToolCall)
    ensures
        r.deep_view() == protocol_call(parsed.deep_view()),
{
    ChatCompletionMessageToolCall {
        id: parsed.id.clone(),
        tool_type: FunctionType::Function,
        function: FunctionCall {
            name: parsed.function.name.clone(),
            arguments: parsed.function.arguments.clone(),
        },
    }
}

/// A part of a parsed tool call in the form of the protocol.
pub open spec fn protocol_chunk(
    parsed: ToolCallResponseChunkView,
) -> ChatCompletionMessageToolCallChunkView {
    ChatCompletionMessageToolCallChunkView {
        index: parsed.index,
        id: parsed.id,
        tool_type: match parsed.tp {
            Some(_) => Some(FunctionType::Function),
            None => None,
        },
        function: match parsed.function {
            Some(function) => Some(
                FunctionCallStreamView { name: function.name, arguments: function.arguments },
            ),
            None => None,
        },
    }
}

/// A part of a parsed tool call in the form of the protocol.
pub fn tool_call_response_chunk_to_protocol(parsed: ToolCallResponseChunk) -> (r:
    ChatCompletionMessageToolCallChunk)
    ensures
        r.deep_view() == protocol_chunk(parsed.deep_view()),
{
    ChatCompletionMessageToolCallChunk {
        index: parsed.index,
        id: parsed.id,
        tool_type: match parsed.tp {
            Some(_) => Some(FunctionType::Function),
            None => None,
        },
        function: match parsed.function {
            Some(function) => Some(
                FunctionCallStream { name: function.name, arguments: function.arguments },
            ),
            None => None,
        },
    }
}

/// Parsed tool calls in the form of the protocol.
fn to_protocol_calls(parsed: &Vec<ToolCallResponse>) -> (r: Vec<ChatCompletionMessageToolCall>)
    ensures
        r.deep_view() == protocol_calls(parsed.deep_view()),
{
    let mut out: Vec<ChatCompletionMessageToolCall> = Vec::new();
    let mut i: usize = 0;
    while i < parsed.len()
        invariant
            i <= parsed@.len(),
            out@.len() == i,
            forall|k: int|
                0 <= k < i ==> (#[trigger] out@[k]).deep_view() == protocol_call(
                    parsed@[k].deep_view(),
                ),
        decreases parsed@.len() - i,
    {
        out.push(tool_call_response_to_protocol(&parsed[i]));
        i += 1;
    }
    assert(out.deep_view() =~= protocol_calls(parsed.deep_view()));
    out
}

/// Whether `name` is in the list.
fn names_contain(names: &Vec<String>, name: &str) -> (r: bool)
    ensures
        r == names.deep_view().contains(name@),
{
    let ghost all = names.deep_view();
    let mut i: usize = 0;
    while i < names.len()
        invariant
            all == names.deep_view(),
            i <= names@.len(),
            forall|k: int| 0 <= k < i ==> all[k] != name@,
        decreases names@.len() - i,
    {
        if same_text(names[i].as_str(), name) {
            assert(all[i as int] == name@);
            return true;
        }
        i += 1;
    }
    false
}

/// The calls of tools that are named.
pub fn filter_tool_calls_by_name(parsed: &Vec<ToolCallResponse>, tool_names: &Vec<String>) -> (r:
    Vec<ChatCompletionMessageToolCall>)
    ensures
        r.deep_view() == calls_by_name(parsed.deep_view(), tool_names.deep_view()),
{
    let ghost all = parsed.deep_view();
    let mut out: Vec<ChatCompletionMessageToolCall> = no_items();
    let mut i: usize = 0;
    assert(all.subrange(0, 0) =~= Seq::empty());
    while i < parsed.len()
        invariant
            all == parsed.deep_view(),
            i <= parsed@.len(),
            out.deep_view() == calls_by_name(all.subrange(0, i as int), tool_names.deep_view()),
        decreases parsed@.len() - i,
    {
        let ghost next = all.subrange(0, i + 1);
        assert(next.subrange(0, next.len() - 1) =~= all.subrange(0, i as int));
        assert(next[next.len() - 1] == parsed@[i as int].deep_view());
        if names_contain(tool_names, parsed[i].function.name.as_str()) {
            push_item(&mut out, tool_call_response_to_protocol(&parsed[i]));
        }
        i += 1;
    }
    assert(all.subrange(0, all.len() as int) =~= all);
    out
}

/// JSON tool calls in a text: between tags, else the text as a whole. `None`
/// stands for an error of the parser.
pub fn try_jsonish_tool_call_parse_aggregate_finalize(
    message: &str,
    tool_names: &Vec<String>,
    facts: &ParserFacts,
) -> (r: Result<Option<FoundCalls>, ParserQuery>)
    ensures
        found_matches(r, jsonish(message@, tool_names.deep_view(), facts.deep_view())),
{
    let tagged: &ParsedToolCalls = match facts.tagged(message, true) {
        None => {
            return Err(ParserQuery::TaggedJson { text: message.to_owned(), recover: true });
        },
        Some(None) => {
            return Ok(None);
        },
        Some(Some(tagged)) => tagged,
    };
    let tagged_calls: Vec<ChatCompletionMessageToolCall> = filter_tool_calls_by_name(
        &tagged.calls,
        tool_names,
    );
    if tagged_calls.len() > 0 {
        return Ok(
            Some(FoundCalls { calls: tagged_calls, content: tagged.normal_text.duplicate() }),
        );
    }
    let bare: &ParsedToolCalls = match facts.bare(message, true) {
        None => {
            return Err(ParserQuery::BareJson { text: message.to_owned(), recover: true });
        },
        Some(None) => {
            return Ok(None);
        },
        Some(Some(bare)) => bare,
    };
    let bare_calls: Vec<ChatCompletionMessageToolCall> = filter_tool_calls_by_name(
        &bare.calls,
        tool_names,
    );
    if bare_calls.len() > 0 {
        return Ok(Some(FoundCalls { calls: bare_calls, content: bare.normal_text.duplicate() }));
    }
    Ok(Some(FoundCalls { calls: no_items(), content: Some(message.to_owned()) }))
}

/// The tool calls in the text of a choice. `None` stands for an error of the parser.
fn find_text_calls(text: &str, options: &ParsingOptions, facts: &ParserFacts) -> (r: Result<
    Option<FoundCalls>,
    ParserQuery,
>)
    ensures
        found_matches(r, text_calls(text@, options.deep_view(), facts.deep_view())),
{
    let parsed: &ParsedToolCalls = match facts.calls(text, true) {
        None => {
            return Err(ParserQuery::ToolCalls { text: text.to_owned(), finalize: true });
        },
        Some(None) => {
            return Ok(None);
        },
        Some(Some(parsed)) => parsed,
    };
    if parsed.calls.len() == 0 && options.parse_bare_json_tool_calls {
        match &options.tool_names {
            Some(names) => {
                if names.len() > 0 {
                    match try_jsonish_tool_call_parse_aggregate_finalize(text, names, facts) {
                        Err(query) => {
                            return Err(query);
                        },
                        Ok(Some(found)) => {
                            return Ok(Some(found));
                        },
                        Ok(None) => {},
                    }
                }
            },
            None => {},
        }
    }
    Ok(
        Some(
            FoundCalls {
                calls: to_protocol_calls(&parsed.calls),
                content: parsed.normal_text.duplicate(),
            },
        ),
    )
}

/// Tool calls that were looked for, or the question that is open.
pub open spec fn found_matches(
    r: Result<Option<FoundCalls>, ParserQuery>,
    expected: Result<Option<Found>, ParserQueryView>,
) -> bool {
    match (r, expected) {
        (Ok(a), Ok(b)) => a.deep_view() == b,
        (Err(query), Err(missing)) => query.deep_view() == missing,
        _ => false,
    }
}

/// Settling a choice does not change its role.
proof fn lemma_settled_role(
    choice: DeltaChoiceView,
    options: ParsingOptionsView,
    facts: ParserFactsView,
)
    ensures
        choice_settled(choice, options, facts) matches Ok(settled) ==> settled.role == choice.role
            && settled.index == choice.index,
{
}

/// Where an answer is missing for one choice, it is missing for the response.
proof fn lemma_choices_missing(
    choices: Seq<DeltaChoiceView>,
    i: int,
    options: ParsingOptionsView,
    facts: ParserFactsView,
)
    requires
        0 <= i < choices.len(),
        choices_completed(choices.subrange(0, i + 1), options, facts) is Err,
    ensures
        choices_completed(choices, options, facts) == choices_completed(
            choices.subrange(0, i + 1),
            options,
            facts,
        ),
    decreases choices.len(),
{
    let n = choices.len() - 1;
    if i == n {
        assert(choices.subrange(0, i + 1) =~= choices);
    } else {
        let front = choices.subrange(0, n);
        assert(front.subrange(0, i + 1) =~= choices.subrange(0, i + 1));
        lemma_choices_missing(front, i, options, facts);
    }
}

impl DeltaAggregator {
    /// The choice at position `i` once the stream has ended.
    fn settle_choice(&self, i: usize, options: &ParsingOptions, facts: &ParserFacts) -> (r: Result<
        DeltaChoice,
        ParserQuery,
    >)
        requires
            i < self.choices@.len(),
        ensures
            match (
                r,
                choice_settled(
                    self.deep_view().choices[i as int],
                    options.deep_view(),
                    facts.deep_view(),
                ),
            ) {
                (Ok(choice), Ok(settled)) => choice.deep_view() == settled,
                (Err(query), Err(missing)) => query.deep_view() == missing,
                _ => false,
            },
    {
        let mut choice: DeltaChoice = self.choices[i].duplicate();
        assert(choice.deep_view() == self.deep_view().choices[i as int]);
        choice.finalize_chunks();
        choice.normalize_content_after_reasoning();
        choice.mirror_reasoning_as_content_if_needed();
        match choice.parse_text(options, facts) {
            Some(query) => {
                return Err(query);
            },
            None => {},
        }
        match choice.repair_text(facts) {
            Some(query) => {
                return Err(query);
            },
            None => {},
        }
        Ok(choice)
    }

    /// The complete response, or the error that the stream ended in.
    ///
    /// Where an answer of the parsers is missing, the question is returned.
    pub fn finalize(&self, options: &ParsingOptions, facts: &ParserFacts) -> (r: Result<
        Result<NvCreateChatCompletionResponse, String>,
        ParserQuery,
    >)
        requires
            self.deep_view().wf(),
            self.error is None ==> forall|i: int|
                0 <= i < self.choices@.len() ==> (#[trigger] self.choices@[i]).role is Some,
        ensures
            match self.deep_view().error {
                Some(error) => r matches Ok(Err(text)) && text@ == error,
                None => match (
                    r,
                    choices_completed(
                        self.deep_view().choices,
                        options.deep_view(),
                        facts.deep_view(),
                    ),
                ) {
                    (Ok(Ok(response)), Ok(choices)) => response.deep_view() == response_of(
                        self.deep_view(),
                        choices,
                    ),
                    (Err(query), Err(missing)) => query.deep_view() == missing,
                    _ => false,
                },
            },
    {
        match &self.error {
            Some(error) => {
                return Ok(Err(error.clone()));
            },
            None => {},
        }
        let ghost all = self.deep_view().choices;
        let mut choices: Vec<ChatChoice> = no_items();
        let mut i: usize = 0;
        assert(all.subrange(0, 0) =~= Seq::empty());
        while i < self.choices.len()
            invariant
                self.error is None,
                all == self.deep_view().choices,
                i <= self.choices@.len(),
                forall|k: int|
                    0 <= k < self.choices@.len() ==> (#[trigger] self.choices@[k]).role is Some,
                choices_completed(
                    all.subrange(0, i as int),
                    options.deep_view(),
                    facts.deep_view(),
                ) == Ok::<Seq<ChatChoiceView>, ParserQueryView>(choices.deep_view()),
            decreases self.choices@.len() - i,
        {
            let ghost next = all.subrange(0, i + 1);
            assert(next.subrange(0, next.len() - 1) =~= all.subrange(0, i as int));
            assert(next[next.len() - 1] == self.choices@[i as int].deep_view());
            proof {
                lemma_settled_role(all[i as int], options.deep_view(), facts.deep_view());
            }
            match self.settle_choice(i, options, facts) {
                Err(query) => {
                    proof {
                        lemma_choices_missing(
                            all,
                            i as int,
                            options.deep_view(),
                            facts.deep_view(),
                        );
                    }
                    return Err(query);
                },
                Ok(choice) => {
                    push_item(&mut choices, choice.into_chat_choice());
                },
            }
            i += 1;
        }
        assert(all.subrange(0, all.len() as int) =~= all);
        Ok(
            Ok(
                NvCreateChatCompletionResponse {
                    inner: CreateChatCompletionResponse {
                        id: self.id.clone(),
                        object: "chat.completion".to_owned(),
                        created: self.created,
                        model: self.model.clone(),
                        choices,
                        usage: self.usage,
                        service_tier: self.service_tier,
                        system_fingerprint: self.system_fingerprint.duplicate(),
                    },
                    nvext: self.nvext.duplicate(),
                },
            ),
        )
    }
}

} // verus!
