//! The chat-completion data that streams and responses are made of.
//!
//! Items that are only passed along, such as token log-probabilities and the
//! parts of multimodal content, are held as numbers by which the caller finds
//! them again.

use crate::copy::Duplicate;
use crate::json::{Json, JsonView};
use vstd::prelude::*;

verus! {

/// Who wrote a message.
#[derive(Debug, Clone, Copy, PartialEq, Eq, Structural)]
pub enum Role {
    System,
    User,
    Assistant,
    Tool,
    Function,
}

impl DeepView for Role {
    type V = Role;

    open spec fn deep_view(&self) -> Role {
        *self
    }
}

impl Duplicate for Role {
    fn duplicate(&self) -> (r: Self) {
        *self
    }
}

/// Why generation stopped.
#[derive(Debug, Clone, Copy, PartialEq, Eq, Structural)]
pub enum FinishReason {
    Stop,
    Length,
    ToolCalls,
    ContentFilter,
    FunctionCall,
}

impl DeepView for FinishReason {
    type V = FinishReason;

    open spec fn deep_view(&self) -> FinishReason {
        *self
    }
}

impl Duplicate for FinishReason {
    fn duplicate(&self) -> (r: Self) {
        *self
    }
}

/// The kind of a tool.
#[derive(Debug, Clone, Copy, PartialEq, Eq, Structural)]
pub enum FunctionType {
    Function,
}

impl DeepView for FunctionType {
    type V = FunctionType;

    open spec fn deep_view(&self) -> FunctionType {
        *self
    }
}

impl Duplicate for FunctionType {
    fn duplicate(&self) -> (r: Self) {
        *self
    }
}

/// The service tier that handled a request.
#[derive(Debug, Clone, Copy, PartialEq, Eq, Structural)]
pub enum ServiceTierResponse {
    Auto,
    Default,
    Flex,
    Scale,
    Priority,
}

impl DeepView for ServiceTierResponse {
    type V = ServiceTierResponse;

    open spec fn deep_view(&self) -> ServiceTierResponse {
        *self
    }
}

impl Duplicate for ServiceTierResponse {
    fn duplicate(&self) -> (r: Self) {
        *self
    }
}

/// Token counts of a request.
#[derive(Debug, Clone, Copy, PartialEq, Eq)]
pub struct CompletionUsage {
    pub prompt_tokens: u32,
    pub completion_tokens: u32,
    pub total_tokens: u32,
    /// Prompt tokens that were served from a cache, where that is known.
    pub cached_tokens: Option<u32>,
    /// Completion tokens that were spent on reasoning, where that is known.
    pub reasoning_tokens: Option<u32>,
}

impl DeepView for CompletionUsage {
    type V = CompletionUsage;

    open spec fn deep_view(&self) -> CompletionUsage {
        *self
    }
}

impl Duplicate for CompletionUsage {
    fn duplicate(&self) -> (r: Self) {
        *self
    }
}

/// A fragment of a function call.
#[derive(Debug, PartialEq, Eq)]
pub struct FunctionCallStream {
    pub name: Option<String>,
    pub arguments: Option<String>,
}

/// The content of a [`FunctionCallStream`].
#[verifier::ext_equal]
pub struct FunctionCallStreamView {
    pub name: Option<Seq<char>>,
    pub arguments: Option<Seq<char>>,
}

impl DeepView for FunctionCallStream {
    type V = FunctionCallStreamView;

    open spec fn deep_view(&self) -> FunctionCallStreamView {
        FunctionCallStreamView {
            name: self.name.deep_view(),
            arguments: self.arguments.deep_view(),
        }
    }
}

impl Duplicate for FunctionCallStream {
    fn duplicate(&self) -> (r: Self) {
        FunctionCallStream {
            name: self.name.duplicate(),
            arguments: self.arguments.duplicate(),
        }
    }
}

/// A fragment of a tool call.
#[derive(Debug, PartialEq, Eq)]
pub struct ChatCompletionMessageToolCallChunk {
    pub index: u32,
    pub id: Option<String>,
    pub tool_type: Option<FunctionType>,
    pub function: Option<FunctionCallStream>,
}

/// The content of a [`ChatCompletionMessageToolCallChunk`].
#[verifier::ext_equal]
pub struct ChatCompletionMessageToolCallChunkView {
    pub index: u32,
    pub id: Option<Seq<char>>,
    pub tool_type: Option<FunctionType>,
    pub function: Option<FunctionCallStreamView>,
}

impl DeepView for ChatCompletionMessageToolCallChunk {
    type V = ChatCompletionMessageToolCallChunkView;

    open spec fn deep_view(&self) -> ChatCompletionMessageToolCallChunkView {
        ChatCompletionMessageToolCallChunkView {
            index: self.index.deep_view(),
            id: self.id.deep_view(),
            tool_type: self.tool_type.deep_view(),
            function: self.function.deep_view(),
        }
    }
}

impl Duplicate for ChatCompletionMessageToolCallChunk {
    fn duplicate(&self) -> (r: Self) {
        ChatCompletionMessageToolCallChunk {
            index: self.index.duplicate(),
            id: self.id.duplicate(),
            tool_type: self.tool_type.duplicate(),
            function: self.function.duplicate(),
        }
    }
}

/// A complete function call; the arguments are JSON text.
#[derive(Debug, PartialEq, Eq)]
pub struct FunctionCall {
    pub name: String,
    pub arguments: String,
}

/// The content of a [`FunctionCall`].
#[verifier::ext_equal]
pub struct FunctionCallView {
    pub name: Seq<char>,
    pub arguments: Seq<char>,
}

impl DeepView for FunctionCall {
    type V = FunctionCallView;

    open spec fn deep_view(&self) -> FunctionCallView {
        FunctionCallView {
            name: self.name.deep_view(),
            arguments: self.arguments.deep_view(),
        }
    }
}

impl Duplicate for FunctionCall {
    fn duplicate(&self) -> (r: Self) {
        FunctionCall {
            name: self.name.duplicate(),
            arguments: self.arguments.duplicate(),
        }
    }
}

/// A complete tool call.
#[derive(Debug, PartialEq, Eq)]
pub struct ChatCompletionMessageToolCall {
    pub id: String,
    pub tool_type: FunctionType,
    pub function: FunctionCall,
}

/// The content of a [`ChatCompletionMessageToolCall`].
#[verifier::ext_equal]
pub struct ChatCompletionMessageToolCallView {
    pub id: Seq<char>,
    pub tool_type: FunctionType,
    pub function: FunctionCallView,
}

impl DeepView for ChatCompletionMessageToolCall {
    type V = ChatCompletionMessageToolCallView;

    open spec fn deep_view(&self) -> ChatCompletionMessageToolCallView {
        ChatCompletionMessageToolCallView {
            id: self.id.deep_view(),
            tool_type: self.tool_type.deep_view(),
            function: self.function.deep_view(),
        }
    }
}

impl Duplicate for ChatCompletionMessageToolCall {
    fn duplicate(&self) -> (r: Self) {
        ChatCompletionMessageToolCall {
            id: self.id.duplicate(),
            tool_type: self.tool_type.duplicate(),
            function: self.function.duplicate(),
        }
    }
}

/// Log-probabilities of the tokens of a choice.
#[derive(Debug, PartialEq, Eq)]
pub struct ChatChoiceLogprobs {
    pub content: Option<Vec<u64>>,
    pub refusal: Option<Vec<u64>>,
}

/// The content of a [`ChatChoiceLogprobs`].
#[verifier::ext_equal]
pub struct ChatChoiceLogprobsView {
    pub content: Option<Seq<u64>>,
    pub refusal: Option<Seq<u64>>,
}

impl DeepView for ChatChoiceLogprobs {
    type V = ChatChoiceLogprobsView;

    open spec fn deep_view(&self) -> ChatChoiceLogprobsView {
        ChatChoiceLogprobsView {
            content: self.content.deep_view(),
            refusal: self.refusal.deep_view(),
        }
    }
}

impl Duplicate for ChatChoiceLogprobs {
    fn duplicate(&self) -> (r: Self) {
        ChatChoiceLogprobs {
            content: self.content.duplicate(),
            refusal: self.refusal.duplicate(),
        }
    }
}

/// The content of a message: text, or the parts of a multimodal message.
#[derive(Debug, PartialEq, Eq)]
pub enum ChatCompletionMessageContent {
    Text(String),
    Parts(Vec<u64>),
}

/// The content of a [`ChatCompletionMessageContent`].
#[verifier::ext_equal]
pub enum ChatCompletionMessageContentView {
    Text(Seq<char>),
    Parts(Seq<u64>),
}

impl DeepView for ChatCompletionMessageContent {
    type V = ChatCompletionMessageContentView;

    open spec fn deep_view(&self) -> ChatCompletionMessageContentView {
        match self {
            ChatCompletionMessageContent::Text(t) => ChatCompletionMessageContentView::Text(
                t.deep_view(),
            ),
            ChatCompletionMessageContent::Parts(p) => ChatCompletionMessageContentView::Parts(
                p.deep_view(),
            ),
        }
    }
}

impl Duplicate for ChatCompletionMessageContent {
    fn duplicate(&self) -> (r: Self) {
        match self {
            ChatCompletionMessageContent::Text(t) => ChatCompletionMessageContent::Text(
                t.duplicate(),
            ),
            ChatCompletionMessageContent::Parts(p) => ChatCompletionMessageContent::Parts(
                p.duplicate(),
            ),
        }
    }
}

/// What a stream chunk adds to a choice.
#[derive(Debug, PartialEq, Eq)]
pub struct ChatCompletionStreamResponseDelta {
    pub role: Option<Role>,
    pub content: Option<ChatCompletionMessageContent>,
    pub tool_calls: Option<Vec<ChatCompletionMessageToolCallChunk>>,
    pub function_call: Option<FunctionCallStream>,
    pub refusal: Option<String>,
    pub reasoning_content: Option<String>,
}

/// The content of a [`ChatCompletionStreamResponseDelta`].
#[verifier::ext_equal]
pub struct ChatCompletionStreamResponseDeltaView {
    pub role: Option<Role>,
    pub content: Option<ChatCompletionMessageContentView>,
    pub tool_calls: Option<Seq<ChatCompletionMessageToolCallChunkView>>,
    pub function_call: Option<FunctionCallStreamView>,
    pub refusal: Option<Seq<char>>,
    pub reasoning_content: Option<Seq<char>>,
}

impl DeepView for ChatCompletionStreamResponseDelta {
    type V = ChatCompletionStreamResponseDeltaView;

    open spec fn deep_view(&self) -> ChatCompletionStreamResponseDeltaView {
        ChatCompletionStreamResponseDeltaView {
            role: self.role.deep_view(),
            content: self.content.deep_view(),
            tool_calls: self.tool_calls.deep_view(),
            function_call: self.function_call.deep_view(),
            refusal: self.refusal.deep_view(),
            reasoning_content: self.reasoning_content.deep_view(),
        }
    }
}

impl Duplicate for ChatCompletionStreamResponseDelta {
    fn duplicate(&self) -> (r: Self) {
        ChatCompletionStreamResponseDelta {
            role: self.role.duplicate(),
            content: self.content.duplicate(),
            tool_calls: self.tool_calls.duplicate(),
            function_call: self.function_call.duplicate(),
            refusal: self.refusal.duplicate(),
            reasoning_content: self.reasoning_content.duplicate(),
        }
    }
}

/// One choice of a stream chunk.
#[derive(Debug, PartialEq, Eq)]
pub struct ChatChoiceStream {
    pub index: u32,
    pub delta: ChatCompletionStreamResponseDelta,
    pub finish_reason: Option<FinishReason>,
    pub logprobs: Option<ChatChoiceLogprobs>,
}

/// The content of a [`ChatChoiceStream`].
#[verifier::ext_equal]
pub struct ChatChoiceStreamView {
    pub index: u32,
    pub delta: ChatCompletionStreamResponseDeltaView,
    pub finish_reason: Option<FinishReason>,
    pub logprobs: Option<ChatChoiceLogprobsView>,
}

impl DeepView for ChatChoiceStream {
    type V = ChatChoiceStreamView;

    open spec fn deep_view(&self) -> ChatChoiceStreamView {
        ChatChoiceStreamView {
            index: self.index.deep_view(),
            delta: self.delta.deep_view(),
            finish_reason: self.finish_reason.deep_view(),
            logprobs: self.logprobs.deep_view(),
        }
    }
}

impl Duplicate for ChatChoiceStream {
    fn duplicate(&self) -> (r: Self) {
        ChatChoiceStream {
            index: self.index.duplicate(),
            delta: self.delta.duplicate(),
            finish_reason: self.finish_reason.duplicate(),
            logprobs: self.logprobs.duplicate(),
        }
    }
}

/// A stream chunk.
#[derive(Debug, PartialEq, Eq)]
pub struct CreateChatCompletionStreamResponse {
    pub id: String,
    pub object: String,
    pub created: u32,
    pub model: String,
    pub choices: Vec<ChatChoiceStream>,
    pub usage: Option<CompletionUsage>,
    pub service_tier: Option<ServiceTierResponse>,
    pub system_fingerprint: Option<String>,
}

/// The content of a [`CreateChatCompletionStreamResponse`].
#[verifier::ext_equal]
pub struct CreateChatCompletionStreamResponseView {
    pub id: Seq<char>,
    pub object: Seq<char>,
    pub created: u32,
    pub model: Seq<char>,
    pub choices: Seq<ChatChoiceStreamView>,
    pub usage: Option<CompletionUsage>,
    pub service_tier: Option<ServiceTierResponse>,
    pub system_fingerprint: Option<Seq<char>>,
}

impl DeepView for CreateChatCompletionStreamResponse {
    type V = CreateChatCompletionStreamResponseView;

    open spec fn deep_view(&self) -> CreateChatCompletionStreamResponseView {
        CreateChatCompletionStreamResponseView {
            id: self.id.deep_view(),
            object: self.object.deep_view(),
            created: self.created.deep_view(),
            model: self.model.deep_view(),
            choices: self.choices.deep_view(),
            usage: self.usage.deep_view(),
            service_tier: self.service_tier.deep_view(),
            system_fingerprint: self.system_fingerprint.deep_view(),
        }
    }
}

impl Duplicate for CreateChatCompletionStreamResponse {
    fn duplicate(&self) -> (r: Self) {
        CreateChatCompletionStreamResponse {
            id: self.id.duplicate(),
            object: self.object.duplicate(),
            created: self.created.duplicate(),
            model: self.model.duplicate(),
            choices: self.choices.duplicate(),
            usage: self.usage.duplicate(),
            service_tier: self.service_tier.duplicate(),
            system_fingerprint: self.system_fingerprint.duplicate(),
        }
    }
}

/// A stream chunk with the extension data that rides on it.
#[derive(Debug, PartialEq, Eq)]
pub struct NvCreateChatCompletionStreamResponse {
    pub inner: CreateChatCompletionStreamResponse,
    pub nvext: Option<Json>,
}

/// The content of a [`NvCreateChatCompletionStreamResponse`].
#[verifier::ext_equal]
pub struct NvCreateChatCompletionStreamResponseView {
    pub inner: CreateChatCompletionStreamResponseView,
    pub nvext: Option<JsonView>,
}

impl DeepView for NvCreateChatCompletionStreamResponse {
    type V = NvCreateChatCompletionStreamResponseView;

    open spec fn deep_view(&self) -> NvCreateChatCompletionStreamResponseView {
        NvCreateChatCompletionStreamResponseView {
            inner: self.inner.deep_view(),
            nvext: self.nvext.deep_view(),
        }
    }
}

impl Duplicate for NvCreateChatCompletionStreamResponse {
    fn duplicate(&self) -> (r: Self) {
        NvCreateChatCompletionStreamResponse {
            inner: self.inner.duplicate(),
            nvext: self.nvext.duplicate(),
        }
    }
}

/// A stream chunk with its transport annotations.
#[derive(Debug, PartialEq, Eq)]
pub struct Annotated {
    pub data: Option<NvCreateChatCompletionStreamResponse>,
    pub id: Option<String>,
    pub event: Option<String>,
    pub comment: Option<Vec<String>>,
    pub error: Option<String>,
}

/// The content of a [`Annotated`].
#[verifier::ext_equal]
pub struct AnnotatedView {
    pub data: Option<NvCreateChatCompletionStreamResponseView>,
    pub id: Option<Seq<char>>,
    pub event: Option<Seq<char>>,
    pub comment: Option<Seq<Seq<char>>>,
    pub error: Option<Seq<char>>,
}

impl DeepView for Annotated {
    type V = AnnotatedView;

    open spec fn deep_view(&self) -> AnnotatedView {
        AnnotatedView {
            data: self.data.deep_view(),
            id: self.id.deep_view(),
            event: self.event.deep_view(),
            comment: self.comment.deep_view(),
            error: self.error.deep_view(),
        }
    }
}

impl Duplicate for Annotated {
    fn duplicate(&self) -> (r: Self) {
        Annotated {
            data: self.data.duplicate(),
            id: self.id.duplicate(),
            event: self.event.duplicate(),
            comment: self.comment.duplicate(),
            error: self.error.duplicate(),
        }
    }
}

/// The message of a complete response.
#[derive(Debug, PartialEq, Eq)]
pub struct ChatCompletionResponseMessage {
    pub role: Role,
    pub content: Option<ChatCompletionMessageContent>,
    pub tool_calls: Option<Vec<ChatCompletionMessageToolCall>>,
    pub refusal: Option<String>,
    pub function_call: Option<FunctionCall>,
    pub audio: Option<u64>,
    pub reasoning_content: Option<String>,
}

/// The content of a [`ChatCompletionResponseMessage`].
#[verifier::ext_equal]
pub struct ChatCompletionResponseMessageView {
    pub role: Role,
    pub content: Option<ChatCompletionMessageContentView>,
    pub tool_calls: Option<Seq<ChatCompletionMessageToolCallView>>,
    pub refusal: Option<Seq<char>>,
    pub function_call: Option<FunctionCallView>,
    pub audio: Option<u64>,
    pub reasoning_content: Option<Seq<char>>,
}

impl DeepView for ChatCompletionResponseMessage {
    type V = ChatCompletionResponseMessageView;

    open spec fn deep_view(&self) -> ChatCompletionResponseMessageView {
        ChatCompletionResponseMessageView {
            role: self.role.deep_view(),
            content: self.content.deep_view(),
            tool_calls: self.tool_calls.deep_view(),
            refusal: self.refusal.deep_view(),
            function_call: self.function_call.deep_view(),
            audio: self.audio.deep_view(),
            reasoning_content: self.reasoning_content.deep_view(),
        }
    }
}

impl Duplicate for ChatCompletionResponseMessage {
    fn duplicate(&self) -> (r: Self) {
        ChatCompletionResponseMessage {
            role: self.role.duplicate(),
            content: self.content.duplicate(),
            tool_calls: self.tool_calls.duplicate(),
            refusal: self.refusal.duplicate(),
            function_call: self.function_call.duplicate(),
            audio: self.audio.duplicate(),
            reasoning_content: self.reasoning_content.duplicate(),
        }
    }
}

/// One choice of a complete response.
#[derive(Debug, PartialEq, Eq)]
pub struct ChatChoice {
    pub index: u32,
    pub message: ChatCompletionResponseMessage,
    pub finish_reason: Option<FinishReason>,
    pub logprobs: Option<ChatChoiceLogprobs>,
}

/// The content of a [`ChatChoice`].
#[verifier::ext_equal]
pub struct ChatChoiceView {
    pub index: u32,
    pub message: ChatCompletionResponseMessageView,
    pub finish_reason: Option<FinishReason>,
    pub logprobs: Option<ChatChoiceLogprobsView>,
}

impl DeepView for ChatChoice {
    type V = ChatChoiceView;

    open spec fn deep_view(&self) -> ChatChoiceView {
        ChatChoiceView {
            index: self.index.deep_view(),
            message: self.message.deep_view(),
            finish_reason: self.finish_reason.deep_view(),
            logprobs: self.logprobs.deep_view(),
        }
    }
}

impl Duplicate for ChatChoice {
    fn duplicate(&self) -> (r: Self) {
        ChatChoice {
            index: self.index.duplicate(),
            message: self.message.duplicate(),
            finish_reason: self.finish_reason.duplicate(),
            logprobs: self.logprobs.duplicate(),
        }
    }
}

/// A complete response.
#[derive(Debug, PartialEq, Eq)]
pub struct CreateChatCompletionResponse {
    pub id: String,
    pub object: String,
    pub created: u32,
    pub model: String,
    pub choices: Vec<ChatChoice>,
    pub usage: Option<CompletionUsage>,
    pub service_tier: Option<ServiceTierResponse>,
    pub system_fingerprint: Option<String>,
}

/// The content of a [`CreateChatCompletionResponse`].
#[verifier::ext_equal]
pub struct CreateChatCompletionResponseView {
    pub id: Seq<char>,
    pub object: Seq<char>,
    pub created: u32,
    pub model: Seq<char>,
    pub choices: Seq<ChatChoiceView>,
    pub usage: Option<CompletionUsage>,
    pub service_tier: Option<ServiceTierResponse>,
    pub system_fingerprint: Option<Seq<char>>,
}

impl DeepView for CreateChatCompletionResponse {
    type V = CreateChatCompletionResponseView;

    open spec fn deep_view(&self) -> CreateChatCompletionResponseView {
        CreateChatCompletionResponseView {
            id: self.id.deep_view(),
            object: self.object.deep_view(),
            created: self.created.deep_view(),
            model: self.model.deep_view(),
            choices: self.choices.deep_view(),
            usage: self.usage.deep_view(),
            service_tier: self.service_tier.deep_view(),
            system_fingerprint: self.system_fingerprint.deep_view(),
        }
    }
}

impl Duplicate for CreateChatCompletionResponse {
    fn duplicate(&self) -> (r: Self) {
        CreateChatCompletionResponse {
            id: self.id.duplicate(),
            object: self.object.duplicate(),
            created: self.created.duplicate(),
            model: self.model.duplicate(),
            choices: self.choices.duplicate(),
            usage: self.usage.duplicate(),
            service_tier: self.service_tier.duplicate(),
            system_fingerprint: self.system_fingerprint.duplicate(),
        }
    }
}

/// A complete response with its extension data.
#[derive(Debug, PartialEq, Eq)]
pub struct NvCreateChatCompletionResponse {
    pub inner: CreateChatCompletionResponse,
    pub nvext: Option<Json>,
}

/// The content of a [`NvCreateChatCompletionResponse`].
#[verifier::ext_equal]
pub struct NvCreateChatCompletionResponseView {
    pub inner: CreateChatCompletionResponseView,
    pub nvext: Option<JsonView>,
}

impl DeepView for NvCreateChatCompletionResponse {
    type V = NvCreateChatCompletionResponseView;

    open spec fn deep_view(&self) -> NvCreateChatCompletionResponseView {
        NvCreateChatCompletionResponseView {
            inner: self.inner.deep_view(),
            nvext: self.nvext.deep_view(),
        }
    }
}

impl Duplicate for NvCreateChatCompletionResponse {
    fn duplicate(&self) -> (r: Self) {
        NvCreateChatCompletionResponse {
            inner: self.inner.duplicate(),
            nvext: self.nvext.duplicate(),
        }
    }
}

/// A tool as the parsers know it.
#[derive(Debug, PartialEq, Eq)]
pub struct ToolDefinition {
    pub name: String,
    pub parameters: Option<Json>,
}

/// The content of a [`ToolDefinition`].
#[verifier::ext_equal]
pub struct ToolDefinitionView {
    pub name: Seq<char>,
    pub parameters: Option<JsonView>,
}

impl DeepView for ToolDefinition {
    type V = ToolDefinitionView;

    open spec fn deep_view(&self) -> ToolDefinitionView {
        ToolDefinitionView {
            name: self.name.deep_view(),
            parameters: self.parameters.deep_view(),
        }
    }
}

impl Duplicate for ToolDefinition {
    fn duplicate(&self) -> (r: Self) {
        ToolDefinition {
            name: self.name.duplicate(),
            parameters: self.parameters.duplicate(),
        }
    }
}

/// The function that a parsed tool call names; the arguments are JSON text.
#[derive(Debug, PartialEq, Eq)]
pub struct CalledFunction {
    pub name: String,
    pub arguments: String,
}

/// The content of a [`CalledFunction`].
#[verifier::ext_equal]
pub struct CalledFunctionView {
    pub name: Seq<char>,
    pub arguments: Seq<char>,
}

impl DeepView for CalledFunction {
    type V = CalledFunctionView;

    open spec fn deep_view(&self) -> CalledFunctionView {
        CalledFunctionView {
            name: self.name.deep_view(),
            arguments: self.arguments.deep_view(),
        }
    }
}

impl Duplicate for CalledFunction {
    fn duplicate(&self) -> (r: Self) {
        CalledFunction {
            name: self.name.duplicate(),
            arguments: self.arguments.duplicate(),
        }
    }
}

/// A tool call that a parser found in text.
#[derive(Debug, PartialEq, Eq)]
pub struct ToolCallResponse {
    pub id: String,
    pub tp: FunctionType,
    pub function: CalledFunction,
}

/// The content of a [`ToolCallResponse`].
#[verifier::ext_equal]
pub struct ToolCallResponseView {
    pub id: Seq<char>,
    pub tp: FunctionType,
    pub function: CalledFunctionView,
}

impl DeepView for ToolCallResponse {
    type V = ToolCallResponseView;

    open spec fn deep_view(&self) -> ToolCallResponseView {
        ToolCallResponseView {
            id: self.id.deep_view(),
            tp: self.tp.deep_view(),
            function: self.function.deep_view(),
        }
    }
}

impl Duplicate for ToolCallResponse {
    fn duplicate(&self) -> (r: Self) {
        ToolCallResponse {
            id: self.id.duplicate(),
            tp: self.tp.duplicate(),
            function: self.function.duplicate(),
        }
    }
}

/// What a parser found in text: tool calls, and the text around them.
#[derive(Debug, PartialEq, Eq)]
pub struct ParsedToolCalls {
    pub calls: Vec<ToolCallResponse>,
    pub normal_text: Option<String>,
}

/// The content of a [`ParsedToolCalls`].
#[verifier::ext_equal]
pub struct ParsedToolCallsView {
    pub calls: Seq<ToolCallResponseView>,
    pub normal_text: Option<Seq<char>>,
}

impl DeepView for ParsedToolCalls {
    type V = ParsedToolCallsView;

    open spec fn deep_view(&self) -> ParsedToolCallsView {
        ParsedToolCallsView {
            calls: self.calls.deep_view(),
            normal_text: self.normal_text.deep_view(),
        }
    }
}

impl Duplicate for ParsedToolCalls {
    fn duplicate(&self) -> (r: Self) {
        ParsedToolCalls {
            calls: self.calls.duplicate(),
            normal_text: self.normal_text.duplicate(),
        }
    }
}

/// A part of the function that a parsed tool call names.
#[derive(Debug, PartialEq, Eq)]
pub struct CalledFunctionStream {
    pub name: Option<String>,
    pub arguments: Option<String>,
}

/// The content of a [`CalledFunctionStream`].
#[verifier::ext_equal]
pub struct CalledFunctionStreamView {
    pub name: Option<Seq<char>>,
    pub arguments: Option<Seq<char>>,
}

impl DeepView for CalledFunctionStream {
    type V = CalledFunctionStreamView;

    open spec fn deep_view(&self) -> CalledFunctionStreamView {
        CalledFunctionStreamView {
            name: self.name.deep_view(),
            arguments: self.arguments.deep_view(),
        }
    }
}

/// A part of a tool call that a parser found in streamed text.
#[derive(Debug, PartialEq, Eq)]
pub struct ToolCallResponseChunk {
    pub index: u32,
    pub id: Option<String>,
    pub tp: Option<FunctionType>,
    pub function: Option<CalledFunctionStream>,
}

/// The content of a [`ToolCallResponseChunk`].
#[verifier::ext_equal]
pub struct ToolCallResponseChunkView {
    pub index: u32,
    pub id: Option<Seq<char>>,
    pub tp: Option<FunctionType>,
    pub function: Option<CalledFunctionStreamView>,
}

impl DeepView for ToolCallResponseChunk {
    type V = ToolCallResponseChunkView;

    open spec fn deep_view(&self) -> ToolCallResponseChunkView {
        ToolCallResponseChunkView {
            index: self.index.deep_view(),
            id: self.id.deep_view(),
            tp: self.tp.deep_view(),
            function: self.function.deep_view(),
        }
    }
}

} // verus!
