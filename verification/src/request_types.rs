//! The data that chat-completion requests are made of.
//!
//! Floating-point parameters are held as the bits of their single-precision form.

use crate::chat_types::{
    ChatCompletionMessageToolCall, ChatCompletionMessageToolCallView, FunctionType,
};
use crate::copy::Duplicate;
use crate::json::{Json, JsonMap, JsonView};
use vstd::prelude::*;

verus! {

/// How much reasoning a request asks for.
#[derive(Debug, Clone, Copy, PartialEq, Eq, Structural)]
pub enum ReasoningEffort {
    NoEffort,
    Minimal,
    Low,
    Medium,
    High,
    Xhigh,
    Max,
}

impl DeepView for ReasoningEffort {
    type V = ReasoningEffort;

    open spec fn deep_view(&self) -> ReasoningEffort {
        *self
    }
}

impl Duplicate for ReasoningEffort {
    fn duplicate(&self) -> (r: Self) {
        *self
    }
}

/// A function that a model may call; the parameters are a JSON schema.
#[derive(Debug, PartialEq, Eq)]
pub struct FunctionObject {
    pub name: String,
    pub description: Option<String>,
    pub parameters: Option<Json>,
    pub strict: Option<bool>,
}

/// The content of a [`FunctionObject`].
#[verifier::ext_equal]
pub struct FunctionObjectView {
    pub name: Seq<char>,
    pub description: Option<Seq<char>>,
    pub parameters: Option<JsonView>,
    pub strict: Option<bool>,
}

impl DeepView for FunctionObject {
    type V = FunctionObjectView;

    open spec fn deep_view(&self) -> FunctionObjectView {
        FunctionObjectView {
            name: self.name.deep_view(),
            description: self.description.deep_view(),
            parameters: self.parameters.deep_view(),
            strict: self.strict.deep_view(),
        }
    }
}

impl Duplicate for FunctionObject {
    fn duplicate(&self) -> (r: Self) {
        FunctionObject {
            name: self.name.duplicate(),
            description: self.description.duplicate(),
            parameters: self.parameters.duplicate(),
            strict: self.strict.duplicate(),
        }
    }
}

/// A tool that a model may call.
#[derive(Debug, PartialEq, Eq)]
pub struct ChatCompletionTool {
    pub tool_type: FunctionType,
    pub function: FunctionObject,
}

/// The content of a [`ChatCompletionTool`].
#[verifier::ext_equal]
pub struct ChatCompletionToolView {
    pub tool_type: FunctionType,
    pub function: FunctionObjectView,
}

impl DeepView for ChatCompletionTool {
    type V = ChatCompletionToolView;

    open spec fn deep_view(&self) -> ChatCompletionToolView {
        ChatCompletionToolView {
            tool_type: self.tool_type.deep_view(),
            function: self.function.deep_view(),
        }
    }
}

impl Duplicate for ChatCompletionTool {
    fn duplicate(&self) -> (r: Self) {
        ChatCompletionTool {
            tool_type: self.tool_type.duplicate(),
            function: self.function.duplicate(),
        }
    }
}

/// Which tool a model is to call.
#[derive(Debug, PartialEq, Eq)]
pub enum ChatCompletionToolChoiceOption {
    /// No tool.
    NoTool,
    /// Whatever the model sees fit.
    Auto,
    /// Some tool.
    Required,
    /// The tool of that name.
    Named(String),
}

/// The content of a [`ChatCompletionToolChoiceOption`].
#[verifier::ext_equal]
pub enum ChatCompletionToolChoiceOptionView {
    NoTool,
    Auto,
    Required,
    Named(Seq<char>),
}

impl DeepView for ChatCompletionToolChoiceOption {
    type V = ChatCompletionToolChoiceOptionView;

    open spec fn deep_view(&self) -> ChatCompletionToolChoiceOptionView {
        match self {
            ChatCompletionToolChoiceOption::NoTool => ChatCompletionToolChoiceOptionView::NoTool,
            ChatCompletionToolChoiceOption::Auto => ChatCompletionToolChoiceOptionView::Auto,
            ChatCompletionToolChoiceOption::Required =>
                ChatCompletionToolChoiceOptionView::Required,
            ChatCompletionToolChoiceOption::Named(name) =>
                ChatCompletionToolChoiceOptionView::Named(name@),
        }
    }
}

/// Reasoning of an assistant message: flat, or one segment before each tool
/// call and one after the last.
#[derive(Debug, PartialEq, Eq)]
pub enum ReasoningContent {
    Text(String),
    Segments(Vec<String>),
}

/// The content of a [`ReasoningContent`].
#[verifier::ext_equal]
pub enum ReasoningContentView {
    Text(Seq<char>),
    Segments(Seq<Seq<char>>),
}

impl DeepView for ReasoningContent {
    type V = ReasoningContentView;

    open spec fn deep_view(&self) -> ReasoningContentView {
        match self {
            ReasoningContent::Text(text) => ReasoningContentView::Text(text@),
            ReasoningContent::Segments(segments) => ReasoningContentView::Segments(
                segments.deep_view(),
            ),
        }
    }
}

/// A message of the assistant.
#[derive(Debug, PartialEq, Eq)]
pub struct ChatCompletionRequestAssistantMessage {
    pub content: Option<String>,
    pub reasoning_content: Option<ReasoningContent>,
    pub tool_calls: Option<Vec<ChatCompletionMessageToolCall>>,
}

/// The content of a [`ChatCompletionRequestAssistantMessage`].
#[verifier::ext_equal]
pub struct ChatCompletionRequestAssistantMessageView {
    pub content: Option<Seq<char>>,
    pub reasoning_content: Option<ReasoningContentView>,
    pub tool_calls: Option<Seq<ChatCompletionMessageToolCallView>>,
}

impl DeepView for ChatCompletionRequestAssistantMessage {
    type V = ChatCompletionRequestAssistantMessageView;

    open spec fn deep_view(&self) -> ChatCompletionRequestAssistantMessageView {
        ChatCompletionRequestAssistantMessageView {
            content: self.content.deep_view(),
            reasoning_content: self.reasoning_content.deep_view(),
            tool_calls: self.tool_calls.deep_view(),
        }
    }
}

/// A message of a request.
#[derive(Debug, PartialEq, Eq)]
pub enum ChatCompletionRequestMessage {
    System { content: String },
    User { content: String },
    Assistant(ChatCompletionRequestAssistantMessage),
    Tool { content: String, tool_call_id: String },
}

/// The content of a [`ChatCompletionRequestMessage`].
#[verifier::ext_equal]
pub enum ChatCompletionRequestMessageView {
    System { content: Seq<char> },
    User { content: Seq<char> },
    Assistant(ChatCompletionRequestAssistantMessageView),
    Tool { content: Seq<char>, tool_call_id: Seq<char> },
}

impl DeepView for ChatCompletionRequestMessage {
    type V = ChatCompletionRequestMessageView;

    open spec fn deep_view(&self) -> ChatCompletionRequestMessageView {
        match self {
            ChatCompletionRequestMessage::System { content } =>
                ChatCompletionRequestMessageView::System { content: content@ },
            ChatCompletionRequestMessage::User { content } =>
                ChatCompletionRequestMessageView::User { content: content@ },
            ChatCompletionRequestMessage::Assistant(message) =>
                ChatCompletionRequestMessageView::Assistant(message.deep_view()),
            ChatCompletionRequestMessage::Tool { content, tool_call_id } =>
                ChatCompletionRequestMessageView::Tool {
                    content: content@,
                    tool_call_id: tool_call_id@,
                },
        }
    }
}

/// Where generation stops: at texts, or at tokens.
#[derive(Debug, PartialEq, Eq)]
pub enum Stop {
    Text(String),
    TextArray(Vec<String>),
    TokenIds(Vec<u32>),
}

/// The content of a [`Stop`].
#[verifier::ext_equal]
pub enum StopView {
    Text(Seq<char>),
    TextArray(Seq<Seq<char>>),
    TokenIds(Seq<u32>),
}

impl DeepView for Stop {
    type V = StopView;

    open spec fn deep_view(&self) -> StopView {
        match self {
            Stop::Text(text) => StopView::Text(text@),
            Stop::TextArray(texts) => StopView::TextArray(texts.deep_view()),
            Stop::TokenIds(ids) => StopView::TokenIds(ids.deep_view()),
        }
    }
}

/// The form that a response is to have.
#[derive(Debug, PartialEq, Eq)]
pub enum ResponseFormat {
    Text,
    JsonObject,
    JsonSchema { schema: Option<Json> },
}

/// The content of a [`ResponseFormat`].
#[verifier::ext_equal]
pub enum ResponseFormatView {
    Text,
    JsonObject,
    JsonSchema { schema: Option<JsonView> },
}

impl DeepView for ResponseFormat {
    type V = ResponseFormatView;

    open spec fn deep_view(&self) -> ResponseFormatView {
        match self {
            ResponseFormat::Text => ResponseFormatView::Text,
            ResponseFormat::JsonObject => ResponseFormatView::JsonObject,
            ResponseFormat::JsonSchema { schema } => ResponseFormatView::JsonSchema {
                schema: schema.deep_view(),
            },
        }
    }
}

/// How a stream reports usage.
#[derive(Debug, Clone, Copy, PartialEq, Eq)]
pub struct ChatCompletionStreamOptions {
    pub include_usage: bool,
    pub continuous_usage_stats: bool,
}

impl DeepView for ChatCompletionStreamOptions {
    type V = ChatCompletionStreamOptions;

    open spec fn deep_view(&self) -> ChatCompletionStreamOptions {
        *self
    }
}

impl Duplicate for ChatCompletionStreamOptions {
    fn duplicate(&self) -> (r: Self) {
        *self
    }
}

/// The parameters of a request.
#[derive(Debug, PartialEq, Eq)]
pub struct CreateChatCompletionRequest {
    pub model: String,
    pub messages: Vec<ChatCompletionRequestMessage>,
    pub temperature: Option<u32>,
    pub top_p: Option<u32>,
    pub frequency_penalty: Option<u32>,
    pub presence_penalty: Option<u32>,
    pub max_tokens: Option<u32>,
    pub max_completion_tokens: Option<u32>,
    pub n: Option<u8>,
    pub seed: Option<i64>,
    pub stop: Option<Stop>,
    pub tools: Option<Vec<ChatCompletionTool>>,
    pub tool_choice: Option<ChatCompletionToolChoiceOption>,
    pub stream: Option<bool>,
    pub stream_options: Option<ChatCompletionStreamOptions>,
    pub logprobs: Option<bool>,
    pub top_logprobs: Option<u8>,
    pub response_format: Option<ResponseFormat>,
    pub reasoning_effort: Option<ReasoningEffort>,
}

/// The content of a [`CreateChatCompletionRequest`].
#[verifier::ext_equal]
pub struct CreateChatCompletionRequestView {
    pub model: Seq<char>,
    pub messages: Seq<ChatCompletionRequestMessageView>,
    pub temperature: Option<u32>,
    pub top_p: Option<u32>,
    pub frequency_penalty: Option<u32>,
    pub presence_penalty: Option<u32>,
    pub max_tokens: Option<u32>,
    pub max_completion_tokens: Option<u32>,
    pub n: Option<u8>,
    pub seed: Option<i64>,
    pub stop: Option<StopView>,
    pub tools: Option<Seq<ChatCompletionToolView>>,
    pub tool_choice: Option<ChatCompletionToolChoiceOptionView>,
    pub stream: Option<bool>,
    pub stream_options: Option<ChatCompletionStreamOptions>,
    pub logprobs: Option<bool>,
    pub top_logprobs: Option<u8>,
    pub response_format: Option<ResponseFormatView>,
    pub reasoning_effort: Option<ReasoningEffort>,
}

impl DeepView for CreateChatCompletionRequest {
    type V = CreateChatCompletionRequestView;

    open spec fn deep_view(&self) -> CreateChatCompletionRequestView {
        CreateChatCompletionRequestView {
            model: self.model.deep_view(),
            messages: self.messages.deep_view(),
            temperature: self.temperature.deep_view(),
            top_p: self.top_p.deep_view(),
            frequency_penalty: self.frequency_penalty.deep_view(),
            presence_penalty: self.presence_penalty.deep_view(),
            max_tokens: self.max_tokens.deep_view(),
            max_completion_tokens: self.max_completion_tokens.deep_view(),
            n: self.n.deep_view(),
            seed: self.seed.deep_view(),
            stop: self.stop.deep_view(),
            tools: self.tools.deep_view(),
            tool_choice: self.tool_choice.deep_view(),
            stream: self.stream.deep_view(),
            stream_options: self.stream_options.deep_view(),
            logprobs: self.logprobs.deep_view(),
            top_logprobs: self.top_logprobs.deep_view(),
            response_format: self.response_format.deep_view(),
            reasoning_effort: self.reasoning_effort.deep_view(),
        }
    }
}

/// What guided decoding is asked for.
#[derive(Debug, PartialEq, Eq)]
pub struct StructuredOutputs {
    pub json: Option<Json>,
    pub json_object: Option<bool>,
    pub regex: Option<String>,
    pub grammar: Option<String>,
    pub choice: Option<Vec<String>>,
    pub structural_tag: Option<Json>,
}

/// The content of a [`StructuredOutputs`].
#[verifier::ext_equal]
pub struct StructuredOutputsView {
    pub json: Option<JsonView>,
    pub json_object: Option<bool>,
    pub regex: Option<Seq<char>>,
    pub grammar: Option<Seq<char>>,
    pub choice: Option<Seq<Seq<char>>>,
    pub structural_tag: Option<JsonView>,
}

impl DeepView for StructuredOutputs {
    type V = StructuredOutputsView;

    open spec fn deep_view(&self) -> StructuredOutputsView {
        StructuredOutputsView {
            json: self.json.deep_view(),
            json_object: self.json_object.deep_view(),
            regex: self.regex.deep_view(),
            grammar: self.grammar.deep_view(),
            choice: self.choice.deep_view(),
            structural_tag: self.structural_tag.deep_view(),
        }
    }
}

/// Parameters beyond those of the OpenAI interface.
#[derive(Debug, PartialEq, Eq)]
pub struct CommonExt {
    pub ignore_eos: Option<bool>,
    pub min_tokens: Option<u32>,
    pub top_k: Option<i32>,
    pub min_p: Option<u32>,
    pub repetition_penalty: Option<u32>,
    pub include_stop_str_in_output: Option<bool>,
    pub skip_special_tokens: Option<bool>,
    pub prompt_logprobs: Option<u32>,
    pub guided_json: Option<Json>,
    pub guided_regex: Option<String>,
    pub guided_grammar: Option<String>,
    pub guided_choice: Option<Vec<String>>,
    pub guided_decoding_backend: Option<String>,
    pub guided_whitespace_pattern: Option<String>,
    pub structured_outputs: Option<StructuredOutputs>,
}

/// The content of a [`CommonExt`].
#[verifier::ext_equal]
pub struct CommonExtView {
    pub ignore_eos: Option<bool>,
    pub min_tokens: Option<u32>,
    pub top_k: Option<i32>,
    pub min_p: Option<u32>,
    pub repetition_penalty: Option<u32>,
    pub include_stop_str_in_output: Option<bool>,
    pub skip_special_tokens: Option<bool>,
    pub prompt_logprobs: Option<u32>,
    pub guided_json: Option<JsonView>,
    pub guided_regex: Option<Seq<char>>,
    pub guided_grammar: Option<Seq<char>>,
    pub guided_choice: Option<Seq<Seq<char>>>,
    pub guided_decoding_backend: Option<Seq<char>>,
    pub guided_whitespace_pattern: Option<Seq<char>>,
    pub structured_outputs: Option<StructuredOutputsView>,
}

impl DeepView for CommonExt {
    type V = CommonExtView;

    open spec fn deep_view(&self) -> CommonExtView {
        CommonExtView {
            ignore_eos: self.ignore_eos.deep_view(),
            min_tokens: self.min_tokens.deep_view(),
            top_k: self.top_k.deep_view(),
            min_p: self.min_p.deep_view(),
            repetition_penalty: self.repetition_penalty.deep_view(),
            include_stop_str_in_output: self.include_stop_str_in_output.deep_view(),
            skip_special_tokens: self.skip_special_tokens.deep_view(),
            prompt_logprobs: self.prompt_logprobs.deep_view(),
            guided_json: self.guided_json.deep_view(),
            guided_regex: self.guided_regex.deep_view(),
            guided_grammar: self.guided_grammar.deep_view(),
            guided_choice: self.guided_choice.deep_view(),
            guided_decoding_backend: self.guided_decoding_backend.deep_view(),
            guided_whitespace_pattern: self.guided_whitespace_pattern.deep_view(),
            structured_outputs: self.structured_outputs.deep_view(),
        }
    }
}

/// Extension parameters.
#[derive(Debug, PartialEq, Eq)]
pub struct NvExt {
    pub annotations: Option<Vec<String>>,
    pub max_thinking_tokens: Option<u32>,
    pub extra_fields: Option<Vec<String>>,
}

/// The content of a [`NvExt`].
#[verifier::ext_equal]
pub struct NvExtView {
    pub annotations: Option<Seq<Seq<char>>>,
    pub max_thinking_tokens: Option<u32>,
    pub extra_fields: Option<Seq<Seq<char>>>,
}

impl DeepView for NvExt {
    type V = NvExtView;

    open spec fn deep_view(&self) -> NvExtView {
        NvExtView {
            annotations: self.annotations.deep_view(),
            max_thinking_tokens: self.max_thinking_tokens.deep_view(),
            extra_fields: self.extra_fields.deep_view(),
        }
    }
}

/// A request for a chat completion, with its extensions.
#[derive(Debug, PartialEq, Eq)]
pub struct NvCreateChatCompletionRequest {
    pub inner: CreateChatCompletionRequest,
    pub common: CommonExt,
    pub nvext: Option<NvExt>,
    /// Extra args to pass to the chat template rendering context.
    pub chat_template_args: Option<JsonMap>,
    /// Thinking control from client request payloads, normalized into `chat_template_args`.
    pub thinking: Option<Json>,
    /// When true, logprob token fields are returned as "token_id:<id>" instead of decoded text.
    pub return_tokens_as_token_ids: Option<bool>,
    /// Fields that no other field holds.
    pub unsupported_fields: JsonMap,
}

/// The content of a [`NvCreateChatCompletionRequest`].
#[verifier::ext_equal]
pub struct NvCreateChatCompletionRequestView {
    pub inner: CreateChatCompletionRequestView,
    pub common: CommonExtView,
    pub nvext: Option<NvExtView>,
    pub chat_template_args: Option<Map<Seq<char>, JsonView>>,
    pub thinking: Option<JsonView>,
    pub return_tokens_as_token_ids: Option<bool>,
    pub unsupported_fields: Map<Seq<char>, JsonView>,
}

impl DeepView for NvCreateChatCompletionRequest {
    type V = NvCreateChatCompletionRequestView;

    open spec fn deep_view(&self) -> NvCreateChatCompletionRequestView {
        NvCreateChatCompletionRequestView {
            inner: self.inner.deep_view(),
            common: self.common.deep_view(),
            nvext: self.nvext.deep_view(),
            chat_template_args: self.chat_template_args.deep_view(),
            thinking: self.thinking.deep_view(),
            return_tokens_as_token_ids: self.return_tokens_as_token_ids.deep_view(),
            unsupported_fields: self.unsupported_fields.deep_view(),
        }
    }
}

} // verus!
