//! The data of the Messages API: requests, responses, stream events and errors.

use crate::json::{Json, JsonView};
use vstd::prelude::*;

verus! {

/// The role of a message sender.
#[derive(Debug, Clone, Copy, PartialEq, Eq, Structural)]
pub enum AnthropicRole {
    User,
    Assistant,
}

impl DeepView for AnthropicRole {
    type V = AnthropicRole;

    open spec fn deep_view(&self) -> AnthropicRole {
        *self
    }
}

/// Image source for image content blocks.
#[derive(Debug, PartialEq, Eq)]
pub struct AnthropicImageSource {
    pub source_type: String,
    pub media_type: String,
    pub data: String,
}

/// The content of a [`AnthropicImageSource`].
#[verifier::ext_equal]
pub struct AnthropicImageSourceView {
    pub source_type: Seq<char>,
    pub media_type: Seq<char>,
    pub data: Seq<char>,
}

impl DeepView for AnthropicImageSource {
    type V = AnthropicImageSourceView;

    open spec fn deep_view(&self) -> AnthropicImageSourceView {
        AnthropicImageSourceView {
            source_type: self.source_type.deep_view(),
            media_type: self.media_type.deep_view(),
            data: self.data.deep_view(),
        }
    }
}

/// A content block within the result of a tool.
#[derive(Debug, PartialEq, Eq)]
pub enum ToolResultContentBlock {
    Text { text: String },
    /// Blocks that hold no text.
    Other(Json),
}

/// The content of a [`ToolResultContentBlock`].
#[verifier::ext_equal]
pub enum ToolResultContentBlockView {
    Text { text: Seq<char> },
    Other(JsonView),
}

impl DeepView for ToolResultContentBlock {
    type V = ToolResultContentBlockView;

    open spec fn deep_view(&self) -> ToolResultContentBlockView {
        match self {
            ToolResultContentBlock::Text { text } => ToolResultContentBlockView::Text {
                text: text.deep_view(),
            },
            ToolResultContentBlock::Other(inner) => ToolResultContentBlockView::Other(inner.deep_view()),
        }
    }
}

/// The result of a tool: a plain text, or content blocks.
#[derive(Debug, PartialEq, Eq)]
pub enum ToolResultContent {
    Text(String),
    Blocks(Vec<ToolResultContentBlock>),
}

/// The content of a [`ToolResultContent`].
#[verifier::ext_equal]
pub enum ToolResultContentView {
    Text(Seq<char>),
    Blocks(Seq<ToolResultContentBlockView>),
}

impl DeepView for ToolResultContent {
    type V = ToolResultContentView;

    open spec fn deep_view(&self) -> ToolResultContentView {
        match self {
            ToolResultContent::Text(inner) => ToolResultContentView::Text(inner.deep_view()),
            ToolResultContent::Blocks(inner) => ToolResultContentView::Blocks(inner.deep_view()),
        }
    }
}

/// A single content block within a message.
#[derive(Debug, PartialEq, Eq)]
pub enum AnthropicContentBlock {
    /// Text content block.
    Text { text: String },
    /// Image content block.
    Image { source: AnthropicImageSource },
    /// Tool use request from assistant.
    ToolUse { id: String, name: String, input: Json },
    /// Tool result from user.
    ToolResult { tool_use_id: String, content: Option<ToolResultContent>, is_error: Option<bool> },
    /// Thinking of the assistant.
    Thinking { thinking: String, signature: String },
    /// Blocks of a type that is not known; they are accepted and skipped.
    Unknown { block_type: String },
}

/// The content of a [`AnthropicContentBlock`].
#[verifier::ext_equal]
pub enum AnthropicContentBlockView {
    Text { text: Seq<char> },
    Image { source: AnthropicImageSourceView },
    ToolUse { id: Seq<char>, name: Seq<char>, input: JsonView },
    ToolResult {
        tool_use_id: Seq<char>,
        content: Option<ToolResultContentView>,
        is_error: Option<bool>,
    },
    Thinking { thinking: Seq<char>, signature: Seq<char> },
    Unknown { block_type: Seq<char> },
}

impl DeepView for AnthropicContentBlock {
    type V = AnthropicContentBlockView;

    open spec fn deep_view(&self) -> AnthropicContentBlockView {
        match self {
            AnthropicContentBlock::Text { text } => AnthropicContentBlockView::Text {
                text: text.deep_view(),
            },
            AnthropicContentBlock::Image { source } => AnthropicContentBlockView::Image {
                source: source.deep_view(),
            },
            AnthropicContentBlock::ToolUse { id, name, input } => AnthropicContentBlockView::ToolUse {
                id: id.deep_view(),
                name: name.deep_view(),
                input: input.deep_view(),
            },
            AnthropicContentBlock::ToolResult { tool_use_id, content, is_error } => AnthropicContentBlockView::ToolResult {
                tool_use_id: tool_use_id.deep_view(),
                content: content.deep_view(),
                is_error: is_error.deep_view(),
            },
            AnthropicContentBlock::Thinking { thinking, signature } => AnthropicContentBlockView::Thinking {
                thinking: thinking.deep_view(),
                signature: signature.deep_view(),
            },
            AnthropicContentBlock::Unknown { block_type } => AnthropicContentBlockView::Unknown {
                block_type: block_type.deep_view(),
            },
        }
    }
}

/// Message content: a plain text, or content blocks.
#[derive(Debug, PartialEq, Eq)]
pub enum AnthropicMessageContent {
    /// Plain text content.
    Text { content: String },
    /// Structured content blocks.
    Blocks { content: Vec<AnthropicContentBlock> },
}

/// The content of a [`AnthropicMessageContent`].
#[verifier::ext_equal]
pub enum AnthropicMessageContentView {
    Text { content: Seq<char> },
    Blocks { content: Seq<AnthropicContentBlockView> },
}

impl DeepView for AnthropicMessageContent {
    type V = AnthropicMessageContentView;

    open spec fn deep_view(&self) -> AnthropicMessageContentView {
        match self {
            AnthropicMessageContent::Text { content } => AnthropicMessageContentView::Text {
                content: content.deep_view(),
            },
            AnthropicMessageContent::Blocks { content } => AnthropicMessageContentView::Blocks {
                content: content.deep_view(),
            },
        }
    }
}

/// A single message in the conversation.
#[derive(Debug, PartialEq, Eq)]
pub struct AnthropicMessage {
    pub role: AnthropicRole,
    pub content: AnthropicMessageContent,
}

/// The content of a [`AnthropicMessage`].
#[verifier::ext_equal]
pub struct AnthropicMessageView {
    pub role: AnthropicRole,
    pub content: AnthropicMessageContentView,
}

impl DeepView for AnthropicMessage {
    type V = AnthropicMessageView;

    open spec fn deep_view(&self) -> AnthropicMessageView {
        AnthropicMessageView {
            role: self.role.deep_view(),
            content: self.content.deep_view(),
        }
    }
}

/// A tool definition.
#[derive(Debug, PartialEq, Eq)]
pub struct AnthropicTool {
    pub name: String,
    pub description: Option<String>,
    pub input_schema: Json,
}

/// The content of a [`AnthropicTool`].
#[verifier::ext_equal]
pub struct AnthropicToolView {
    pub name: Seq<char>,
    pub description: Option<Seq<char>>,
    pub input_schema: JsonView,
}

impl DeepView for AnthropicTool {
    type V = AnthropicToolView;

    open spec fn deep_view(&self) -> AnthropicToolView {
        AnthropicToolView {
            name: self.name.deep_view(),
            description: self.description.deep_view(),
            input_schema: self.input_schema.deep_view(),
        }
    }
}

/// How tools are chosen.
#[derive(Debug, Clone, Copy, PartialEq, Eq, Structural)]
pub enum AnthropicToolChoiceMode {
    Auto,
    Any,
    NoTool,
    Tool,
}

impl DeepView for AnthropicToolChoiceMode {
    type V = AnthropicToolChoiceMode;

    open spec fn deep_view(&self) -> AnthropicToolChoiceMode {
        *self
    }
}

/// A choice without the name of a tool.
#[derive(Debug, PartialEq, Eq)]
pub struct AnthropicToolChoiceSimple {
    pub choice_type: AnthropicToolChoiceMode,
}

/// The content of a [`AnthropicToolChoiceSimple`].
#[verifier::ext_equal]
pub struct AnthropicToolChoiceSimpleView {
    pub choice_type: AnthropicToolChoiceMode,
}

impl DeepView for AnthropicToolChoiceSimple {
    type V = AnthropicToolChoiceSimpleView;

    open spec fn deep_view(&self) -> AnthropicToolChoiceSimpleView {
        AnthropicToolChoiceSimpleView {
            choice_type: self.choice_type.deep_view(),
        }
    }
}

/// A choice with the name of a tool.
#[derive(Debug, PartialEq, Eq)]
pub struct AnthropicToolChoiceNamed {
    pub choice_type: AnthropicToolChoiceMode,
    pub name: String,
}

/// The content of a [`AnthropicToolChoiceNamed`].
#[verifier::ext_equal]
pub struct AnthropicToolChoiceNamedView {
    pub choice_type: AnthropicToolChoiceMode,
    pub name: Seq<char>,
}

impl DeepView for AnthropicToolChoiceNamed {
    type V = AnthropicToolChoiceNamedView;

    open spec fn deep_view(&self) -> AnthropicToolChoiceNamedView {
        AnthropicToolChoiceNamedView {
            choice_type: self.choice_type.deep_view(),
            name: self.name.deep_view(),
        }
    }
}

/// Tool choice specification.
#[derive(Debug, PartialEq, Eq)]
pub enum AnthropicToolChoice {
    /// One tool.
    Named(AnthropicToolChoiceNamed),
    /// A mode.
    Simple(AnthropicToolChoiceSimple),
}

/// The content of a [`AnthropicToolChoice`].
#[verifier::ext_equal]
pub enum AnthropicToolChoiceView {
    Named(AnthropicToolChoiceNamedView),
    Simple(AnthropicToolChoiceSimpleView),
}

impl DeepView for AnthropicToolChoice {
    type V = AnthropicToolChoiceView;

    open spec fn deep_view(&self) -> AnthropicToolChoiceView {
        match self {
            AnthropicToolChoice::Named(inner) => AnthropicToolChoiceView::Named(inner.deep_view()),
            AnthropicToolChoice::Simple(inner) => AnthropicToolChoiceView::Simple(inner.deep_view()),
        }
    }
}

/// A request for a message. Numbers with fractions are held as their bits.
#[derive(Debug, PartialEq, Eq)]
pub struct AnthropicCreateMessageRequest {
    /// The model to use.
    pub model: String,
    /// The maximum number of tokens to generate.
    pub max_tokens: u32,
    /// The conversation messages.
    pub messages: Vec<AnthropicMessage>,
    /// Optional system prompt.
    pub system: Option<String>,
    /// Sampling temperature.
    pub temperature: Option<u32>,
    /// Nucleus sampling parameter.
    pub top_p: Option<u32>,
    /// Top-K sampling parameter.
    pub top_k: Option<u32>,
    /// Custom stop sequences.
    pub stop_sequences: Option<Vec<String>>,
    /// Whether to stream the response.
    pub stream: bool,
    /// Optional metadata.
    pub metadata: Option<Json>,
    /// Tools the model may call.
    pub tools: Option<Vec<AnthropicTool>>,
    /// How the model should choose which tool to call.
    pub tool_choice: Option<AnthropicToolChoice>,
}

/// The content of a [`AnthropicCreateMessageRequest`].
#[verifier::ext_equal]
pub struct AnthropicCreateMessageRequestView {
    pub model: Seq<char>,
    pub max_tokens: u32,
    pub messages: Seq<AnthropicMessageView>,
    pub system: Option<Seq<char>>,
    pub temperature: Option<u32>,
    pub top_p: Option<u32>,
    pub top_k: Option<u32>,
    pub stop_sequences: Option<Seq<Seq<char>>>,
    pub stream: bool,
    pub metadata: Option<JsonView>,
    pub tools: Option<Seq<AnthropicToolView>>,
    pub tool_choice: Option<AnthropicToolChoiceView>,
}

impl DeepView for AnthropicCreateMessageRequest {
    type V = AnthropicCreateMessageRequestView;

    open spec fn deep_view(&self) -> AnthropicCreateMessageRequestView {
        AnthropicCreateMessageRequestView {
            model: self.model.deep_view(),
            max_tokens: self.max_tokens.deep_view(),
            messages: self.messages.deep_view(),
            system: self.system.deep_view(),
            temperature: self.temperature.deep_view(),
            top_p: self.top_p.deep_view(),
            top_k: self.top_k.deep_view(),
            stop_sequences: self.stop_sequences.deep_view(),
            stream: self.stream.deep_view(),
            metadata: self.metadata.deep_view(),
            tools: self.tools.deep_view(),
            tool_choice: self.tool_choice.deep_view(),
        }
    }
}

/// A content block in the response.
#[derive(Debug, PartialEq, Eq)]
pub enum AnthropicResponseContentBlock {
    Text { text: String },
    ToolUse { id: String, name: String, input: Json },
}

/// The content of a [`AnthropicResponseContentBlock`].
#[verifier::ext_equal]
pub enum AnthropicResponseContentBlockView {
    Text { text: Seq<char> },
    ToolUse { id: Seq<char>, name: Seq<char>, input: JsonView },
}

impl DeepView for AnthropicResponseContentBlock {
    type V = AnthropicResponseContentBlockView;

    open spec fn deep_view(&self) -> AnthropicResponseContentBlockView {
        match self {
            AnthropicResponseContentBlock::Text { text } => AnthropicResponseContentBlockView::Text {
                text: text.deep_view(),
            },
            AnthropicResponseContentBlock::ToolUse { id, name, input } => AnthropicResponseContentBlockView::ToolUse {
                id: id.deep_view(),
                name: name.deep_view(),
                input: input.deep_view(),
            },
        }
    }
}

/// Token usage information.
#[derive(Debug, Clone, Copy, PartialEq, Eq, Default)]
pub struct AnthropicUsage {
    pub input_tokens: u32,
    pub output_tokens: u32,
}

impl DeepView for AnthropicUsage {
    type V = AnthropicUsage;

    open spec fn deep_view(&self) -> AnthropicUsage {
        *self
    }
}

/// Reason the model stopped generating.
#[derive(Debug, Clone, Copy, PartialEq, Eq, Structural)]
pub enum AnthropicStopReason {
    EndTurn,
    MaxTokens,
    StopSequence,
    ToolUse,
}

impl DeepView for AnthropicStopReason {
    type V = AnthropicStopReason;

    open spec fn deep_view(&self) -> AnthropicStopReason {
        *self
    }
}

/// A complete response.
#[derive(Debug, PartialEq, Eq)]
pub struct AnthropicMessageResponse {
    pub id: String,
    pub object_type: String,
    pub role: String,
    pub content: Vec<AnthropicResponseContentBlock>,
    pub model: String,
    pub stop_reason: Option<AnthropicStopReason>,
    pub stop_sequence: Option<String>,
    pub usage: AnthropicUsage,
}

/// The content of a [`AnthropicMessageResponse`].
#[verifier::ext_equal]
pub struct AnthropicMessageResponseView {
    pub id: Seq<char>,
    pub object_type: Seq<char>,
    pub role: Seq<char>,
    pub content: Seq<AnthropicResponseContentBlockView>,
    pub model: Seq<char>,
    pub stop_reason: Option<AnthropicStopReason>,
    pub stop_sequence: Option<Seq<char>>,
    pub usage: AnthropicUsage,
}

impl DeepView for AnthropicMessageResponse {
    type V = AnthropicMessageResponseView;

    open spec fn deep_view(&self) -> AnthropicMessageResponseView {
        AnthropicMessageResponseView {
            id: self.id.deep_view(),
            object_type: self.object_type.deep_view(),
            role: self.role.deep_view(),
            content: self.content.deep_view(),
            model: self.model.deep_view(),
            stop_reason: self.stop_reason.deep_view(),
            stop_sequence: self.stop_sequence.deep_view(),
            usage: self.usage.deep_view(),
        }
    }
}

/// What a stream event adds to a content block.
#[derive(Debug, PartialEq, Eq)]
pub enum AnthropicDelta {
    TextDelta { text: String },
    InputJsonDelta { partial_json: String },
}

/// The content of a [`AnthropicDelta`].
#[verifier::ext_equal]
pub enum AnthropicDeltaView {
    TextDelta { text: Seq<char> },
    InputJsonDelta { partial_json: Seq<char> },
}

impl DeepView for AnthropicDelta {
    type V = AnthropicDeltaView;

    open spec fn deep_view(&self) -> AnthropicDeltaView {
        match self {
            AnthropicDelta::TextDelta { text } => AnthropicDeltaView::TextDelta {
                text: text.deep_view(),
            },
            AnthropicDelta::InputJsonDelta { partial_json } => AnthropicDeltaView::InputJsonDelta {
                partial_json: partial_json.deep_view(),
            },
        }
    }
}

/// What a stream event says of the whole message.
#[derive(Debug, PartialEq, Eq)]
pub struct AnthropicMessageDeltaBody {
    pub stop_reason: Option<AnthropicStopReason>,
    pub stop_sequence: Option<String>,
}

/// The content of a [`AnthropicMessageDeltaBody`].
#[verifier::ext_equal]
pub struct AnthropicMessageDeltaBodyView {
    pub stop_reason: Option<AnthropicStopReason>,
    pub stop_sequence: Option<Seq<char>>,
}

impl DeepView for AnthropicMessageDeltaBody {
    type V = AnthropicMessageDeltaBodyView;

    open spec fn deep_view(&self) -> AnthropicMessageDeltaBodyView {
        AnthropicMessageDeltaBodyView {
            stop_reason: self.stop_reason.deep_view(),
            stop_sequence: self.stop_sequence.deep_view(),
        }
    }
}

/// Error body within an error response.
#[derive(Debug, PartialEq, Eq)]
pub struct AnthropicErrorBody {
    pub error_type: String,
    pub message: String,
}

/// The content of a [`AnthropicErrorBody`].
#[verifier::ext_equal]
pub struct AnthropicErrorBodyView {
    pub error_type: Seq<char>,
    pub message: Seq<char>,
}

impl DeepView for AnthropicErrorBody {
    type V = AnthropicErrorBodyView;

    open spec fn deep_view(&self) -> AnthropicErrorBodyView {
        AnthropicErrorBodyView {
            error_type: self.error_type.deep_view(),
            message: self.message.deep_view(),
        }
    }
}

/// An event of a streamed response.
#[derive(Debug, PartialEq, Eq)]
pub enum AnthropicStreamEvent {
    MessageStart { message: AnthropicMessageResponse },
    ContentBlockStart { index: u32, content_block: AnthropicResponseContentBlock },
    ContentBlockDelta { index: u32, delta: AnthropicDelta },
    ContentBlockStop { index: u32 },
    MessageDelta { delta: AnthropicMessageDeltaBody, usage: AnthropicUsage },
    MessageStop {  },
    Ping {  },
    Error { error: AnthropicErrorBody },
}

/// The content of a [`AnthropicStreamEvent`].
#[verifier::ext_equal]
pub enum AnthropicStreamEventView {
    MessageStart { message: AnthropicMessageResponseView },
    ContentBlockStart { index: u32, content_block: AnthropicResponseContentBlockView },
    ContentBlockDelta { index: u32, delta: AnthropicDeltaView },
    ContentBlockStop { index: u32 },
    MessageDelta { delta: AnthropicMessageDeltaBodyView, usage: AnthropicUsage },
    MessageStop {  },
    Ping {  },
    Error { error: AnthropicErrorBodyView },
}

impl DeepView for AnthropicStreamEvent {
    type V = AnthropicStreamEventView;

    open spec fn deep_view(&self) -> AnthropicStreamEventView {
        match self {
            AnthropicStreamEvent::MessageStart { message } => AnthropicStreamEventView::MessageStart {
                message: message.deep_view(),
            },
            AnthropicStreamEvent::ContentBlockStart { index, content_block } => AnthropicStreamEventView::ContentBlockStart {
                index: index.deep_view(),
                content_block: content_block.deep_view(),
            },
            AnthropicStreamEvent::ContentBlockDelta { index, delta } => AnthropicStreamEventView::ContentBlockDelta {
                index: index.deep_view(),
                delta: delta.deep_view(),
            },
            AnthropicStreamEvent::ContentBlockStop { index } => AnthropicStreamEventView::ContentBlockStop {
                index: index.deep_view(),
            },
            AnthropicStreamEvent::MessageDelta { delta, usage } => AnthropicStreamEventView::MessageDelta {
                delta: delta.deep_view(),
                usage: usage.deep_view(),
            },
            AnthropicStreamEvent::MessageStop {} => AnthropicStreamEventView::MessageStop {},
            AnthropicStreamEvent::Ping {} => AnthropicStreamEventView::Ping {},
            AnthropicStreamEvent::Error { error } => AnthropicStreamEventView::Error {
                error: error.deep_view(),
            },
        }
    }
}

/// An error response.
#[derive(Debug, PartialEq, Eq)]
pub struct AnthropicErrorResponse {
    pub object_type: String,
    pub error: AnthropicErrorBody,
}

/// The content of a [`AnthropicErrorResponse`].
#[verifier::ext_equal]
pub struct AnthropicErrorResponseView {
    pub object_type: Seq<char>,
    pub error: AnthropicErrorBodyView,
}

impl DeepView for AnthropicErrorResponse {
    type V = AnthropicErrorResponseView;

    open spec fn deep_view(&self) -> AnthropicErrorResponseView {
        AnthropicErrorResponseView {
            object_type: self.object_type.deep_view(),
            error: self.error.deep_view(),
        }
    }
}

/// A request for an estimate of the tokens of a conversation.
#[derive(Debug, PartialEq, Eq)]
pub struct AnthropicCountTokensRequest {
    pub model: String,
    pub messages: Vec<AnthropicMessage>,
    pub system: Option<String>,
    pub tools: Option<Vec<AnthropicTool>>,
}

/// The content of a [`AnthropicCountTokensRequest`].
#[verifier::ext_equal]
pub struct AnthropicCountTokensRequestView {
    pub model: Seq<char>,
    pub messages: Seq<AnthropicMessageView>,
    pub system: Option<Seq<char>>,
    pub tools: Option<Seq<AnthropicToolView>>,
}

impl DeepView for AnthropicCountTokensRequest {
    type V = AnthropicCountTokensRequestView;

    open spec fn deep_view(&self) -> AnthropicCountTokensRequestView {
        AnthropicCountTokensRequestView {
            model: self.model.deep_view(),
            messages: self.messages.deep_view(),
            system: self.system.deep_view(),
            tools: self.tools.deep_view(),
        }
    }
}

/// An estimate of the tokens of a conversation.
#[derive(Debug, Clone, Copy, PartialEq, Eq)]
pub struct AnthropicCountTokensResponse {
    pub input_tokens: u32,
}

/// An error response of a kind.
pub open spec fn error_response(kind: Seq<char>, message: Seq<char>) -> AnthropicErrorResponseView {
    AnthropicErrorResponseView {
        object_type: "error"@,
        error: AnthropicErrorBodyView { error_type: kind, message },
    }
}

impl AnthropicErrorResponse {
    /// The response to a request that is not valid.
    pub fn invalid_request(message: String) -> (r: AnthropicErrorResponse)
        ensures
            r.deep_view() == error_response("invalid_request_error"@, message@),
    {
        AnthropicErrorResponse {
            object_type: "error".to_owned(),
            error: AnthropicErrorBody { error_type: "invalid_request_error".to_owned(), message },
        }
    }

    /// The response to an internal failure.
    pub fn api_error(message: String) -> (r: AnthropicErrorResponse)
        ensures
            r.deep_view() == error_response("api_error"@, message@),
    {
        AnthropicErrorResponse {
            object_type: "error".to_owned(),
            error: AnthropicErrorBody { error_type: "api_error".to_owned(), message },
        }
    }

    /// The response to a request for what is not there.
    pub fn not_found(message: String) -> (r: AnthropicErrorResponse)
        ensures
            r.deep_view() == error_response("not_found_error"@, message@),
    {
        AnthropicErrorResponse {
            object_type: "error".to_owned(),
            error: AnthropicErrorBody { error_type: "not_found_error".to_owned(), message },
        }
    }
}

} // verus!
