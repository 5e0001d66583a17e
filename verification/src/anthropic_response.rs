//! Responses and token estimates of the Messages API.

use crate::anthropic_types::{
    AnthropicContentBlock, AnthropicContentBlockView, AnthropicCountTokensRequest,
    AnthropicCountTokensRequestView, AnthropicMessage, AnthropicMessageContent,
    AnthropicMessageContentView, AnthropicMessageResponse, AnthropicMessageResponseView,
    AnthropicMessageView, AnthropicResponseContentBlock, AnthropicResponseContentBlockView,
    AnthropicRole, AnthropicStopReason, AnthropicTool, AnthropicToolView, AnthropicUsage,
    ToolResultContent, ToolResultContentBlock, ToolResultContentBlockView, ToolResultContentView,
};
use crate::chat_types::{
    ChatChoice, ChatChoiceView, ChatCompletionMessageContent, ChatCompletionMessageContentView,
    ChatCompletionMessageToolCall, ChatCompletionMessageToolCallView, FinishReason,
    NvCreateChatCompletionResponse, NvCreateChatCompletionResponseView,
};
use crate::copy::{no_items, push_item};
use crate::ids::{fresh_simple_uuid, is_simple_uuid_text};
use crate::json::{Json, JsonView};
use crate::json_text::{json_text, parsed_json};
use crate::text::join;
use vstd::prelude::*;
use vstd::utf8::encode_utf8;

verus! {

/// Why a message ended, for the end of a choice.
pub open spec fn stop_reason_of(reason: FinishReason) -> AnthropicStopReason {
    match reason {
        FinishReason::Stop => AnthropicStopReason::EndTurn,
        FinishReason::Length => AnthropicStopReason::MaxTokens,
        FinishReason::ToolCalls => AnthropicStopReason::ToolUse,
        FinishReason::ContentFilter => AnthropicStopReason::EndTurn,
        FinishReason::FunctionCall => AnthropicStopReason::ToolUse,
    }
}

/// The input of a tool call: the value of its arguments, an empty object where they
/// have none.
pub open spec fn input_of(parsed: Option<JsonView>) -> JsonView {
    match parsed {
        Some(value) => value,
        None => JsonView::Object(Map::empty()),
    }
}

/// The block of a tool call, given the value of its arguments.
pub open spec fn call_block(
    call: ChatCompletionMessageToolCallView,
    parsed: Option<JsonView>,
) -> AnthropicResponseContentBlockView {
    AnthropicResponseContentBlockView::ToolUse {
        id: call.id,
        name: call.function.name,
        input: input_of(parsed),
    }
}

/// The blocks of tool calls.
pub open spec fn call_blocks(calls: Seq<ChatCompletionMessageToolCallView>) -> Seq<
    AnthropicResponseContentBlockView,
> {
    Seq::new(
        calls.len(),
        |i: int| call_block(calls[i], parsed_json(calls[i].function.arguments)),
    )
}

/// The text of a message; other content has a stand-in.
pub open spec fn text_of(content: Option<ChatCompletionMessageContentView>) -> Option<Seq<char>> {
    match content {
        Some(ChatCompletionMessageContentView::Text(text)) => Some(text),
        Some(ChatCompletionMessageContentView::Parts(_)) => Some("[multimodal content]"@),
        None => None,
    }
}

/// The blocks of a choice: its text, then its tool calls.
pub open spec fn choice_blocks(choice: ChatChoiceView) -> Seq<AnthropicResponseContentBlockView> {
    let calls = match choice.message.tool_calls {
        Some(calls) => call_blocks(calls),
        None => Seq::empty(),
    };
    match text_of(choice.message.content) {
        Some(text) => seq![AnthropicResponseContentBlockView::Text { text }] + calls,
        None => calls,
    }
}

/// The blocks, an empty text where there are none.
pub open spec fn at_least_one(blocks: Seq<AnthropicResponseContentBlockView>) -> Seq<
    AnthropicResponseContentBlockView,
> {
    if blocks.len() == 0 {
        seq![AnthropicResponseContentBlockView::Text { text: ""@ }]
    } else {
        blocks
    }
}

/// The response with the identifier `id` for the first choice of a chat completion.
pub open spec fn message_response(
    response: NvCreateChatCompletionResponseView,
    model: Seq<char>,
    id: Seq<char>,
) -> AnthropicMessageResponseView {
    let choices = response.inner.choices;
    AnthropicMessageResponseView {
        id,
        object_type: "message"@,
        role: "assistant"@,
        content: at_least_one(
            if choices.len() == 0 {
                Seq::empty()
            } else {
                choice_blocks(choices[0])
            },
        ),
        model,
        stop_reason: if choices.len() == 0 {
            None
        } else {
            match choices[0].finish_reason {
                Some(reason) => Some(stop_reason_of(reason)),
                None => None,
            }
        },
        stop_sequence: None,
        usage: match response.inner.usage {
            Some(usage) => AnthropicUsage {
                input_tokens: usage.prompt_tokens,
                output_tokens: usage.completion_tokens,
            },
            None => AnthropicUsage { input_tokens: 0, output_tokens: 0 },
        },
    }
}

/// A response has content, and its text comes before its tool calls.
pub proof fn law_text_comes_first(
    response: NvCreateChatCompletionResponseView,
    model: Seq<char>,
    id: Seq<char>,
    i: int,
)
    requires
        0 < i < message_response(response, model, id).content.len(),
    ensures
        message_response(response, model, id).content[i] is ToolUse,
{
}

/// A response has content.
pub proof fn law_responses_have_content(
    response: NvCreateChatCompletionResponseView,
    model: Seq<char>,
    id: Seq<char>,
)
    ensures
        message_response(response, model, id).content.len() > 0,
{
}

/// The block of a tool call, given the value of its arguments.
pub fn tool_use_block(call: &ChatCompletionMessageToolCall, parsed: Option<Json>) -> (r:
    AnthropicResponseContentBlock)
    ensures
        r.deep_view() == call_block(call.deep_view(), parsed.deep_view()),
{
    AnthropicResponseContentBlock::ToolUse {
        id: call.id.clone(),
        name: call.function.name.clone(),
        input: match parsed {
            Some(value) => value,
            None => Json::empty_object(),
        },
    }
}

/// The blocks of a choice.
fn blocks_of(choice: &ChatChoice) -> (r: Vec<AnthropicResponseContentBlock>)
    ensures
        r.deep_view() == choice_blocks(choice.deep_view()),
{
    let mut blocks: Vec<AnthropicResponseContentBlock> = no_items();
    let text: Option<String> = match &choice.message.content {
        Some(ChatCompletionMessageContent::Text(text)) => Some(text.clone()),
        Some(ChatCompletionMessageContent::Parts(_)) => Some("[multimodal content]".to_owned()),
        None => None,
    };
    match text {
        Some(text) => {
            push_item(&mut blocks, AnthropicResponseContentBlock::Text { text });
        },
        None => {},
    }
    let ghost front = blocks.deep_view();
    match &choice.message.tool_calls {
        Some(calls) => {
            let ghost all = calls.deep_view();
            let mut i: usize = 0;
            assert(front =~= front + call_blocks(all).subrange(0, 0));
            while i < calls.len()
                invariant
                    all == calls.deep_view(),
                    all.len() == calls@.len(),
                    i <= all.len(),
                    blocks.deep_view() == front + call_blocks(all).subrange(0, i as int),
                decreases all.len() - i,
            {
                assert(all[i as int] == calls@[i as int].deep_view());
                let parsed: Option<Json> = Json::parse(calls[i].function.arguments.as_str());
                push_item(&mut blocks, tool_use_block(&calls[i], parsed));
                assert(blocks.deep_view() =~= front + call_blocks(all).subrange(0, i + 1));
                i += 1;
            }
            assert(call_blocks(all).subrange(0, all.len() as int) =~= call_blocks(all));
            assert(choice.deep_view().message.tool_calls == Some(all));
            assert(Seq::<AnthropicResponseContentBlockView>::empty() + call_blocks(all)
                =~= call_blocks(all));
        },
        None => {
            assert(front =~= front + Seq::empty());
        },
    }
    assert(blocks.deep_view() =~= choice_blocks(choice.deep_view()));
    blocks
}

/// The response with the identifier `id` for a chat completion.
pub fn anthropic_response_with_id(
    chat_resp: &NvCreateChatCompletionResponse,
    model: &str,
    id: String,
) -> (r: AnthropicMessageResponse)
    ensures
        r.deep_view() == message_response(chat_resp.deep_view(), model@, id@),
{
    let mut content: Vec<AnthropicResponseContentBlock> = no_items();
    let mut stop_reason: Option<AnthropicStopReason> = None;
    if chat_resp.inner.choices.len() > 0 {
        let choice: &ChatChoice = &chat_resp.inner.choices[0];
        stop_reason = match choice.finish_reason {
            Some(FinishReason::Stop) => Some(AnthropicStopReason::EndTurn),
            Some(FinishReason::Length) => Some(AnthropicStopReason::MaxTokens),
            Some(FinishReason::ToolCalls) => Some(AnthropicStopReason::ToolUse),
            Some(FinishReason::ContentFilter) => Some(AnthropicStopReason::EndTurn),
            Some(FinishReason::FunctionCall) => Some(AnthropicStopReason::ToolUse),
            None => None,
        };
        content = blocks_of(choice);
    }
    if content.len() == 0 {
        push_item(&mut content, AnthropicResponseContentBlock::Text { text: "".to_owned() });
        assert(content.deep_view() =~= seq![AnthropicResponseContentBlockView::Text { text: ""@ }]);
    }
    AnthropicMessageResponse {
        id,
        object_type: "message".to_owned(),
        role: "assistant".to_owned(),
        content,
        model: model.to_owned(),
        stop_reason,
        stop_sequence: None,
        usage: match &chat_resp.inner.usage {
            Some(usage) => AnthropicUsage {
                input_tokens: usage.prompt_tokens,
                output_tokens: usage.completion_tokens,
            },
            None => AnthropicUsage { input_tokens: 0, output_tokens: 0 },
        },
    }
}

/// The response for a chat completion, with a new identifier.
pub fn chat_completion_to_anthropic_response(
    chat_resp: NvCreateChatCompletionResponse,
    model: &str,
) -> (r: AnthropicMessageResponse)
    ensures
        r.deep_view() == message_response(chat_resp.deep_view(), model@, r.id@),
        exists|digits: Seq<char>| #[trigger] is_simple_uuid_text(digits) && r.id@ == "msg_"@ + digits,
{
    let digits: String = fresh_simple_uuid();
    let id: String = join("msg_", digits.as_str());
    anthropic_response_with_id(&chat_resp, model, id)
}

/// The length of a text in bytes.
pub open spec fn bytes_of(s: Seq<char>) -> int {
    encode_utf8(s).len() as int
}

/// The length of the first `n` blocks of a tool result.
pub open spec fn result_blocks_len(blocks: Seq<ToolResultContentBlockView>, n: nat) -> int
    decreases n,
{
    if n == 0 {
        0
    } else {
        result_blocks_len(blocks, (n - 1) as nat) + match blocks[n - 1] {
            ToolResultContentBlockView::Text { text } => bytes_of(text),
            ToolResultContentBlockView::Other(value) => bytes_of(json_text(value)),
        }
    }
}

/// The length of a content block; an image counts as 256 bytes.
pub open spec fn block_len(block: AnthropicContentBlockView) -> int {
    match block {
        AnthropicContentBlockView::Text { text } => bytes_of(text),
        AnthropicContentBlockView::ToolUse { id, name, input } => bytes_of(name) + bytes_of(
            json_text(input),
        ),
        AnthropicContentBlockView::ToolResult { tool_use_id, content, is_error } => match content {
            Some(ToolResultContentView::Text(text)) => bytes_of(text),
            Some(ToolResultContentView::Blocks(blocks)) => result_blocks_len(blocks, blocks.len()),
            None => 0,
        },
        AnthropicContentBlockView::Thinking { thinking, signature } => bytes_of(thinking),
        AnthropicContentBlockView::Image { source } => 256,
        AnthropicContentBlockView::Unknown { block_type } => 0,
    }
}

/// The length of the first `n` content blocks.
pub open spec fn blocks_len(blocks: Seq<AnthropicContentBlockView>, n: nat) -> int
    decreases n,
{
    if n == 0 {
        0
    } else {
        blocks_len(blocks, (n - 1) as nat) + block_len(blocks[n - 1])
    }
}

/// The length of a message: the name of its role, and its content.
pub open spec fn message_len(message: AnthropicMessageView) -> int {
    (match message.role {
        AnthropicRole::User => 4int,
        AnthropicRole::Assistant => 9int,
    }) + (match message.content {
        AnthropicMessageContentView::Text { content } => bytes_of(content),
        AnthropicMessageContentView::Blocks { content } => blocks_len(content, content.len()),
    })
}

/// The length of the first `n` messages.
pub open spec fn messages_len(messages: Seq<AnthropicMessageView>, n: nat) -> int
    decreases n,
{
    if n == 0 {
        0
    } else {
        messages_len(messages, (n - 1) as nat) + message_len(messages[n - 1])
    }
}

/// The length of the first `n` tools.
pub open spec fn tools_len(tools: Seq<AnthropicToolView>, n: nat) -> int
    decreases n,
{
    if n == 0 {
        0
    } else {
        let tool = tools[n - 1];
        tools_len(tools, (n - 1) as nat) + bytes_of(tool.name) + (match tool.description {
            Some(description) => bytes_of(description),
            None => 0,
        }) + bytes_of(json_text(tool.input_schema))
    }
}

/// The length of all that a request holds.
pub open spec fn request_len(r: AnthropicCountTokensRequestView) -> int {
    (match r.system {
        Some(system) => bytes_of(system),
        None => 0,
    }) + messages_len(r.messages, r.messages.len()) + (match r.tools {
        Some(tools) => tools_len(tools, tools.len()),
        None => 0,
    })
}

/// A length that a machine can hold.
pub open spec fn held(n: int) -> int {
    if n > usize::MAX {
        usize::MAX as int
    } else {
        n
    }
}

/// The tokens of a text of that length: one for each three bytes, and at least one
/// where there are bytes.
pub open spec fn tokens_of_len(len: int) -> u32 {
    if len / 3 == 0 && len > 0 {
        1
    } else {
        (len / 3) as u32
    }
}

/// There are tokens exactly where there is something to count.
pub proof fn law_tokens_of_something(len: int)
    requires
        0 <= len,
        len / 3 <= u32::MAX,
    ensures
        (tokens_of_len(len) == 0) == (len == 0),
{
}

/// Lengths are not negative.
proof fn lemma_block_len(block: AnthropicContentBlockView)
    ensures
        0 <= block_len(block),
{
    match block {
        AnthropicContentBlockView::ToolResult {
            tool_use_id,
            content: Some(ToolResultContentView::Blocks(blocks)),
            is_error,
        } => {
            lemma_result_blocks_len(blocks, blocks.len());
        },
        _ => {},
    }
}

proof fn lemma_result_blocks_len(blocks: Seq<ToolResultContentBlockView>, n: nat)
    ensures
        0 <= result_blocks_len(blocks, n),
    decreases n,
{
    if n > 0 {
        lemma_result_blocks_len(blocks, (n - 1) as nat);
    }
}

proof fn lemma_blocks_len(blocks: Seq<AnthropicContentBlockView>, n: nat)
    ensures
        0 <= blocks_len(blocks, n),
    decreases n,
{
    if n > 0 {
        lemma_blocks_len(blocks, (n - 1) as nat);
        lemma_block_len(blocks[n - 1]);
    }
}

proof fn lemma_messages_len(messages: Seq<AnthropicMessageView>, n: nat)
    ensures
        0 <= messages_len(messages, n),
    decreases n,
{
    if n > 0 {
        lemma_messages_len(messages, (n - 1) as nat);
        match messages[n - 1].content {
            AnthropicMessageContentView::Blocks { content } => {
                lemma_blocks_len(content, content.len());
            },
            _ => {},
        }
    }
}

proof fn lemma_tools_len(tools: Seq<AnthropicToolView>, n: nat)
    ensures
        0 <= tools_len(tools, n),
    decreases n,
{
    if n > 0 {
        lemma_tools_len(tools, (n - 1) as nat);
    }
}

/// The length of a text in bytes.
fn byte_len(s: &str) -> (r: usize)
    ensures
        r == bytes_of(s@),
{
    s.as_bytes().len()
}

/// The length of the blocks of a tool result.
fn estimate_result_blocks(blocks: &Vec<ToolResultContentBlock>) -> (r: usize)
    ensures
        r == held(result_blocks_len(blocks.deep_view(), blocks.deep_view().len())),
{
    let ghost all = blocks.deep_view();
    let mut total: usize = 0;
    let mut i: usize = 0;
    while i < blocks.len()
        invariant
            all == blocks.deep_view(),
            all.len() == blocks@.len(),
            i <= all.len(),
            total == held(result_blocks_len(all, i as nat)),
        decreases all.len() - i,
    {
        assert(all[i as int] == blocks@[i as int].deep_view());
        let len: usize = match &blocks[i] {
            ToolResultContentBlock::Text { text } => byte_len(text.as_str()),
            ToolResultContentBlock::Other(value) => byte_len(value.to_text().as_str()),
        };
        total = total.saturating_add(len);
        i += 1;
    }
    total
}

/// The length of a content block.
fn estimate_block_len(block: &AnthropicContentBlock) -> (r: usize)
    ensures
        r == held(block_len(block.deep_view())),
{
    match block {
        AnthropicContentBlock::Text { text } => byte_len(text.as_str()),
        AnthropicContentBlock::ToolUse { id: _, name, input } => byte_len(
            name.as_str(),
        ).saturating_add(byte_len(input.to_text().as_str())),
        AnthropicContentBlock::ToolResult { tool_use_id: _, content, is_error: _ } => match content {
            Some(ToolResultContent::Text(text)) => byte_len(text.as_str()),
            Some(ToolResultContent::Blocks(blocks)) => estimate_result_blocks(blocks),
            None => 0,
        },
        AnthropicContentBlock::Thinking { thinking, signature: _ } => byte_len(thinking.as_str()),
        AnthropicContentBlock::Image { source: _ } => 256,
        AnthropicContentBlock::Unknown { block_type: _ } => 0,
    }
}

/// The length of content blocks.
fn estimate_blocks(blocks: &Vec<AnthropicContentBlock>) -> (r: usize)
    ensures
        r == held(blocks_len(blocks.deep_view(), blocks.deep_view().len())),
{
    let ghost all = blocks.deep_view();
    let mut total: usize = 0;
    let mut i: usize = 0;
    while i < blocks.len()
        invariant
            all == blocks.deep_view(),
            all.len() == blocks@.len(),
            i <= all.len(),
            total == held(blocks_len(all, i as nat)),
        decreases all.len() - i,
    {
        assert(all[i as int] == blocks@[i as int].deep_view());
        proof {
            lemma_block_len(all[i as int]);
            lemma_blocks_len(all, i as nat);
        }
        total = total.saturating_add(estimate_block_len(&blocks[i]));
        i += 1;
    }
    total
}

/// The length of messages.
fn estimate_messages(messages: &Vec<AnthropicMessage>) -> (r: usize)
    ensures
        r == held(messages_len(messages.deep_view(), messages.deep_view().len())),
{
    let ghost all = messages.deep_view();
    let mut total: usize = 0;
    let mut i: usize = 0;
    while i < messages.len()
        invariant
            all == messages.deep_view(),
            all.len() == messages@.len(),
            i <= all.len(),
            total == held(messages_len(all, i as nat)),
        decreases all.len() - i,
    {
        assert(all[i as int] == messages@[i as int].deep_view());
        proof {
            lemma_messages_len(all, i as nat);
        }
        let role: usize = match messages[i].role {
            AnthropicRole::User => 4,
            AnthropicRole::Assistant => 9,
        };
        let content: usize = match &messages[i].content {
            AnthropicMessageContent::Text { content } => byte_len(content.as_str()),
            AnthropicMessageContent::Blocks { content } => {
                proof {
                    lemma_blocks_len(content.deep_view(), content.deep_view().len());
                }
                estimate_blocks(content)
            },
        };
        total = total.saturating_add(role).saturating_add(content);
        i += 1;
    }
    total
}

/// The length of tools.
fn estimate_tools(tools: &Vec<AnthropicTool>) -> (r: usize)
    ensures
        r == held(tools_len(tools.deep_view(), tools.deep_view().len())),
{
    let ghost all = tools.deep_view();
    let mut total: usize = 0;
    let mut i: usize = 0;
    while i < tools.len()
        invariant
            all == tools.deep_view(),
            all.len() == tools@.len(),
            i <= all.len(),
            total == held(tools_len(all, i as nat)),
        decreases all.len() - i,
    {
        assert(all[i as int] == tools@[i as int].deep_view());
        proof {
            lemma_tools_len(all, i as nat);
        }
        total = total.saturating_add(byte_len(tools[i].name.as_str()));
        match &tools[i].description {
            Some(description) => {
                total = total.saturating_add(byte_len(description.as_str()));
            },
            None => {},
        }
        total = total.saturating_add(byte_len(tools[i].input_schema.to_text().as_str()));
        i += 1;
    }
    total
}

impl AnthropicCountTokensRequest {
    /// Estimates the tokens of the request: one for each three bytes.
    pub fn estimate_tokens(&self) -> (r: u32)
        ensures
            r == tokens_of_len(held(request_len(self.deep_view()))),
    {
        let mut total: usize = match &self.system {
            Some(system) => byte_len(system.as_str()),
            None => 0,
        };
        proof {
            lemma_messages_len(self.messages.deep_view(), self.messages.deep_view().len());
        }
        total = total.saturating_add(estimate_messages(&self.messages));
        match &self.tools {
            Some(tools) => {
                proof {
                    lemma_tools_len(tools.deep_view(), tools.deep_view().len());
                }
                total = total.saturating_add(estimate_tools(tools));
            },
            None => {},
        }
        let tokens: usize = total / 3;
        if tokens == 0 && total > 0 {
            1
        } else {
            tokens as u32
        }
    }
}

} // verus!
