//! Conversion between the Messages API and chat completions.

use crate::anthropic_types::{
    AnthropicContentBlock, AnthropicContentBlockView, AnthropicCreateMessageRequest,
    AnthropicCreateMessageRequestView, AnthropicMessageContent, AnthropicMessageContentView,
    AnthropicMessageView, AnthropicRole, AnthropicTool, AnthropicToolChoice,
    AnthropicToolChoiceMode, AnthropicToolChoiceView, AnthropicToolView, ToolResultContent,
    ToolResultContentBlock, ToolResultContentBlockView, ToolResultContentView,
};
use crate::chat_types::{
    ChatCompletionMessageToolCall, ChatCompletionMessageToolCallView, FunctionCall,
    FunctionCallView, FunctionType,
};
use crate::copy::{no_items, one_item, push_item, Duplicate};
use crate::json::JsonMap;
use crate::json_text::json_text;
use crate::request_types::{
    ChatCompletionRequestAssistantMessage, ChatCompletionRequestAssistantMessageView,
    ChatCompletionRequestMessage, ChatCompletionRequestMessageView, ChatCompletionStreamOptions,
    ChatCompletionTool, ChatCompletionToolChoiceOption, ChatCompletionToolChoiceOptionView,
    ChatCompletionToolView, CommonExt, CommonExtView, CreateChatCompletionRequest,
    CreateChatCompletionRequestView, FunctionObject, FunctionObjectView,
    NvCreateChatCompletionRequest, NvCreateChatCompletionRequestView, ReasoningContent,
    ReasoningContentView, Stop, StopView,
};
use crate::text::join;
use vstd::prelude::*;

verus! {

/// The texts of the blocks of a tool result, one after the other.
pub open spec fn result_texts(blocks: Seq<ToolResultContentBlockView>) -> Seq<char>
    decreases blocks.len(),
{
    if blocks.len() == 0 {
        ""@
    } else {
        let n = blocks.len() - 1;
        let front = result_texts(blocks.subrange(0, n));
        match blocks[n] {
            ToolResultContentBlockView::Text { text } => front + text,
            ToolResultContentBlockView::Other(_) => front,
        }
    }
}

/// The text of a tool result.
pub open spec fn result_text(content: ToolResultContentView) -> Seq<char> {
    match content {
        ToolResultContentView::Text(text) => text,
        ToolResultContentView::Blocks(blocks) => result_texts(blocks),
    }
}

impl ToolResultContent {
    /// The text of the result: that of all its text blocks, one after the other.
    pub fn into_text(self) -> (r: String)
        ensures
            r@ == result_text(self.deep_view()),
    {
        self.text()
    }

    /// The text of the result.
    fn text(&self) -> (r: String)
        ensures
            r@ == result_text(self.deep_view()),
    {
        match self {
            ToolResultContent::Text(text) => text.clone(),
            ToolResultContent::Blocks(blocks) => {
                let ghost all = blocks.deep_view();
                let mut out: String = "".to_owned();
                let mut i: usize = 0;
                while i < blocks.len()
                    invariant
                        all == blocks.deep_view(),
                        all.len() == blocks@.len(),
                        i <= all.len(),
                        out@ == result_texts(all.subrange(0, i as int)),
                    decreases all.len() - i,
                {
                    let ghost next = all.subrange(0, i + 1);
                    assert(next.subrange(0, next.len() - 1) =~= all.subrange(0, i as int));
                    assert(next[next.len() - 1] == blocks@[i as int].deep_view());
                    match &blocks[i] {
                        ToolResultContentBlock::Text { text } => {
                            out = join(out.as_str(), text.as_str());
                        },
                        ToolResultContentBlock::Other(_) => {},
                    }
                    i += 1;
                }
                assert(all.subrange(0, all.len() as int) =~= all);
                out
            },
        }
    }
}

/// The texts that are not empty, one per line.
pub open spec fn flat_lines(segments: Seq<Seq<char>>) -> Seq<char>
    decreases segments.len(),
{
    if segments.len() == 0 {
        ""@
    } else {
        let n = segments.len() - 1;
        let front = flat_lines(segments.subrange(0, n));
        if segments[n].len() == 0 {
            front
        } else if front.len() == 0 {
            segments[n]
        } else {
            front + "\n"@ + segments[n]
        }
    }
}

/// The texts that are not empty, one per line.
fn join_lines(segments: &Vec<String>) -> (r: String)
    ensures
        r@ == flat_lines(segments.deep_view()),
{
    let ghost all = segments.deep_view();
    let mut out: String = "".to_owned();
    let mut i: usize = 0;
    while i < segments.len()
        invariant
            all == segments.deep_view(),
            all.len() == segments@.len(),
            i <= all.len(),
            out@ == flat_lines(all.subrange(0, i as int)),
        decreases all.len() - i,
    {
        let ghost next = all.subrange(0, i + 1);
        assert(next.subrange(0, next.len() - 1) =~= all.subrange(0, i as int));
        assert(next[next.len() - 1] == segments@[i as int]@);
        if !segments[i].as_str().is_empty() {
            if out.as_str().is_empty() {
                out = segments[i].clone();
            } else {
                out = join(join(out.as_str(), "\n").as_str(), segments[i].as_str());
            }
        }
        i += 1;
    }
    assert(all.subrange(0, all.len() as int) =~= all);
    out
}

impl ReasoningContent {
    /// The reasoning before each tool call and after the last, where it is told apart.
    pub fn segments(&self) -> (r: Option<&Vec<String>>)
        ensures
            r.deep_view() == (match self.deep_view() {
                ReasoningContentView::Segments(segments) => Some(segments),
                ReasoningContentView::Text(_) => None,
            }),
    {
        match self {
            ReasoningContent::Segments(segments) => Some(segments),
            ReasoningContent::Text(_) => None,
        }
    }

    /// All reasoning, one segment per line; empty segments are left out.
    pub fn to_flat_string(&self) -> (r: String)
        ensures
            r@ == (match self.deep_view() {
                ReasoningContentView::Segments(segments) => flat_lines(segments),
                ReasoningContentView::Text(text) => text,
            }),
    {
        match self {
            ReasoningContent::Segments(segments) => join_lines(segments),
            ReasoningContent::Text(text) => text.clone(),
        }
    }
}

/// Messages from a user's blocks: those that are done, and the text that is to become
/// one.
#[verifier::ext_equal]
pub struct UserScan {
    pub done: Seq<ChatCompletionRequestMessageView>,
    pub text: Option<Seq<char>>,
}

/// The messages, with the text as the last.
pub open spec fn flushed(scan: UserScan) -> Seq<ChatCompletionRequestMessageView> {
    match scan.text {
        Some(content) => scan.done.push(ChatCompletionRequestMessageView::User { content }),
        None => scan.done,
    }
}

/// A piece of text more.
pub open spec fn with_piece(text: Option<Seq<char>>, piece: Seq<char>) -> Option<Seq<char>> {
    match text {
        Some(text) => Some(text + piece),
        None => Some(piece),
    }
}

/// The text of a result that may be missing.
pub open spec fn optional_result_text(content: Option<ToolResultContentView>) -> Seq<char> {
    match content {
        Some(content) => result_text(content),
        None => ""@,
    }
}

/// One block more: text and images become text; a tool result becomes a message of its
/// own, after the text before it.
pub open spec fn user_step(scan: UserScan, block: AnthropicContentBlockView) -> UserScan {
    match block {
        AnthropicContentBlockView::Text { text } => UserScan {
            text: with_piece(scan.text, text),
            ..scan
        },
        AnthropicContentBlockView::Image { .. } => UserScan {
            text: with_piece(scan.text, "[image]"@),
            ..scan
        },
        AnthropicContentBlockView::ToolResult { tool_use_id, content, is_error } => UserScan {
            done: flushed(scan).push(
                ChatCompletionRequestMessageView::Tool {
                    content: optional_result_text(content),
                    tool_call_id: tool_use_id,
                },
            ),
            text: None,
        },
        _ => scan,
    }
}

/// All blocks, after the messages before.
pub open spec fn user_scan(
    before: Seq<ChatCompletionRequestMessageView>,
    blocks: Seq<AnthropicContentBlockView>,
) -> UserScan
    decreases blocks.len(),
{
    if blocks.len() == 0 {
        UserScan { done: before, text: None }
    } else {
        let n = blocks.len() - 1;
        user_step(user_scan(before, blocks.subrange(0, n)), blocks[n])
    }
}

/// What an assistant's blocks hold: the text, the tool calls, the reasoning before each
/// call, and the reasoning since the last.
#[verifier::ext_equal]
pub struct AssistantScan {
    pub text: Seq<char>,
    pub calls: Seq<ChatCompletionMessageToolCallView>,
    pub segments: Seq<Seq<char>>,
    pub pending: Seq<char>,
}

/// One block more.
pub open spec fn assistant_step(
    scan: AssistantScan,
    block: AnthropicContentBlockView,
) -> AssistantScan {
    match block {
        AnthropicContentBlockView::Text { text } => AssistantScan {
            text: scan.text + text,
            ..scan
        },
        AnthropicContentBlockView::Thinking { thinking, signature } => AssistantScan {
            pending: if scan.pending.len() == 0 {
                thinking
            } else {
                scan.pending + "\n"@ + thinking
            },
            ..scan
        },
        AnthropicContentBlockView::ToolUse { id, name, input } => AssistantScan {
            calls: scan.calls.push(
                ChatCompletionMessageToolCallView {
                    id,
                    tool_type: FunctionType::Function,
                    function: FunctionCallView { name, arguments: json_text(input) },
                },
            ),
            segments: scan.segments.push(scan.pending),
            pending: ""@,
            ..scan
        },
        _ => scan,
    }
}

/// All blocks.
pub open spec fn assistant_scan(blocks: Seq<AnthropicContentBlockView>) -> AssistantScan
    decreases blocks.len(),
{
    if blocks.len() == 0 {
        AssistantScan {
            text: ""@,
            calls: Seq::empty(),
            segments: Seq::empty(),
            pending: ""@,
        }
    } else {
        let n = blocks.len() - 1;
        assistant_step(assistant_scan(blocks.subrange(0, n)), blocks[n])
    }
}

/// The reasoning of a message: told apart by tool calls where there are some, else as
/// one text; none where all of it is empty.
pub open spec fn reasoning_of(
    calls: Seq<ChatCompletionMessageToolCallView>,
    segments: Seq<Seq<char>>,
) -> Option<ReasoningContentView> {
    if calls.len() > 0 && (exists|i: int|
        0 <= i < segments.len() && (#[trigger] segments[i]).len() > 0) {
        Some(ReasoningContentView::Segments(segments))
    } else if flat_lines(segments).len() > 0 {
        Some(ReasoningContentView::Text(flat_lines(segments)))
    } else {
        None
    }
}

/// The message of an assistant's blocks.
pub open spec fn assistant_message(
    blocks: Seq<AnthropicContentBlockView>,
) -> ChatCompletionRequestAssistantMessageView {
    let scan = assistant_scan(blocks);
    ChatCompletionRequestAssistantMessageView {
        content: if scan.text.len() == 0 {
            None
        } else {
            Some(scan.text)
        },
        reasoning_content: reasoning_of(scan.calls, scan.segments.push(scan.pending)),
        tool_calls: if scan.calls.len() == 0 {
            None
        } else {
            Some(scan.calls)
        },
    }
}

/// The messages after one message more.
pub open spec fn with_message(
    before: Seq<ChatCompletionRequestMessageView>,
    message: AnthropicMessageView,
) -> Seq<ChatCompletionRequestMessageView> {
    match (message.role, message.content) {
        (AnthropicRole::User, AnthropicMessageContentView::Text { content }) => before.push(
            ChatCompletionRequestMessageView::User { content },
        ),
        (AnthropicRole::User, AnthropicMessageContentView::Blocks { content }) => flushed(
            user_scan(before, content),
        ),
        (AnthropicRole::Assistant, AnthropicMessageContentView::Text { content }) => before.push(
            ChatCompletionRequestMessageView::Assistant(
                ChatCompletionRequestAssistantMessageView {
                    content: Some(content),
                    reasoning_content: None,
                    tool_calls: None,
                },
            ),
        ),
        (AnthropicRole::Assistant, AnthropicMessageContentView::Blocks { content }) => before.push(
            ChatCompletionRequestMessageView::Assistant(assistant_message(content)),
        ),
    }
}

/// The chat messages of a conversation, after the system prompt.
pub open spec fn chat_messages(
    system: Option<Seq<char>>,
    messages: Seq<AnthropicMessageView>,
) -> Seq<ChatCompletionRequestMessageView>
    decreases messages.len(),
{
    if messages.len() == 0 {
        match system {
            Some(content) => seq![ChatCompletionRequestMessageView::System { content }],
            None => Seq::empty(),
        }
    } else {
        let n = messages.len() - 1;
        with_message(chat_messages(system, messages.subrange(0, n)), messages[n])
    }
}

/// A tool as chat completions have it.
pub open spec fn chat_tool(tool: AnthropicToolView) -> ChatCompletionToolView {
    ChatCompletionToolView {
        tool_type: FunctionType::Function,
        function: FunctionObjectView {
            name: tool.name,
            description: tool.description,
            parameters: Some(tool.input_schema),
            strict: None,
        },
    }
}

/// Tools as chat completions have them.
pub open spec fn chat_tools(tools: Seq<AnthropicToolView>) -> Seq<ChatCompletionToolView> {
    Seq::new(tools.len(), |i: int| chat_tool(tools[i]))
}

/// A tool choice as chat completions have it. The wish for one tool without its name
/// counts as the wish for any.
pub open spec fn chat_tool_choice(
    choice: AnthropicToolChoiceView,
) -> ChatCompletionToolChoiceOptionView {
    match choice {
        AnthropicToolChoiceView::Simple(simple) => match simple.choice_type {
            AnthropicToolChoiceMode::Auto => ChatCompletionToolChoiceOptionView::Auto,
            AnthropicToolChoiceMode::Any => ChatCompletionToolChoiceOptionView::Required,
            AnthropicToolChoiceMode::NoTool => ChatCompletionToolChoiceOptionView::NoTool,
            AnthropicToolChoiceMode::Tool => ChatCompletionToolChoiceOptionView::Required,
        },
        AnthropicToolChoiceView::Named(named) => ChatCompletionToolChoiceOptionView::Named(
            named.name,
        ),
    }
}

/// The chat-completion request of a message request; it always streams, with usage at
/// the end.
pub open spec fn chat_request(
    req: AnthropicCreateMessageRequestView,
) -> NvCreateChatCompletionRequestView {
    NvCreateChatCompletionRequestView {
        inner: CreateChatCompletionRequestView {
            model: req.model,
            messages: chat_messages(req.system, req.messages),
            temperature: req.temperature,
            top_p: req.top_p,
            frequency_penalty: None,
            presence_penalty: None,
            max_tokens: None,
            max_completion_tokens: Some(req.max_tokens),
            n: None,
            seed: None,
            stop: match req.stop_sequences {
                Some(texts) => Some(StopView::TextArray(texts)),
                None => None,
            },
            tools: match req.tools {
                Some(tools) => Some(chat_tools(tools)),
                None => None,
            },
            tool_choice: match req.tool_choice {
                Some(choice) => Some(chat_tool_choice(choice)),
                None => None,
            },
            stream: Some(true),
            stream_options: Some(
                ChatCompletionStreamOptions { include_usage: true, continuous_usage_stats: false },
            ),
            logprobs: None,
            top_logprobs: None,
            response_format: None,
            reasoning_effort: None,
        },
        common: CommonExtView {
            ignore_eos: None,
            min_tokens: None,
            top_k: match req.top_k {
                Some(k) => Some(k as i32),
                None => None,
            },
            min_p: None,
            repetition_penalty: None,
            include_stop_str_in_output: None,
            skip_special_tokens: None,
            prompt_logprobs: None,
            guided_json: None,
            guided_regex: None,
            guided_grammar: None,
            guided_choice: None,
            guided_decoding_backend: None,
            guided_whitespace_pattern: None,
            structured_outputs: None,
        },
        nvext: None,
        chat_template_args: None,
        thinking: None,
        return_tokens_as_token_ids: None,
        unsupported_fields: Map::empty(),
    }
}

/// There is one segment of reasoning for each tool call, and one after the last.
pub proof fn law_segments_follow_calls(blocks: Seq<AnthropicContentBlockView>)
    ensures
        assistant_message(blocks).reasoning_content matches Some(
            ReasoningContentView::Segments(segments),
        ) ==> assistant_message(blocks).tool_calls is Some && segments.len() == assistant_message(
            blocks,
        ).tool_calls->0.len() + 1,
{
    lemma_segments(blocks);
}

proof fn lemma_segments(blocks: Seq<AnthropicContentBlockView>)
    ensures
        assistant_scan(blocks).segments.len() == assistant_scan(blocks).calls.len(),
    decreases blocks.len(),
{
    if blocks.len() > 0 {
        lemma_segments(blocks.subrange(0, blocks.len() - 1));
    }
}

/// Messages that are there stay as they are, in their order.
pub proof fn law_messages_are_added_at_the_end(
    before: Seq<ChatCompletionRequestMessageView>,
    message: AnthropicMessageView,
)
    ensures
        before.len() <= with_message(before, message).len(),
        with_message(before, message).subrange(0, before.len() as int) == before,
{
    match message.content {
        AnthropicMessageContentView::Blocks { content } => {
            lemma_user_scan_adds(before, content);
        },
        _ => {},
    }
    assert(with_message(before, message).subrange(0, before.len() as int) =~= before);
}

proof fn lemma_user_scan_adds(
    before: Seq<ChatCompletionRequestMessageView>,
    blocks: Seq<AnthropicContentBlockView>,
)
    ensures
        before.len() <= user_scan(before, blocks).done.len(),
        forall|i: int|
            0 <= i < before.len() ==> #[trigger] user_scan(before, blocks).done[i] == before[i],
    decreases blocks.len(),
{
    if blocks.len() > 0 {
        lemma_user_scan_adds(before, blocks.subrange(0, blocks.len() - 1));
    }
}

/// Adds the text as a message.
fn flush(messages: &mut Vec<ChatCompletionRequestMessage>, text: Option<String>)
    ensures
        final(messages).deep_view() == flushed(
            (UserScan { done: old(messages).deep_view(), text: text.deep_view() }),
        ),
{
    match text {
        Some(content) => {
            push_item(messages, ChatCompletionRequestMessage::User { content });
        },
        None => {},
    }
}

/// Adds a piece to the text.
fn add_piece(text: Option<String>, piece: &str) -> (r: Option<String>)
    ensures
        r.deep_view() == with_piece(text.deep_view(), piece@),
{
    match text {
        Some(text) => Some(join(text.as_str(), piece)),
        None => Some(piece.to_owned()),
    }
}

/// Adds the messages of a user's blocks.
fn convert_user_blocks(
    blocks: &Vec<AnthropicContentBlock>,
    messages: &mut Vec<ChatCompletionRequestMessage>,
)
    ensures
        final(messages).deep_view() == flushed(
            user_scan(old(messages).deep_view(), blocks.deep_view()),
        ),
{
    let ghost before = messages.deep_view();
    let ghost all = blocks.deep_view();
    let mut text: Option<String> = None;
    let mut i: usize = 0;
    while i < blocks.len()
        invariant
            all == blocks.deep_view(),
            all.len() == blocks@.len(),
            i <= all.len(),
            (UserScan { done: messages.deep_view(), text: text.deep_view() }) == user_scan(
                before,
                all.subrange(0, i as int),
            ),
        decreases all.len() - i,
    {
        let ghost next = all.subrange(0, i + 1);
        assert(next.subrange(0, next.len() - 1) =~= all.subrange(0, i as int));
        assert(next[next.len() - 1] == blocks@[i as int].deep_view());
        match &blocks[i] {
            AnthropicContentBlock::Text { text: piece } => {
                text = add_piece(text, piece.as_str());
            },
            AnthropicContentBlock::ToolResult { tool_use_id, content, is_error: _ } => {
                flush(messages, text);
                text = None;
                let content: String = match content {
                    Some(content) => content.text(),
                    None => "".to_owned(),
                };
                push_item(
                    messages,
                    ChatCompletionRequestMessage::Tool {
                        content,
                        tool_call_id: tool_use_id.clone(),
                    },
                );
            },
            AnthropicContentBlock::Image { source: _ } => {
                text = add_piece(text, "[image]");
            },
            _ => {},
        }
        i += 1;
    }
    assert(all.subrange(0, all.len() as int) =~= all);
    flush(messages, text);
}

/// Whether some text is not empty.
fn any_text(list: &Vec<String>) -> (r: bool)
    ensures
        r == exists|i: int|
            0 <= i < list.deep_view().len() && (#[trigger] list.deep_view()[i]).len() > 0,
{
    let ghost all = list.deep_view();
    let mut i: usize = 0;
    while i < list.len()
        invariant
            all == list.deep_view(),
            all.len() == list@.len(),
            i <= all.len(),
            forall|k: int| 0 <= k < i ==> (#[trigger] all[k]).len() == 0,
        decreases all.len() - i,
    {
        assert(all[i as int] == list@[i as int]@);
        if !list[i].as_str().is_empty() {
            assert(list.deep_view()[i as int].len() > 0);
            return true;
        }
        i += 1;
    }
    false
}

/// The message of an assistant's blocks. The reasoning stays apart by the tool calls
/// that it comes before, so that a chat template can put all back in its order.
fn convert_assistant_blocks(blocks: &Vec<AnthropicContentBlock>) -> (r:
    ChatCompletionRequestAssistantMessage)
    ensures
        r.deep_view() == assistant_message(blocks.deep_view()),
{
    let ghost all = blocks.deep_view();
    let mut text: String = "".to_owned();
    let mut calls: Vec<ChatCompletionMessageToolCall> = no_items();
    let mut segments: Vec<String> = no_items();
    let mut pending: String = "".to_owned();
    let mut i: usize = 0;
    while i < blocks.len()
        invariant
            all == blocks.deep_view(),
            all.len() == blocks@.len(),
            i <= all.len(),
            (AssistantScan {
                text: text@,
                calls: calls.deep_view(),
                segments: segments.deep_view(),
                pending: pending@,
            }) == assistant_scan(all.subrange(0, i as int)),
        decreases all.len() - i,
    {
        let ghost next = all.subrange(0, i + 1);
        assert(next.subrange(0, next.len() - 1) =~= all.subrange(0, i as int));
        assert(next[next.len() - 1] == blocks@[i as int].deep_view());
        match &blocks[i] {
            AnthropicContentBlock::Text { text: piece } => {
                text = join(text.as_str(), piece.as_str());
            },
            AnthropicContentBlock::Thinking { thinking, signature: _ } => {
                if pending.as_str().is_empty() {
                    pending = thinking.clone();
                } else {
                    pending = join(join(pending.as_str(), "\n").as_str(), thinking.as_str());
                }
            },
            AnthropicContentBlock::ToolUse { id, name, input } => {
                push_item(&mut segments, pending);
                pending = "".to_owned();
                push_item(
                    &mut calls,
                    ChatCompletionMessageToolCall {
                        id: id.clone(),
                        tool_type: FunctionType::Function,
                        function: FunctionCall { name: name.clone(), arguments: input.to_text() },
                    },
                );
            },
            _ => {},
        }
        i += 1;
    }
    assert(all.subrange(0, all.len() as int) =~= all);
    push_item(&mut segments, pending);
    let reasoning_content: Option<ReasoningContent> = if calls.len() > 0 && any_text(&segments) {
        Some(ReasoningContent::Segments(segments))
    } else {
        let flat: String = join_lines(&segments);
        if flat.as_str().is_empty() {
            None
        } else {
            Some(ReasoningContent::Text(flat))
        }
    };
    ChatCompletionRequestAssistantMessage {
        content: if text.as_str().is_empty() {
            None
        } else {
            Some(text)
        },
        reasoning_content,
        tool_calls: if calls.len() == 0 {
            None
        } else {
            Some(calls)
        },
    }
}

/// Tools as chat completions have them.
pub fn convert_anthropic_tools(tools: &Vec<AnthropicTool>) -> (r: Vec<ChatCompletionTool>)
    ensures
        r.deep_view() == chat_tools(tools.deep_view()),
{
    let mut out: Vec<ChatCompletionTool> = Vec::new();
    let mut i: usize = 0;
    while i < tools.len()
        invariant
            i <= tools@.len(),
            out@.len() == i,
            forall|k: int|
                0 <= k < i ==> (#[trigger] out@[k]).deep_view() == chat_tool(tools@[k].deep_view()),
        decreases tools@.len() - i,
    {
        out.push(
            ChatCompletionTool {
                tool_type: FunctionType::Function,
                function: FunctionObject {
                    name: tools[i].name.clone(),
                    description: tools[i].description.duplicate(),
                    parameters: Some(tools[i].input_schema.duplicate()),
                    strict: None,
                },
            },
        );
        i += 1;
    }
    assert(out.deep_view() =~= chat_tools(tools.deep_view()));
    out
}

/// A tool choice as chat completions have it.
pub fn convert_anthropic_tool_choice(choice: &AnthropicToolChoice) -> (r:
    ChatCompletionToolChoiceOption)
    ensures
        r.deep_view() == chat_tool_choice(choice.deep_view()),
{
    match choice {
        AnthropicToolChoice::Simple(simple) => match simple.choice_type {
            AnthropicToolChoiceMode::Auto => ChatCompletionToolChoiceOption::Auto,
            AnthropicToolChoiceMode::Any => ChatCompletionToolChoiceOption::Required,
            AnthropicToolChoiceMode::NoTool => ChatCompletionToolChoiceOption::NoTool,
            AnthropicToolChoiceMode::Tool => ChatCompletionToolChoiceOption::Required,
        },
        AnthropicToolChoice::Named(named) => ChatCompletionToolChoiceOption::Named(
            named.name.clone(),
        ),
    }
}

/// The chat messages of a conversation.
fn convert_messages(req: &AnthropicCreateMessageRequest) -> (r: Vec<ChatCompletionRequestMessage>)
    ensures
        r.deep_view() == chat_messages(req.deep_view().system, req.deep_view().messages),
{
    let ghost all = req.messages.deep_view();
    let ghost system = req.system.deep_view();
    let mut messages: Vec<ChatCompletionRequestMessage> = match &req.system {
        Some(system) => one_item(ChatCompletionRequestMessage::System { content: system.clone() }),
        None => no_items(),
    };
    let mut i: usize = 0;
    while i < req.messages.len()
        invariant
            all == req.messages.deep_view(),
            all.len() == req.messages@.len(),
            i <= all.len(),
            messages.deep_view() == chat_messages(system, all.subrange(0, i as int)),
        decreases all.len() - i,
    {
        let ghost next = all.subrange(0, i + 1);
        assert(next.subrange(0, next.len() - 1) =~= all.subrange(0, i as int));
        assert(next[next.len() - 1] == req.messages@[i as int].deep_view());
        match (&req.messages[i].role, &req.messages[i].content) {
            (AnthropicRole::User, AnthropicMessageContent::Text { content }) => {
                push_item(
                    &mut messages,
                    ChatCompletionRequestMessage::User { content: content.clone() },
                );
            },
            (AnthropicRole::User, AnthropicMessageContent::Blocks { content }) => {
                convert_user_blocks(content, &mut messages);
            },
            (AnthropicRole::Assistant, AnthropicMessageContent::Text { content }) => {
                push_item(
                    &mut messages,
                    ChatCompletionRequestMessage::Assistant(
                        ChatCompletionRequestAssistantMessage {
                            content: Some(content.clone()),
                            reasoning_content: None,
                            tool_calls: None,
                        },
                    ),
                );
            },
            (AnthropicRole::Assistant, AnthropicMessageContent::Blocks { content }) => {
                push_item(
                    &mut messages,
                    ChatCompletionRequestMessage::Assistant(convert_assistant_blocks(content)),
                );
            },
        }
        i += 1;
    }
    assert(all.subrange(0, all.len() as int) =~= all);
    messages
}

impl NvCreateChatCompletionRequest {
    /// The chat-completion request of a message request. There is one for every message
    /// request.
    pub fn try_from(req: AnthropicCreateMessageRequest) -> (r: Result<
        NvCreateChatCompletionRequest,
        String,
    >)
        ensures
            r is Ok,
            r->Ok_0.deep_view() == chat_request(req.deep_view()),
    {
        let messages: Vec<ChatCompletionRequestMessage> = convert_messages(&req);
        let tools: Option<Vec<ChatCompletionTool>> = match &req.tools {
            Some(tools) => Some(convert_anthropic_tools(tools)),
            None => None,
        };
        let tool_choice: Option<ChatCompletionToolChoiceOption> = match &req.tool_choice {
            Some(choice) => Some(convert_anthropic_tool_choice(choice)),
            None => None,
        };
        let stop: Option<Stop> = match req.stop_sequences {
            Some(texts) => Some(Stop::TextArray(texts)),
            None => None,
        };
        let top_k: Option<i32> = match req.top_k {
            Some(k) => Some(k as i32),
            None => None,
        };
        Ok(
            NvCreateChatCompletionRequest {
                inner: CreateChatCompletionRequest {
                    model: req.model,
                    messages,
                    temperature: req.temperature,
                    top_p: req.top_p,
                    frequency_penalty: None,
                    presence_penalty: None,
                    max_tokens: None,
                    max_completion_tokens: Some(req.max_tokens),
                    n: None,
                    seed: None,
                    stop,
                    tools,
                    tool_choice,
                    stream: Some(true),
                    stream_options: Some(
                        ChatCompletionStreamOptions {
                            include_usage: true,
                            continuous_usage_stats: false,
                        },
                    ),
                    logprobs: None,
                    top_logprobs: None,
                    response_format: None,
                    reasoning_effort: None,
                },
                common: CommonExt {
                    ignore_eos: None,
                    min_tokens: None,
                    top_k,
                    min_p: None,
                    repetition_penalty: None,
                    include_stop_str_in_output: None,
                    skip_special_tokens: None,
                    prompt_logprobs: None,
                    guided_json: None,
                    guided_regex: None,
                    guided_grammar: None,
                    guided_choice: None,
                    guided_decoding_backend: None,
                    guided_whitespace_pattern: None,
                    structured_outputs: None,
                },
                nvext: None,
                chat_template_args: None,
                thinking: None,
                return_tokens_as_token_ids: None,
                unsupported_fields: JsonMap::new(),
            },
        )
    }
}

} // verus!
