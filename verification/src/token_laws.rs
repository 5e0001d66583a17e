//! What holds of the estimate of the tokens of a request.

use crate::anthropic_response::{
    block_len, blocks_len, bytes_of, message_len, messages_len, request_len, result_blocks_len,
    tokens_of_len, tools_len,
};
use crate::anthropic_types::{
    AnthropicContentBlockView, AnthropicCountTokensRequestView, AnthropicMessageContentView,
    AnthropicMessageView, AnthropicRole, AnthropicToolView, ToolResultContentBlockView,
    ToolResultContentView,
};
use crate::json_text::json_text;
use vstd::prelude::*;

verus! {

/// There is one token for each three bytes, rounded down, but at least one where there is
/// a byte; so more bytes never make fewer tokens.
pub proof fn law_three_bytes_make_a_token(len: int, more: int)
    requires
        0 <= len <= more,
        more / 3 <= u32::MAX,
    ensures
        len >= 3 ==> 3 * tokens_of_len(len) <= len < 3 * tokens_of_len(len) + 3,
        0 < len < 3 ==> tokens_of_len(len) == 1,
        len == 0 ==> tokens_of_len(len) == 0,
        tokens_of_len(len) <= tokens_of_len(more),
{
}

/// The first messages count the same with more behind them.
proof fn lemma_messages_front(a: Seq<AnthropicMessageView>, b: Seq<AnthropicMessageView>, n: nat)
    requires
        n <= a.len(),
    ensures
        messages_len(a + b, n) == messages_len(a, n),
    decreases n,
{
    if n > 0 {
        lemma_messages_front(a, b, (n - 1) as nat);
        assert((a + b)[n - 1] == a[n - 1]);
    }
}

/// Messages add up.
proof fn lemma_messages_add(a: Seq<AnthropicMessageView>, b: Seq<AnthropicMessageView>, n: nat)
    requires
        n <= b.len(),
    ensures
        messages_len(a + b, a.len() + n) == messages_len(a, a.len()) + messages_len(b, n),
    decreases n,
{
    if n == 0 {
        lemma_messages_front(a, b, a.len());
    } else {
        lemma_messages_add(a, b, (n - 1) as nat);
        assert((a + b)[a.len() + n - 1] == b[n - 1]);
    }
}

/// The first blocks count the same with more behind them.
proof fn lemma_blocks_front(
    a: Seq<AnthropicContentBlockView>,
    b: Seq<AnthropicContentBlockView>,
    n: nat,
)
    requires
        n <= a.len(),
    ensures
        blocks_len(a + b, n) == blocks_len(a, n),
    decreases n,
{
    if n > 0 {
        lemma_blocks_front(a, b, (n - 1) as nat);
        assert((a + b)[n - 1] == a[n - 1]);
    }
}

/// Blocks add up.
proof fn lemma_blocks_add(
    a: Seq<AnthropicContentBlockView>,
    b: Seq<AnthropicContentBlockView>,
    n: nat,
)
    requires
        n <= b.len(),
    ensures
        blocks_len(a + b, a.len() + n) == blocks_len(a, a.len()) + blocks_len(b, n),
    decreases n,
{
    if n == 0 {
        lemma_blocks_front(a, b, a.len());
    } else {
        lemma_blocks_add(a, b, (n - 1) as nat);
        assert((a + b)[a.len() + n - 1] == b[n - 1]);
    }
}

/// Every message of a request counts, each for itself: a message more makes the request
/// longer by its own length, wherever it stands.
pub proof fn law_messages_count_each(
    r: AnthropicCountTokensRequestView,
    front: Seq<AnthropicMessageView>,
    message: AnthropicMessageView,
    back: Seq<AnthropicMessageView>,
)
    requires
        r.messages == front + seq![message] + back,
    ensures
        request_len(r) == request_len(
            AnthropicCountTokensRequestView { messages: front + back, ..r },
        ) + message_len(message),
{
    let one = seq![message];
    lemma_messages_add(front + one, back, back.len());
    lemma_messages_add(front, one, 1);
    lemma_messages_add(front, back, back.len());
    assert(messages_len(one, 1) == messages_len(one, 0) + message_len(one[0]));
    assert((front + one + back).len() == (front + one).len() + back.len());
    assert((front + back).len() == front.len() + back.len());
}

/// Every block of a message counts, each for itself; and so does its text, byte by byte,
/// and an image as a fixed number of bytes. The role counts by its name.
pub proof fn law_blocks_count_each(
    message: AnthropicMessageView,
    front: Seq<AnthropicContentBlockView>,
    block: AnthropicContentBlockView,
    back: Seq<AnthropicContentBlockView>,
)
    requires
        message.content == (AnthropicMessageContentView::Blocks {
            content: front + seq![block] + back,
        }),
    ensures
        message_len(message) == message_len(
            AnthropicMessageView {
                content: AnthropicMessageContentView::Blocks { content: front + back },
                ..message
            },
        ) + block_len(block),
        message_len(
            AnthropicMessageView {
                content: AnthropicMessageContentView::Blocks { content: Seq::empty() },
                ..message
            },
        ) == (match message.role {
            AnthropicRole::User => "user"@.len(),
            AnthropicRole::Assistant => "assistant"@.len(),
        }),
        block matches AnthropicContentBlockView::Text { text } ==> block_len(block) == bytes_of(
            text,
        ) && message_len(
            AnthropicMessageView {
                content: AnthropicMessageContentView::Text { content: text },
                ..message
            },
        ) == message_len(
            AnthropicMessageView {
                content: AnthropicMessageContentView::Blocks { content: Seq::empty() },
                ..message
            },
        ) + block_len(block),
        block matches AnthropicContentBlockView::ToolUse { name, input, .. } ==> block_len(block)
            == bytes_of(name) + bytes_of(json_text(input)),
        block matches AnthropicContentBlockView::Thinking { thinking, .. } ==> block_len(block)
            == bytes_of(thinking),
        block is Image ==> block_len(block) == 256,
        block matches AnthropicContentBlockView::ToolResult {
            content: Some(ToolResultContentView::Text(text)),
            ..
        } ==> block_len(block) == bytes_of(text),
{
    let one = seq![block];
    reveal_strlit("user");
    reveal_strlit("assistant");
    lemma_blocks_add(front + one, back, back.len());
    lemma_blocks_add(front, one, 1);
    lemma_blocks_add(front, back, back.len());
    assert(blocks_len(one, 1) == blocks_len(one, 0) + block_len(one[0]));
    assert((front + one + back).len() == (front + one).len() + back.len());
    assert((front + back).len() == front.len() + back.len());
}

/// The first results count the same with one more behind them.
proof fn lemma_results_front(
    blocks: Seq<ToolResultContentBlockView>,
    last: ToolResultContentBlockView,
    n: nat,
)
    requires
        n <= blocks.len(),
    ensures
        result_blocks_len(blocks.push(last), n) == result_blocks_len(blocks, n),
    decreases n,
{
    if n > 0 {
        lemma_results_front(blocks, last, (n - 1) as nat);
        assert(blocks.push(last)[n - 1] == blocks[n - 1]);
    }
}

/// The first tools count the same with one more behind them.
proof fn lemma_tools_front(tools: Seq<AnthropicToolView>, last: AnthropicToolView, n: nat)
    requires
        n <= tools.len(),
    ensures
        tools_len(tools.push(last), n) == tools_len(tools, n),
    decreases n,
{
    if n > 0 {
        lemma_tools_front(tools, last, (n - 1) as nat);
        assert(tools.push(last)[n - 1] == tools[n - 1]);
    }
}

/// The system prompt counts byte by byte; a tool more counts by its name, its description
/// and its schema; and a block more of a tool result by its text, or by its JSON.
pub proof fn law_tools_and_results_count(
    r: AnthropicCountTokensRequestView,
    tools: Seq<AnthropicToolView>,
    tool: AnthropicToolView,
    system: Seq<char>,
    blocks: Seq<ToolResultContentBlockView>,
    block: ToolResultContentBlockView,
)
    ensures
        request_len(AnthropicCountTokensRequestView { tools: Some(tools.push(tool)), ..r })
            == request_len(AnthropicCountTokensRequestView { tools: Some(tools), ..r }) + bytes_of(
            tool.name,
        ) + bytes_of(json_text(tool.input_schema)) + (match tool.description {
            Some(description) => bytes_of(description),
            None => 0,
        }),
        request_len(AnthropicCountTokensRequestView { tools: Some(Seq::empty()), ..r })
            == request_len(AnthropicCountTokensRequestView { tools: None, ..r }),
        request_len(AnthropicCountTokensRequestView { system: Some(system), ..r }) == request_len(
            AnthropicCountTokensRequestView { system: None, ..r },
        ) + bytes_of(system),
        result_blocks_len(blocks.push(block), blocks.len() + 1) == result_blocks_len(
            blocks,
            blocks.len(),
        ) + (match block {
            ToolResultContentBlockView::Text { text } => bytes_of(text),
            ToolResultContentBlockView::Other(value) => bytes_of(json_text(value)),
        }),
{
    lemma_tools_front(tools, tool, tools.len());
    lemma_results_front(blocks, block, blocks.len());
    assert(tools.push(tool)[tools.len() as int] == tool);
    assert(blocks.push(block)[blocks.len() as int] == block);
}

} // verus!
