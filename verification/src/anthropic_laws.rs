//! What holds of every conversation that is converted.

use crate::aggregator::joined;
use crate::anthropic::{
    assistant_message, assistant_scan, chat_messages, chat_request, flat_lines, flushed,
    result_text, result_texts, user_scan, user_step, with_message, UserScan,
};
use crate::anthropic_response::message_response;
use crate::anthropic_types::{
    AnthropicContentBlockView, AnthropicCreateMessageRequestView, AnthropicMessageContentView,
    AnthropicMessageView, AnthropicResponseContentBlockView, AnthropicRole, AnthropicStopReason,
    AnthropicToolChoiceView, ToolResultContentBlockView, ToolResultContentView,
};
use crate::chat_types::{
    ChatCompletionMessageContentView, ChatCompletionMessageToolCallView,
    ChatCompletionResponseMessageView, FunctionType, NvCreateChatCompletionResponseView,
};
use crate::json::JsonView;
use crate::json_text::{json_text, parsed_json};
use crate::request_types::{
    ChatCompletionRequestMessageView, ChatCompletionToolChoiceOptionView, ReasoningContentView,
    StopView,
};
use vstd::prelude::*;

verus! {

/// Something that a user tells: a character, by its code, or the result of a tool.
#[verifier::ext_equal]
pub enum Told {
    Letter(int),
    Outcome { id: Seq<char>, text: Seq<char> },
}

/// A text, character by character.
pub open spec fn letters(text: Seq<char>) -> Seq<Told>
    decreases text.len(),
{
    if text.len() == 0 {
        Seq::empty()
    } else {
        letters(text.drop_last()).push(Told::Letter(text.last() as int))
    }
}

/// The text in the blocks of a tool result.
pub open spec fn result_letters(blocks: Seq<ToolResultContentBlockView>) -> Seq<char>
    decreases blocks.len(),
{
    if blocks.len() == 0 {
        Seq::empty()
    } else {
        result_letters(blocks.drop_last()) + match blocks.last() {
            ToolResultContentBlockView::Text { text } => text,
            ToolResultContentBlockView::Other(_) => Seq::empty(),
        }
    }
}

/// The text of a tool result, empty where there is none.
pub open spec fn outcome_text(content: Option<ToolResultContentView>) -> Seq<char> {
    match content {
        Some(ToolResultContentView::Text(text)) => text,
        Some(ToolResultContentView::Blocks(blocks)) => result_letters(blocks),
        None => Seq::empty(),
    }
}

/// What a block of a user tells. An image has a stand-in.
pub open spec fn told_by_block(block: AnthropicContentBlockView) -> Seq<Told> {
    match block {
        AnthropicContentBlockView::Text { text } => letters(text),
        AnthropicContentBlockView::Image { source } => letters("[image]"@),
        AnthropicContentBlockView::ToolResult { tool_use_id, content, is_error } => seq![
            Told::Outcome { id: tool_use_id, text: outcome_text(content) },
        ],
        _ => Seq::empty(),
    }
}

/// What the blocks of a user tell, in their order.
pub open spec fn told_by_blocks(blocks: Seq<AnthropicContentBlockView>) -> Seq<Told>
    decreases blocks.len(),
{
    if blocks.len() == 0 {
        Seq::empty()
    } else {
        told_by_blocks(blocks.drop_last()) + told_by_block(blocks.last())
    }
}

/// What chat messages tell of a user.
pub open spec fn told_by_messages(messages: Seq<ChatCompletionRequestMessageView>) -> Seq<Told>
    decreases messages.len(),
{
    if messages.len() == 0 {
        Seq::empty()
    } else {
        told_by_messages(messages.drop_last()) + match messages.last() {
            ChatCompletionRequestMessageView::User { content } => letters(content),
            ChatCompletionRequestMessageView::Tool { content, tool_call_id } => seq![
                Told::Outcome { id: tool_call_id, text: content },
            ],
            _ => Seq::empty(),
        }
    }
}

/// A block of which something is read as text.
pub open spec fn is_text_block(block: AnthropicContentBlockView) -> bool {
    block is Text || block is Image
}

/// The text of blocks, put together; an image has a stand-in.
pub open spec fn text_in_blocks(blocks: Seq<AnthropicContentBlockView>) -> Seq<char>
    decreases blocks.len(),
{
    if blocks.len() == 0 {
        Seq::empty()
    } else {
        text_in_blocks(blocks.drop_last()) + match blocks.last() {
            AnthropicContentBlockView::Text { text } => text,
            AnthropicContentBlockView::Image { source } => "[image]"@,
            _ => Seq::empty(),
        }
    }
}

/// A message of that role with those blocks.
pub open spec fn of_blocks(
    role: AnthropicRole,
    content: Seq<AnthropicContentBlockView>,
) -> AnthropicMessageView {
    AnthropicMessageView { role, content: AnthropicMessageContentView::Blocks { content } }
}

proof fn lemma_empty_text()
    ensures
        ""@ == Seq::<char>::empty(),
{
    reveal_strlit("");
    assert(""@ =~= Seq::<char>::empty());
}

proof fn lemma_result_letters(blocks: Seq<ToolResultContentBlockView>)
    ensures
        result_texts(blocks) == result_letters(blocks),
    decreases blocks.len(),
{
    lemma_empty_text();
    if blocks.len() > 0 {
        lemma_result_letters(blocks.drop_last());
        assert(blocks.subrange(0, blocks.len() - 1) =~= blocks.drop_last());
        assert(result_texts(blocks) =~= result_letters(blocks));
    }
}

/// The text of a tool result is that of all its text blocks, put together.
pub proof fn law_results_keep_their_text(content: ToolResultContentView)
    ensures
        result_text(content) == outcome_text(Some(content)),
{
    match content {
        ToolResultContentView::Blocks(blocks) => {
            lemma_result_letters(blocks);
        },
        _ => {},
    }
}

proof fn lemma_told_push(
    messages: Seq<ChatCompletionRequestMessageView>,
    message: ChatCompletionRequestMessageView,
)
    ensures
        told_by_messages(messages.push(message)) == told_by_messages(messages) + (match message {
            ChatCompletionRequestMessageView::User { content } => letters(content),
            ChatCompletionRequestMessageView::Tool { content, tool_call_id } => seq![
                Told::Outcome { id: tool_call_id, text: content },
            ],
            _ => Seq::empty(),
        }),
{
    assert(messages.push(message).drop_last() =~= messages);
}

/// The text that is to become a message.
spec fn open_text(scan: UserScan) -> Seq<char> {
    match scan.text {
        Some(text) => text,
        None => Seq::empty(),
    }
}

proof fn lemma_no_letters()
    ensures
        letters(Seq::empty()) == Seq::<Told>::empty(),
        letters(""@) == Seq::<Told>::empty(),
{
    lemma_empty_text();
}

proof fn lemma_letters_added(a: Seq<char>, b: Seq<char>)
    ensures
        letters(a + b) == letters(a) + letters(b),
    decreases b.len(),
{
    let all = a + b;
    if b.len() == 0 {
        assert(all =~= a);
        assert(letters(all) =~= letters(a) + letters(b));
    } else {
        lemma_letters_added(a, b.drop_last());
        assert(all.drop_last() =~= a + b.drop_last());
        assert(letters(all) =~= letters(a) + letters(b));
    }
}

proof fn lemma_user_told(blocks: Seq<AnthropicContentBlockView>)
    ensures
        told_by_messages(user_scan(Seq::empty(), blocks).done) + letters(
            open_text(user_scan(Seq::empty(), blocks)),
        ) == told_by_blocks(blocks),
    decreases blocks.len(),
{
    let empty = Seq::<ChatCompletionRequestMessageView>::empty();
    let scan = user_scan(empty, blocks);
    lemma_no_letters();
    if blocks.len() == 0 {
        assert(told_by_messages(scan.done) + letters(open_text(scan)) =~= told_by_blocks(blocks));
    } else {
        let front = blocks.drop_last();
        let block = blocks.last();
        let before = user_scan(empty, front);
        let told = told_by_messages(before.done);
        assert(blocks.subrange(0, blocks.len() - 1) =~= front);
        lemma_user_told(front);
        assert(scan == user_step(before, block));
        match block {
            AnthropicContentBlockView::Text { text } => {
                assert(open_text(scan) =~= open_text(before) + text);
                lemma_letters_added(open_text(before), text);
                assert(told + letters(open_text(scan)) =~= told + letters(open_text(before))
                    + letters(text));
            },
            AnthropicContentBlockView::Image { source } => {
                assert(open_text(scan) =~= open_text(before) + "[image]"@);
                lemma_letters_added(open_text(before), "[image]"@);
                assert(told + letters(open_text(scan)) =~= told + letters(open_text(before))
                    + letters("[image]"@));
            },
            AnthropicContentBlockView::ToolResult { tool_use_id, content, is_error } => {
                let flat = flushed(before);
                if let Some(text) = before.text {
                    lemma_told_push(
                        before.done,
                        ChatCompletionRequestMessageView::User { content: text },
                    );
                } else {
                    assert(told + letters(open_text(before)) =~= told);
                }
                assert(told_by_messages(flat) == told_by_blocks(front));
                lemma_empty_text();
                if let Some(content) = content {
                    law_results_keep_their_text(content);
                }
                lemma_told_push(
                    flat,
                    ChatCompletionRequestMessageView::Tool {
                        content: outcome_text(content),
                        tool_call_id: tool_use_id,
                    },
                );
                assert(told_by_messages(scan.done) + letters(open_text(scan)) =~= told_by_blocks(
                    blocks,
                ));
            },
            _ => {
                assert(told_by_blocks(blocks) =~= told_by_blocks(front));
            },
        }
    }
}

/// After a text that became a message comes a result.
spec fn results_part_texts(messages: Seq<ChatCompletionRequestMessageView>) -> bool {
    &&& forall|i: int|
        0 <= i < messages.len() ==> (#[trigger] messages[i] is User || messages[i] is Tool)
    &&& forall|i: int, j: int|
        0 <= i < messages.len() && j == i + 1 && j < messages.len() && #[trigger] messages[i]
            is User ==> #[trigger] messages[j] is Tool
    &&& messages.len() > 0 ==> messages[messages.len() - 1] is Tool
}

proof fn lemma_user_shape(blocks: Seq<AnthropicContentBlockView>)
    ensures
        results_part_texts(user_scan(Seq::empty(), blocks).done),
    decreases blocks.len(),
{
    if blocks.len() > 0 {
        lemma_user_shape(blocks.subrange(0, blocks.len() - 1));
    }
}

proof fn lemma_user_text(blocks: Seq<AnthropicContentBlockView>)
    requires
        forall|i: int| 0 <= i < blocks.len() ==> !(#[trigger] blocks[i] is ToolResult),
    ensures
        user_scan(Seq::empty(), blocks).done.len() == 0,
        open_text(user_scan(Seq::empty(), blocks)) == text_in_blocks(blocks),
        user_scan(Seq::empty(), blocks).text is Some <==> (exists|i: int|
            0 <= i < blocks.len() && is_text_block(#[trigger] blocks[i])),
    decreases blocks.len(),
{
    let empty = Seq::<ChatCompletionRequestMessageView>::empty();
    lemma_empty_text();
    if blocks.len() > 0 {
        let front = blocks.drop_last();
        let n = blocks.len() - 1;
        assert(blocks.subrange(0, n) =~= front);
        assert forall|i: int| 0 <= i < front.len() implies !(#[trigger] front[i] is ToolResult) by {
            assert(front[i] == blocks[i]);
        }
        lemma_user_text(front);
        assert(!(blocks[n] is ToolResult));
        assert(open_text(user_scan(empty, blocks)) =~= text_in_blocks(blocks));
        if exists|i: int| 0 <= i < front.len() && is_text_block(#[trigger] front[i]) {
            let i = choose|i: int| 0 <= i < front.len() && is_text_block(#[trigger] front[i]);
            assert(is_text_block(blocks[i]));
        }
        if exists|i: int| 0 <= i < blocks.len() && is_text_block(#[trigger] blocks[i]) {
            let i = choose|i: int| 0 <= i < blocks.len() && is_text_block(#[trigger] blocks[i]);
            if i < n {
                assert(is_text_block(front[i]));
            }
        }
        if is_text_block(blocks[n]) {
            assert(user_scan(empty, blocks).text is Some);
        }
    }
}

/// Nothing that a user tells is lost or changes its place: the messages that are added
/// for the blocks of a user tell what the blocks tell, texts and results of tools in
/// their order. Only a result stands between two texts, and blocks with text but without
/// results make one message, whose content is all their text.
pub proof fn law_no_text_of_a_user_is_lost(blocks: Seq<AnthropicContentBlockView>)
    ensures
        ({
            let added = with_message(Seq::empty(), of_blocks(AnthropicRole::User, blocks));
            &&& told_by_messages(added) == told_by_blocks(blocks)
            &&& forall|i: int|
                0 <= i < added.len() ==> (#[trigger] added[i] is User || added[i] is Tool)
            &&& forall|i: int, j: int|
                0 <= i < added.len() && j == i + 1 && j < added.len() && #[trigger] added[i]
                    is User ==> #[trigger] added[j] is Tool
            &&& (forall|i: int| 0 <= i < blocks.len() ==> !(#[trigger] blocks[i] is ToolResult))
                ==> added == (if exists|i: int|
                0 <= i < blocks.len() && is_text_block(#[trigger] blocks[i]) {
                seq![ChatCompletionRequestMessageView::User { content: text_in_blocks(blocks) }]
            } else {
                Seq::empty()
            })
        }),
{
    let added = with_message(Seq::empty(), of_blocks(AnthropicRole::User, blocks));
    let scan = user_scan(Seq::empty(), blocks);
    lemma_user_told(blocks);
    lemma_user_shape(blocks);
    lemma_no_letters();
    if let Some(text) = scan.text {
        lemma_told_push(scan.done, ChatCompletionRequestMessageView::User { content: text });
    } else {
        assert(told_by_messages(scan.done) + letters(open_text(scan)) =~= told_by_messages(
            scan.done,
        ));
    }
    if forall|i: int| 0 <= i < blocks.len() ==> !(#[trigger] blocks[i] is ToolResult) {
        lemma_user_text(blocks);
        assert(added =~= (if exists|i: int|
            0 <= i < blocks.len() && is_text_block(#[trigger] blocks[i]) {
            seq![ChatCompletionRequestMessageView::User { content: text_in_blocks(blocks) }]
        } else {
            Seq::empty()
        }));
    }
}

proof fn lemma_user_scan_apart(
    before: Seq<ChatCompletionRequestMessageView>,
    blocks: Seq<AnthropicContentBlockView>,
)
    ensures
        user_scan(before, blocks).done == before + user_scan(Seq::empty(), blocks).done,
        user_scan(before, blocks).text == user_scan(Seq::empty(), blocks).text,
    decreases blocks.len(),
{
    let empty = Seq::<ChatCompletionRequestMessageView>::empty();
    if blocks.len() > 0 {
        lemma_user_scan_apart(before, blocks.subrange(0, blocks.len() - 1));
    }
    assert(user_scan(before, blocks).done =~= before + user_scan(empty, blocks).done);
}

/// What a message is converted to does not depend on the messages before it; those stay
/// as they are.
pub proof fn law_messages_are_converted_one_by_one(
    before: Seq<ChatCompletionRequestMessageView>,
    message: AnthropicMessageView,
)
    ensures
        with_message(before, message) == before + with_message(Seq::empty(), message),
{
    if let AnthropicMessageContentView::Blocks { content } = message.content {
        lemma_user_scan_apart(before, content);
    }
    assert(with_message(before, message) =~= before + with_message(Seq::empty(), message));
}

/// A conversation is converted message by message, in its order, after the system prompt.
pub proof fn law_conversations_keep_their_order(
    system: Option<Seq<char>>,
    messages: Seq<AnthropicMessageView>,
    n: int,
)
    requires
        0 <= n <= messages.len(),
    ensures
        chat_messages(system, messages) == chat_messages(system, messages.take(n))
            + chat_messages(None, messages.skip(n)),
        chat_messages(system, Seq::empty()) == (match system {
            Some(content) => seq![ChatCompletionRequestMessageView::System { content }],
            None => Seq::empty(),
        }),
        messages.len() == 1 ==> chat_messages(None, messages) == with_message(
            Seq::empty(),
            messages[0],
        ),
    decreases messages.len(),
{
    let front = messages.take(n);
    let rest = messages.skip(n);
    if n < messages.len() {
        let last = messages.len() - 1;
        let shorter = messages.subrange(0, last);
        law_conversations_keep_their_order(system, shorter, n);
        assert(shorter.take(n) =~= front);
        assert(shorter.skip(n) =~= rest.subrange(0, rest.len() - 1));
        law_messages_are_converted_one_by_one(chat_messages(system, shorter), messages[last]);
        law_messages_are_converted_one_by_one(
            chat_messages(None, shorter.skip(n)),
            messages[last],
        );
        assert(rest[rest.len() - 1] == messages[last]);
        assert(chat_messages(system, messages) =~= chat_messages(system, front) + chat_messages(
            None,
            rest,
        ));
        if messages.len() == 1 {
            assert(shorter =~= Seq::empty());
        }
    } else {
        assert(front =~= messages);
        assert(rest =~= Seq::empty());
        assert(chat_messages(system, messages) =~= chat_messages(system, front) + chat_messages(
            None,
            rest,
        ));
        if messages.len() == 1 {
            assert(messages.subrange(0, 0) =~= Seq::empty());
        }
    }
}

/// A message that is one text becomes one message of its role with that text.
pub proof fn law_plain_messages_keep_their_text(content: Seq<char>)
    ensures
        ({
            let plain = AnthropicMessageContentView::Text { content };
            let user = with_message(
                Seq::empty(),
                AnthropicMessageView { role: AnthropicRole::User, content: plain },
            );
            let assistant = with_message(
                Seq::empty(),
                AnthropicMessageView { role: AnthropicRole::Assistant, content: plain },
            );
            &&& user.len() == 1 && user[0] == ChatCompletionRequestMessageView::User { content }
            &&& assistant.len() == 1 && (assistant[0] matches ChatCompletionRequestMessageView::Assistant(
                said,
            ) && said.content == Some(content) && said.tool_calls is None
                && said.reasoning_content is None)
        }),
{
}

/// The text that an assistant's blocks hold, put together.
pub open spec fn said_in(blocks: Seq<AnthropicContentBlockView>) -> Seq<char>
    decreases blocks.len(),
{
    if blocks.len() == 0 {
        Seq::empty()
    } else {
        said_in(blocks.drop_last()) + match blocks.last() {
            AnthropicContentBlockView::Text { text } => text,
            _ => Seq::empty(),
        }
    }
}

/// The blocks that call tools.
pub open spec fn calls_in(blocks: Seq<AnthropicContentBlockView>) -> Seq<AnthropicContentBlockView>
    decreases blocks.len(),
{
    if blocks.len() == 0 {
        Seq::empty()
    } else if blocks.last() is ToolUse {
        calls_in(blocks.drop_last()).push(blocks.last())
    } else {
        calls_in(blocks.drop_last())
    }
}

/// The thoughts that came after call `k` and before the next.
pub open spec fn thoughts_in(blocks: Seq<AnthropicContentBlockView>, k: int) -> Seq<Seq<char>>
    decreases blocks.len(),
{
    if blocks.len() == 0 {
        Seq::empty()
    } else {
        let front = thoughts_in(blocks.drop_last(), k);
        match blocks.last() {
            AnthropicContentBlockView::Thinking { thinking, signature } => if calls_in(
                blocks,
            ).len() == k {
                front.push(thinking)
            } else {
                front
            },
            _ => front,
        }
    }
}

/// No thought is empty.
pub open spec fn thoughts_say_something(blocks: Seq<AnthropicContentBlockView>) -> bool {
    forall|i: int|
        0 <= i < blocks.len() ==> (#[trigger] blocks[i] matches AnthropicContentBlockView::Thinking {
            thinking,
            signature,
        } ==> thinking.len() > 0)
}

proof fn lemma_joined_push(items: Seq<Seq<char>>, item: Seq<char>)
    requires
        item.len() > 0,
        forall|i: int| 0 <= i < items.len() ==> (#[trigger] items[i]).len() > 0,
    ensures
        joined(items.push(item), "\n"@) == (if items.len() == 0 {
            item
        } else {
            joined(items, "\n"@) + "\n"@ + item
        }),
        joined(items.push(item), "\n"@).len() > 0,
{
    let all = items.push(item);
    assert(all.subrange(0, all.len() - 1) =~= items);
}

proof fn lemma_assistant_calls(blocks: Seq<AnthropicContentBlockView>)
    ensures
        ({
            let scan = assistant_scan(blocks);
            &&& scan.text == said_in(blocks)
            &&& scan.segments.len() == scan.calls.len()
            &&& scan.calls.len() == calls_in(blocks).len()
            &&& forall|i: int|
                0 <= i < scan.calls.len() ==> {
                    let call = #[trigger] scan.calls[i];
                    &&& calls_in(blocks)[i] is ToolUse
                    &&& call.id == calls_in(blocks)[i]->ToolUse_id
                    &&& call.function.name == calls_in(blocks)[i]->ToolUse_name
                    &&& call.function.arguments == json_text(calls_in(blocks)[i]->ToolUse_input)
                    &&& call.tool_type == FunctionType::Function
                }
        }),
    decreases blocks.len(),
{
    lemma_empty_text();
    if blocks.len() > 0 {
        let front = blocks.drop_last();
        assert(blocks.subrange(0, blocks.len() - 1) =~= front);
        lemma_assistant_calls(front);
        assert(assistant_scan(blocks).text =~= said_in(blocks));
    }
}

/// The thoughts that came after all calls that `blocks` hold.
proof fn lemma_later_thoughts(blocks: Seq<AnthropicContentBlockView>, k: int)
    requires
        calls_in(blocks).len() < k,
    ensures
        thoughts_in(blocks, k).len() == 0,
    decreases blocks.len(),
{
    if blocks.len() > 0 {
        lemma_later_thoughts(blocks.drop_last(), k);
    }
}

proof fn lemma_assistant_thoughts(blocks: Seq<AnthropicContentBlockView>, k: int)
    requires
        thoughts_say_something(blocks),
        0 <= k <= calls_in(blocks).len(),
    ensures
        ({
            let scan = assistant_scan(blocks);
            &&& scan.segments.push(scan.pending)[k] == joined(thoughts_in(blocks, k), "\n"@)
            &&& scan.segments.push(scan.pending)[k].len() == 0 <==> thoughts_in(blocks, k).len() == 0
            &&& forall|i: int|
                0 <= i < thoughts_in(blocks, k).len() ==> (#[trigger] thoughts_in(
                    blocks,
                    k,
                )[i]).len() > 0
        }),
    decreases blocks.len(),
{
    lemma_empty_text();
    lemma_assistant_calls(blocks);
    if blocks.len() > 0 {
        let front = blocks.drop_last();
        assert(blocks.subrange(0, blocks.len() - 1) =~= front);
        assert(thoughts_say_something(front)) by {
            assert forall|i: int| 0 <= i < front.len() implies (
            #[trigger] front[i] matches AnthropicContentBlockView::Thinking { thinking, signature }
                ==> thinking.len() > 0) by {
                assert(front[i] == blocks[i]);
            }
        }
        lemma_assistant_calls(front);
        if k <= calls_in(front).len() {
            lemma_assistant_thoughts(front, k);
        } else {
            lemma_later_thoughts(front, k);
        }
        let last = blocks[blocks.len() - 1];
        if let AnthropicContentBlockView::Thinking { thinking, signature } = last {
            if calls_in(blocks).len() == k {
                lemma_joined_push(thoughts_in(front, k), thinking);
                assert(assistant_scan(blocks).pending =~= joined(thoughts_in(blocks, k), "\n"@));
            }
        }
    }
}

/// The reasoning text of several segments.
proof fn lemma_one_line(segment: Seq<char>)
    ensures
        flat_lines(seq![segment]) == segment,
{
    lemma_empty_text();
    let one = seq![segment];
    assert(one.subrange(0, one.len() - 1) =~= Seq::empty());
    assert(flat_lines(one.subrange(0, one.len() - 1)) == ""@);
    assert(flat_lines(one) =~= segment);
}

/// Nothing that an assistant said, called or thought is lost: the message holds all text
/// of the blocks, a call for each block that calls a tool, with its identifier, its name
/// and its input, and the thoughts, told apart by the calls that they came before.
pub proof fn law_assistants_are_quoted_whole(blocks: Seq<AnthropicContentBlockView>)
    ensures
        ({
            let added = with_message(Seq::empty(), of_blocks(AnthropicRole::Assistant, blocks));
            let said = added[0]->Assistant_0;
            let calls = calls_in(blocks);
            &&& added.len() == 1
            &&& added[0] is Assistant
            &&& said.content == (if said_in(blocks).len() > 0 {
                Some(said_in(blocks))
            } else {
                None
            })
            &&& said.tool_calls is Some <==> calls.len() > 0
            &&& said.tool_calls matches Some(made) ==> {
                &&& made.len() == calls.len()
                &&& forall|i: int|
                    0 <= i < made.len() ==> {
                        let call = #[trigger] made[i];
                        &&& call.id == calls[i]->ToolUse_id
                        &&& call.function.name == calls[i]->ToolUse_name
                        &&& call.function.arguments == json_text(calls[i]->ToolUse_input)
                    }
            }
            &&& thoughts_say_something(blocks) ==> match said.reasoning_content {
                None => forall|k: int|
                    0 <= k <= calls.len() ==> (#[trigger] thoughts_in(blocks, k)).len() == 0,
                Some(ReasoningContentView::Text(text)) => {
                    &&& calls.len() == 0
                    &&& thoughts_in(blocks, 0).len() > 0
                    &&& text == joined(thoughts_in(blocks, 0), "\n"@)
                },
                Some(ReasoningContentView::Segments(segments)) => {
                    &&& calls.len() > 0
                    &&& segments.len() == calls.len() + 1
                    &&& forall|k: int|
                        0 <= k < segments.len() ==> #[trigger] segments[k] == joined(
                            thoughts_in(blocks, k),
                            "\n"@,
                        )
                    &&& exists|k: int|
                        0 <= k <= calls.len() && (#[trigger] thoughts_in(blocks, k)).len() > 0
                },
            }
        }),
{
    let added = with_message(Seq::empty(), of_blocks(AnthropicRole::Assistant, blocks));
    let said = assistant_message(blocks);
    let scan = assistant_scan(blocks);
    let all = scan.segments.push(scan.pending);
    let calls = calls_in(blocks);
    lemma_assistant_calls(blocks);
    assert(added[0] == ChatCompletionRequestMessageView::Assistant(said));
    if thoughts_say_something(blocks) {
        assert forall|k: int| 0 <= k <= calls.len() implies all[k] == joined(
            #[trigger] thoughts_in(blocks, k),
            "\n"@,
        ) && (all[k].len() == 0 <==> thoughts_in(blocks, k).len() == 0) by {
            lemma_assistant_thoughts(blocks, k);
        }
        if calls.len() == 0 {
            assert(all =~= seq![scan.pending]);
            lemma_one_line(scan.pending);
            assert(thoughts_in(blocks, 0).len() == 0 <==> all[0].len() == 0);
        } else {
            match said.reasoning_content {
                Some(ReasoningContentView::Segments(segments)) => {
                    assert forall|k: int| 0 <= k < segments.len() implies #[trigger] segments[k]
                        == joined(thoughts_in(blocks, k), "\n"@) by {
                        assert(thoughts_in(blocks, k) == thoughts_in(blocks, k));
                    }
                    let k = choose|k: int| 0 <= k < all.len() && (#[trigger] all[k]).len() > 0;
                    assert(thoughts_in(blocks, k).len() > 0);
                },
                _ => {
                    lemma_blank_lines(all);
                    assert forall|k: int| 0 <= k <= calls.len() implies (#[trigger] thoughts_in(
                        blocks,
                        k,
                    )).len() == 0 by {
                        assert(all[k].len() == 0);
                    }
                },
            }
        }
    }
}

proof fn lemma_blank_lines(segments: Seq<Seq<char>>)
    requires
        forall|i: int| 0 <= i < segments.len() ==> (#[trigger] segments[i]).len() == 0,
    ensures
        flat_lines(segments).len() == 0,
    decreases segments.len(),
{
    lemma_empty_text();
    if segments.len() > 0 {
        let front = segments.subrange(0, segments.len() - 1);
        assert forall|i: int| 0 <= i < front.len() implies (#[trigger] front[i]).len() == 0 by {
            assert(front[i] == segments[i]);
        }
        lemma_blank_lines(front);
        assert(segments[segments.len() - 1].len() == 0);
    }
}

/// A request asks the model for what the message request asks for: the same model, the
/// same sampling, the same limit and stops, each tool with its name, description and
/// schema in its place, and the same choice of tools. It always streams.
pub proof fn law_requests_ask_the_same(req: AnthropicCreateMessageRequestView)
    ensures
        ({
            let asked = chat_request(req).inner;
            &&& asked.model == req.model
            &&& asked.messages == chat_messages(req.system, req.messages)
            &&& asked.temperature == req.temperature
            &&& asked.top_p == req.top_p
            &&& asked.max_completion_tokens == Some(req.max_tokens)
            &&& asked.max_tokens is None
            &&& asked.stream == Some(true)
            &&& asked.stream_options matches Some(options) && options.include_usage
            &&& req.top_k is None <==> chat_request(req).common.top_k is None
            &&& req.top_k matches Some(k) ==> k <= i32::MAX ==> chat_request(req).common.top_k
                == Some(k as i32)
            &&& req.stop_sequences is None <==> asked.stop is None
            &&& req.stop_sequences matches Some(texts) ==> asked.stop == Some(
                StopView::TextArray(texts),
            )
            &&& req.tools is None <==> asked.tools is None
            &&& req.tools matches Some(tools) ==> {
                &&& asked.tools->0.len() == tools.len()
                &&& forall|i: int|
                    0 <= i < tools.len() ==> {
                        let function = (#[trigger] asked.tools->0[i]).function;
                        &&& function.name == tools[i].name
                        &&& function.description == tools[i].description
                        &&& function.parameters == Some(tools[i].input_schema)
                    }
            }
            &&& match req.tool_choice {
                None => asked.tool_choice is None,
                Some(AnthropicToolChoiceView::Named(named)) => asked.tool_choice == Some(
                    ChatCompletionToolChoiceOptionView::Named(named.name),
                ),
                Some(AnthropicToolChoiceView::Simple(simple)) => asked.tool_choice == Some(
                    if simple.choice_type is Auto {
                        ChatCompletionToolChoiceOptionView::Auto
                    } else if simple.choice_type is NoTool {
                        ChatCompletionToolChoiceOptionView::NoTool
                    } else {
                        ChatCompletionToolChoiceOptionView::Required
                    },
                ),
            }
        }),
{
}

/// The tool calls of a message, none where it has none.
pub open spec fn calls_of(
    calls: Option<Seq<ChatCompletionMessageToolCallView>>,
) -> Seq<ChatCompletionMessageToolCallView> {
    match calls {
        Some(calls) => calls,
        None => Seq::empty(),
    }
}

/// How many blocks come before the tool calls of a message.
pub open spec fn blocks_before_calls(message: ChatCompletionResponseMessageView) -> int {
    if message.content is Some {
        1
    } else {
        0
    }
}

/// A response says what the first choice of the completion says: its text comes first, and
/// then comes a block for each tool call, with the identifier of the call, the name of its
/// function, and the value of its arguments, an empty object where they are no JSON. The
/// tokens are those of the completion.
pub proof fn law_responses_say_the_same(
    response: NvCreateChatCompletionResponseView,
    model: Seq<char>,
    id: Seq<char>,
)
    ensures
        ({
            let made = message_response(response, model, id);
            let message = response.inner.choices[0].message;
            let calls = calls_of(message.tool_calls);
            let k = blocks_before_calls(message);
            &&& made.id == id
            &&& made.model == model
            &&& made.role == "assistant"@
            &&& made.object_type == "message"@
            &&& made.stop_sequence is None
            &&& response.inner.usage matches Some(usage) ==> made.usage.input_tokens
                == usage.prompt_tokens && made.usage.output_tokens == usage.completion_tokens
            &&& response.inner.usage is None ==> made.usage.input_tokens == 0
                && made.usage.output_tokens == 0
            &&& response.inner.choices.len() > 0 ==> {
                &&& k + calls.len() > 0 ==> made.content.len() == k + calls.len()
                &&& message.content matches Some(ChatCompletionMessageContentView::Text(text))
                    ==> made.content[0] == AnthropicResponseContentBlockView::Text { text }
                &&& message.content is Some ==> made.content[0] is Text
                &&& forall|i: int|
                    0 <= i < calls.len() ==> {
                        let call = #[trigger] calls[i];
                        let block = made.content[k + i];
                        &&& block is ToolUse
                        &&& block->ToolUse_id == call.id
                        &&& block->ToolUse_name == call.function.name
                        &&& block->ToolUse_input == (match parsed_json(call.function.arguments) {
                            Some(value) => value,
                            None => JsonView::Object(Map::empty()),
                        })
                    }
                &&& response.inner.choices[0].finish_reason is None <==> made.stop_reason is None
                &&& response.inner.choices[0].finish_reason matches Some(reason)
                    ==> made.stop_reason == Some(
                    if reason is Length {
                        AnthropicStopReason::MaxTokens
                    } else if reason is ToolCalls || reason is FunctionCall {
                        AnthropicStopReason::ToolUse
                    } else {
                        AnthropicStopReason::EndTurn
                    },
                )
            }
            &&& response.inner.choices.len() == 0 ==> {
                &&& made.content == seq![AnthropicResponseContentBlockView::Text { text: ""@ }]
                &&& made.stop_reason is None
            }
        }),
{
}

/// The blocks of a response as a client sends them back.
pub open spec fn sent_back(blocks: Seq<AnthropicResponseContentBlockView>) -> Seq<
    AnthropicContentBlockView,
> {
    Seq::new(
        blocks.len(),
        |i: int|
            match blocks[i] {
                AnthropicResponseContentBlockView::Text { text } =>
                    AnthropicContentBlockView::Text { text },
                AnthropicResponseContentBlockView::ToolUse { id, name, input } =>
                    AnthropicContentBlockView::ToolUse { id, name, input },
            },
    )
}

proof fn lemma_sent_back(blocks: Seq<AnthropicResponseContentBlockView>, k: int)
    requires
        0 <= k <= blocks.len(),
        k <= 1,
        k == 1 ==> blocks[0] is Text,
        forall|i: int| k <= i < blocks.len() ==> #[trigger] blocks[i] is ToolUse,
    ensures
        calls_in(sent_back(blocks)) == sent_back(blocks).skip(k),
        k == 1 ==> said_in(sent_back(blocks)) == blocks[0]->Text_text,
        k == 0 ==> said_in(sent_back(blocks)) == Seq::<char>::empty(),
    decreases blocks.len(),
{
    let all = sent_back(blocks);
    if blocks.len() == k {
        if k == 1 {
            assert(all.drop_last() =~= Seq::empty());
            assert(said_in(all.drop_last()) == Seq::<char>::empty());
            assert(said_in(all) =~= blocks[0]->Text_text);
            assert(calls_in(all.drop_last()) =~= Seq::empty());
            assert(all.last() is Text);
        }
        assert(calls_in(all) =~= all.skip(k));
    } else {
        let front = blocks.drop_last();
        lemma_sent_back(front, k);
        assert(all.drop_last() =~= sent_back(front));
        assert(blocks[blocks.len() - 1] is ToolUse);
        assert(calls_in(all) =~= all.skip(k));
        assert(said_in(all) =~= said_in(sent_back(front)));
    }
}

/// A response that a client sends back is the message that it was made of: the same text,
/// and calls with the same identifiers and names, and with the arguments as the text of
/// their value.
pub proof fn law_responses_come_back(
    response: NvCreateChatCompletionResponseView,
    model: Seq<char>,
    id: Seq<char>,
    text: Seq<char>,
)
    requires
        response.inner.choices.len() > 0,
        text.len() > 0,
        response.inner.choices[0].message.content == Some(
            ChatCompletionMessageContentView::Text(text),
        ) || response.inner.choices[0].message.content is None && calls_of(
            response.inner.choices[0].message.tool_calls,
        ).len() > 0,
    ensures
        ({
            let message = response.inner.choices[0].message;
            let calls = calls_of(message.tool_calls);
            let back = with_message(
                Seq::empty(),
                of_blocks(
                    AnthropicRole::Assistant,
                    sent_back(message_response(response, model, id).content),
                ),
            );
            let said = back[0]->Assistant_0;
            &&& back.len() == 1
            &&& back[0] is Assistant
            &&& message.content is Some ==> said.content == Some(text)
            &&& message.content is None ==> said.content is None
            &&& calls_of(said.tool_calls).len() == calls.len()
            &&& forall|i: int|
                0 <= i < calls.len() ==> {
                    let call = #[trigger] calls_of(said.tool_calls)[i];
                    &&& call.id == calls[i].id
                    &&& call.function.name == calls[i].function.name
                    &&& parsed_json(calls[i].function.arguments) matches Some(value)
                        ==> call.function.arguments == json_text(value)
                }
        }),
{
    let message = response.inner.choices[0].message;
    let calls = calls_of(message.tool_calls);
    let k = blocks_before_calls(message);
    let content = message_response(response, model, id).content;
    law_responses_say_the_same(response, model, id);
    assert forall|i: int| k <= i < content.len() implies #[trigger] content[i] is ToolUse by {
        assert(calls[i - k] == calls[i - k]);
    }
    lemma_sent_back(content, k);
    law_assistants_are_quoted_whole(sent_back(content));
    let back = with_message(
        Seq::empty(),
        of_blocks(AnthropicRole::Assistant, sent_back(content)),
    );
    let said = back[0]->Assistant_0;
    assert forall|i: int| 0 <= i < calls.len() implies {
        let call = #[trigger] calls_of(said.tool_calls)[i];
        &&& call.id == calls[i].id
        &&& call.function.name == calls[i].function.name
        &&& parsed_json(calls[i].function.arguments) matches Some(value)
            ==> call.function.arguments == json_text(value)
    } by {
        assert(calls[i] == calls[i]);
        assert(calls_in(sent_back(content))[i] == sent_back(content)[k + i]);
        assert(said.tool_calls->0[i] == calls_of(said.tool_calls)[i]);
    }
}

/// Lines that say something say something together.
proof fn lemma_lines_say_something(lines: Seq<Seq<char>>)
    requires
        lines.len() > 0,
        forall|i: int| 0 <= i < lines.len() ==> (#[trigger] lines[i]).len() > 0,
    ensures
        joined(lines, "\n"@).len() > 0,
{
    assert(lines[lines.len() - 1].len() > 0);
}

/// The texts that say something, in their order.
pub open spec fn saying_something(texts: Seq<Seq<char>>) -> Seq<Seq<char>> {
    texts.filter(|text: Seq<char>| text.len() > 0)
}

/// Reasoning that is told in segments is, as one text, the segments that say something, a
/// line each, in their order.
pub proof fn law_segments_are_lines(segments: Seq<Seq<char>>)
    ensures
        flat_lines(segments) == joined(saying_something(segments), "\n"@),
        forall|i: int|
            0 <= i < saying_something(segments).len() ==> (#[trigger] saying_something(
                segments,
            )[i]).len() > 0,
    decreases segments.len(),
{
    reveal(Seq::filter);
    lemma_empty_text();
    if segments.len() > 0 {
        let n = segments.len() - 1;
        let front = segments.drop_last();
        assert(front =~= segments.subrange(0, n));
        law_segments_are_lines(front);
        let kept = saying_something(front);
        if segments[n].len() > 0 {
            let all = saying_something(segments);
            assert(all == kept.push(segments[n]));
            assert(all.subrange(0, all.len() - 1) =~= kept);
            if kept.len() > 0 {
                lemma_lines_say_something(kept);
            }
        }
    } else {
        assert(flat_lines(segments) =~= Seq::<char>::empty());
        assert(joined(saying_something(segments), "\n"@) =~= Seq::<char>::empty());
    }
}

} // verus!
