//! What holds of the reading of messages from JSON.

use crate::anthropic_json::{
    block_of, content_of, result_content_of, system_block_of, system_lines, system_prompt_of,
    InvalidContent,
};
use crate::anthropic_types::{
    AnthropicContentBlockView, AnthropicImageSourceView, AnthropicMessageContentView,
    ToolResultContentBlockView, ToolResultContentView,
};
use crate::json::{looked_up, JsonView};
use vstd::prelude::*;

verus! {

/// An object says that it is of that type.
pub open spec fn of_type(fields: Map<Seq<char>, JsonView>, kind: Seq<char>) -> bool {
    looked_up(fields, "type"@) == Some(JsonView::Text(kind))
}

/// An object has a text under `key`.
pub open spec fn says(fields: Map<Seq<char>, JsonView>, key: Seq<char>, text: Seq<char>) -> bool {
    looked_up(fields, key) == Some(JsonView::Text(text))
}

/// The block was read as that.
pub open spec fn is_block(
    read: Result<AnthropicContentBlockView, InvalidContent>,
    block: AnthropicContentBlockView,
) -> bool {
    read is Ok && read->Ok_0 == block
}

/// The words for the types of blocks differ.
proof fn lemma_kinds()
    ensures
        "text"@ != "image"@ && "text"@ != "tool_use"@ && "text"@ != "tool_result"@ && "text"@
            != "thinking"@,
        "image"@ != "tool_use"@ && "image"@ != "tool_result"@ && "image"@ != "thinking"@,
        "tool_use"@ != "tool_result"@ && "tool_use"@ != "thinking"@ && "tool_result"@
            != "thinking"@,
{
    reveal_strlit("text");
    reveal_strlit("image");
    reveal_strlit("tool_use");
    reveal_strlit("tool_result");
    reveal_strlit("thinking");
    assert("text"@.len() == 4 && "image"@.len() == 5 && "tool_use"@.len() == 8
        && "tool_result"@.len() == 11 && "thinking"@.len() == 8);
    assert("tool_use"@[1] == 'o' && "thinking"@[1] == 'h');
}

/// A block is read as what it says it is, and each of its fields is what stands under its
/// name: texts, thoughts and signatures, the identifier, the name and the input of a tool
/// use, and the identifier, the content and the error flag of a tool result.
pub proof fn law_blocks_are_read(
    fields: Map<Seq<char>, JsonView>,
    a: Seq<char>,
    b: Seq<char>,
    value: JsonView,
)
    ensures
        ({
            let read = block_of(JsonView::Object(fields));
            &&& of_type(fields, "text"@) && says(fields, "text"@, a) ==> is_block(
                read,
                AnthropicContentBlockView::Text { text: a },
            )
            &&& of_type(fields, "thinking"@) && says(fields, "thinking"@, a) && says(
                fields,
                "signature"@,
                b,
            ) ==> is_block(
                read,
                AnthropicContentBlockView::Thinking { thinking: a, signature: b },
            )
            &&& of_type(fields, "tool_use"@) && says(fields, "id"@, a) && says(fields, "name"@, b)
                && looked_up(fields, "input"@) == Some(value) ==> is_block(
                read,
                AnthropicContentBlockView::ToolUse { id: a, name: b, input: value },
            )
            &&& of_type(fields, "tool_result"@) && says(fields, "tool_use_id"@, a) && looked_up(
                fields,
                "content"@,
            ) == Some(value) ==> is_block(
                read,
                AnthropicContentBlockView::ToolResult {
                    tool_use_id: a,
                    content: result_content_of(value),
                    is_error: match looked_up(fields, "is_error"@) {
                        Some(JsonView::Bool(flag)) => Some(flag),
                        _ => None,
                    },
                },
            )
            &&& of_type(fields, "tool_result"@) && looked_up(fields, "content"@) is None
                ==> read is Ok && read->Ok_0 is ToolResult && read->Ok_0->ToolResult_content is None
            &&& of_type(fields, a) && a != "text"@ && a != "image"@ && a != "tool_use"@ && a
                != "tool_result"@ && a != "thinking"@ ==> is_block(
                read,
                AnthropicContentBlockView::Unknown { block_type: a },
            )
        }),
{
    lemma_kinds();
}

/// An image is read with the type, the media type and the data of its source, given by name
/// or in this order; without all three it is refused.
pub proof fn law_images_are_read(
    fields: Map<Seq<char>, JsonView>,
    source: JsonView,
    source_type: Seq<char>,
    media_type: Seq<char>,
    data: Seq<char>,
)
    requires
        of_type(fields, "image"@),
        looked_up(fields, "source"@) == Some(source),
    ensures
        ({
            let read = block_of(JsonView::Object(fields));
            let by_name = source matches JsonView::Object(m) && says(m, "type"@, source_type)
                && says(m, "media_type"@, media_type) && says(m, "data"@, data);
            let in_order = source == JsonView::Array(
                seq![
                    JsonView::Text(source_type),
                    JsonView::Text(media_type),
                    JsonView::Text(data),
                ],
            );
            &&& by_name || in_order ==> is_block(
                read,
                AnthropicContentBlockView::Image {
                    source: AnthropicImageSourceView { source_type, media_type, data },
                },
            )
            &&& source is Text || source is Null || source is Bool ==> read is Err
        }),
{
    lemma_kinds();
}

/// The content of a tool result is its text; or its blocks, each in its place: the text of
/// one that has a text, and one that has none as it came.
pub proof fn law_results_are_read(
    text: Seq<char>,
    items: Seq<JsonView>,
    i: int,
    inner: Seq<char>,
)
    requires
        0 <= i < items.len(),
    ensures
        result_content_of(JsonView::Text(text)) == Some(ToolResultContentView::Text(text)),
        result_content_of(JsonView::Array(items)) matches Some(ToolResultContentView::Blocks(blocks))
            && {
            &&& blocks.len() == items.len()
            &&& items[i] matches JsonView::Object(m) ==> (says(m, "text"@, inner) ==> blocks[i] == (
            ToolResultContentBlockView::Text { text: inner }))
            &&& !(items[i] is Object) ==> blocks[i] == ToolResultContentBlockView::Other(items[i])
        },
{
}

/// The content of a message is its text, or its blocks, each read in its place; one block
/// that cannot be read makes the content unreadable, and so does anything else.
pub proof fn law_contents_are_read(text: Seq<char>, items: Seq<JsonView>, i: int, other: JsonView)
    requires
        0 <= i < items.len(),
    ensures
        content_of(JsonView::Text(text)) matches Ok(read) && read == (
        AnthropicMessageContentView::Text { content: text }),
        block_of(items[i]) is Err ==> content_of(JsonView::Array(items)) is Err,
        content_of(JsonView::Array(items)) matches Ok(read) ==> (
        read matches AnthropicMessageContentView::Blocks { content } && content.len() == items.len()
            && block_of(items[i]) is Ok && content[i] == block_of(items[i])->Ok_0),
        !(other is Text) && !(other is Array) ==> content_of(other) is Err,
{
}

/// A system prompt is its text, or the texts of its blocks, a line each, in their order;
/// none where there is none.
pub proof fn law_system_prompts_are_read(text: Seq<char>, items: Seq<JsonView>, n: nat)
    requires
        n <= items.len(),
    ensures
        system_prompt_of(JsonView::Null) matches Ok(read) && read is None,
        system_prompt_of(JsonView::Text(text)) matches Ok(read) && read == Some(text),
        system_prompt_of(JsonView::Array(items)) matches Ok(read) ==> {
            &&& read == Some(system_lines(items, items.len()))
            &&& forall|i: int|
                0 <= i < items.len() ==> system_block_of(#[trigger] items[i]) is Some
        },
        system_prompt_of(JsonView::Array(items)) is Err <==> exists|i: int|
            0 <= i < items.len() && system_block_of(#[trigger] items[i]) is None,
        n == 1 ==> system_lines(items, n) == system_block_of(items[0])->0,
        n > 1 ==> system_lines(items, n) == system_lines(items, (n - 1) as nat) + "\n"@
            + system_block_of(items[n - 1])->0,
{
}

/// A block of a system prompt is its text, given by name or alone in a list.
pub proof fn law_system_blocks_are_read(fields: Map<Seq<char>, JsonView>, text: Seq<char>)
    ensures
        says(fields, "text"@, text) ==> system_block_of(JsonView::Object(fields)) == Some(text),
        looked_up(fields, "text"@) is None ==> system_block_of(JsonView::Object(fields)) is None,
        system_block_of(JsonView::Array(seq![JsonView::Text(text)])) == Some(text),
        system_block_of(JsonView::Text(text)) is None,
{
}

} // verus!
