//! Reading message content from JSON. Blocks of a type that is not known are kept as
//! such, so that new kinds of blocks do not break a conversation.

use crate::anthropic_types::{
    AnthropicContentBlock, AnthropicContentBlockView, AnthropicImageSource,
    AnthropicImageSourceView, AnthropicMessageContent, AnthropicMessageContentView,
    ToolResultContent, ToolResultContentBlock, ToolResultContentBlockView, ToolResultContentView,
};
use crate::copy::Duplicate;
use crate::json::{member, Json, JsonView};
use crate::text::{join, same_text};
use vstd::prelude::*;

verus! {

/// Content that cannot be read.
#[derive(Debug, Clone, Copy, PartialEq, Eq, Structural)]
pub struct InvalidContent;

/// The text under `key`; empty where there is none.
pub open spec fn text_at(v: JsonView, key: Seq<char>) -> Seq<char> {
    match member(v, key) {
        Some(JsonView::Text(t)) => t,
        _ => ""@,
    }
}

/// An image source: an object with three texts, or the three texts in their order.
pub open spec fn image_source_of(v: JsonView) -> Option<AnthropicImageSourceView> {
    match v {
        JsonView::Object(_) => match (
            member(v, "type"@),
            member(v, "media_type"@),
            member(v, "data"@),
        ) {
            (
                Some(JsonView::Text(source_type)),
                Some(JsonView::Text(media_type)),
                Some(JsonView::Text(data)),
            ) => Some(AnthropicImageSourceView { source_type, media_type, data }),
            _ => None,
        },
        JsonView::Array(items) => if items.len() == 3 && items[0] is Text && items[1] is Text
            && items[2] is Text {
            Some(
                AnthropicImageSourceView {
                    source_type: items[0]->Text_0,
                    media_type: items[1]->Text_0,
                    data: items[2]->Text_0,
                },
            )
        } else {
            None
        },
        _ => None,
    }
}

/// A block of a tool result: an object with a text is that text.
pub open spec fn result_block_of(v: JsonView) -> ToolResultContentBlockView {
    match member(v, "text"@) {
        Some(JsonView::Text(text)) => ToolResultContentBlockView::Text { text },
        _ => ToolResultContentBlockView::Other(v),
    }
}

/// The content of a tool result: a text, or blocks; anything else counts as absent.
pub open spec fn result_content_of(v: JsonView) -> Option<ToolResultContentView> {
    match v {
        JsonView::Text(t) => Some(ToolResultContentView::Text(t)),
        JsonView::Array(items) => Some(
            ToolResultContentView::Blocks(
                Seq::new(items.len(), |i: int| result_block_of(items[i])),
            ),
        ),
        _ => None,
    }
}

/// A content block. Fields that are missing or of another type count as empty; only an
/// image without its source cannot be read.
pub open spec fn block_of(v: JsonView) -> Result<AnthropicContentBlockView, InvalidContent> {
    let kind = text_at(v, "type"@);
    if kind == "text"@ {
        Ok(AnthropicContentBlockView::Text { text: text_at(v, "text"@) })
    } else if kind == "image"@ {
        match member(v, "source"@) {
            Some(source) => match image_source_of(source) {
                Some(source) => Ok(AnthropicContentBlockView::Image { source }),
                None => Err(InvalidContent),
            },
            None => Err(InvalidContent),
        }
    } else if kind == "tool_use"@ {
        Ok(
            AnthropicContentBlockView::ToolUse {
                id: text_at(v, "id"@),
                name: text_at(v, "name"@),
                input: match member(v, "input"@) {
                    Some(input) => input,
                    None => JsonView::Object(Map::empty()),
                },
            },
        )
    } else if kind == "tool_result"@ {
        Ok(
            AnthropicContentBlockView::ToolResult {
                tool_use_id: text_at(v, "tool_use_id"@),
                content: match member(v, "content"@) {
                    Some(content) => result_content_of(content),
                    None => None,
                },
                is_error: match member(v, "is_error"@) {
                    Some(JsonView::Bool(is_error)) => Some(is_error),
                    _ => None,
                },
            },
        )
    } else if kind == "thinking"@ {
        Ok(
            AnthropicContentBlockView::Thinking {
                thinking: text_at(v, "thinking"@),
                signature: text_at(v, "signature"@),
            },
        )
    } else {
        Ok(AnthropicContentBlockView::Unknown { block_type: kind })
    }
}

/// The content of a message: a text, or blocks that can all be read.
pub open spec fn content_of(v: JsonView) -> Result<AnthropicMessageContentView, InvalidContent> {
    match v {
        JsonView::Text(content) => Ok(AnthropicMessageContentView::Text { content }),
        JsonView::Array(items) => if forall|i: int|
            0 <= i < items.len() ==> block_of(#[trigger] items[i]) is Ok {
            Ok(
                AnthropicMessageContentView::Blocks {
                    content: Seq::new(items.len(), |i: int| block_of(items[i])->Ok_0),
                },
            )
        } else {
            Err(InvalidContent)
        },
        _ => Err(InvalidContent),
    }
}

/// A block of the system prompt: an object with a text, or that text in a list of its
/// own.
pub open spec fn system_block_of(v: JsonView) -> Option<Seq<char>> {
    match v {
        JsonView::Object(_) => match member(v, "text"@) {
            Some(JsonView::Text(t)) => Some(t),
            _ => None,
        },
        JsonView::Array(items) => if items.len() == 1 && items[0] is Text {
            Some(items[0]->Text_0)
        } else {
            None
        },
        _ => None,
    }
}

/// The first `n` blocks of a system prompt, one per line.
pub open spec fn system_lines(items: Seq<JsonView>, n: nat) -> Seq<char>
    decreases n,
{
    if n == 0 {
        ""@
    } else if n == 1 {
        system_block_of(items[0])->0
    } else {
        system_lines(items, (n - 1) as nat) + "\n"@ + system_block_of(items[n - 1])->0
    }
}

/// The system prompt: nothing, a text, or blocks of text.
pub open spec fn system_prompt_of(v: JsonView) -> Result<Option<Seq<char>>, InvalidContent> {
    match v {
        JsonView::Null => Ok(None),
        JsonView::Text(t) => Ok(Some(t)),
        JsonView::Array(items) => if forall|i: int|
            0 <= i < items.len() ==> system_block_of(#[trigger] items[i]) is Some {
            Ok(Some(system_lines(items, items.len())))
        } else {
            Err(InvalidContent)
        },
        _ => Err(InvalidContent),
    }
}

/// Only images can be refused: every other block is read, whatever its type.
pub proof fn law_only_images_are_refused(v: JsonView)
    requires
        block_of(v) is Err,
    ensures
        text_at(v, "type"@) == "image"@,
{
}

/// The text under `key`; empty where there is none.
fn read_text(value: &Json, key: &str) -> (r: String)
    ensures
        r@ == text_at(value@, key@),
{
    match value.get(key) {
        Some(Json::Text(t)) => t.clone(),
        _ => "".to_owned(),
    }
}

impl AnthropicImageSource {
    /// Reads an image source.
    pub fn from_json(value: &Json) -> (r: Option<AnthropicImageSource>)
        ensures
            r.deep_view() == image_source_of(value@),
    {
        match value {
            Json::Object(_) => match (
                value.get("type"),
                value.get("media_type"),
                value.get("data"),
            ) {
                (
                    Some(Json::Text(source_type)),
                    Some(Json::Text(media_type)),
                    Some(Json::Text(data)),
                ) => Some(
                    AnthropicImageSource {
                        source_type: source_type.clone(),
                        media_type: media_type.clone(),
                        data: data.clone(),
                    },
                ),
                _ => None,
            },
            Json::Array(items) => {
                let ghost all = value@->Array_0;
                if items.len() != 3 {
                    return None;
                }
                assert(all[0] == items@[0]@ && all[1] == items@[1]@ && all[2] == items@[2]@);
                match (&items[0], &items[1], &items[2]) {
                    (Json::Text(source_type), Json::Text(media_type), Json::Text(data)) => Some(
                        AnthropicImageSource {
                            source_type: source_type.clone(),
                            media_type: media_type.clone(),
                            data: data.clone(),
                        },
                    ),
                    _ => None,
                }
            },
            _ => None,
        }
    }
}

impl ToolResultContentBlock {
    /// Reads a block of a tool result.
    pub fn from_json(value: &Json) -> (r: ToolResultContentBlock)
        ensures
            r.deep_view() == result_block_of(value@),
    {
        match value.get("text") {
            Some(Json::Text(text)) => ToolResultContentBlock::Text { text: text.clone() },
            _ => ToolResultContentBlock::Other(value.duplicate()),
        }
    }
}

impl ToolResultContent {
    /// Reads the content of a tool result.
    pub fn from_json(value: &Json) -> (r: Option<ToolResultContent>)
        ensures
            r.deep_view() == result_content_of(value@),
    {
        match value {
            Json::Text(t) => Some(ToolResultContent::Text(t.clone())),
            Json::Array(items) => {
                let ghost all = value@->Array_0;
                let mut blocks: Vec<ToolResultContentBlock> = Vec::new();
                let mut i: usize = 0;
                while i < items.len()
                    invariant
                        *value == Json::Array(*items),
                        all == value@->Array_0,
                        i <= items@.len(),
                        blocks@.len() == i,
                        forall|k: int|
                            0 <= k < i ==> (#[trigger] blocks@[k]).deep_view() == result_block_of(
                                all[k],
                            ),
                    decreases items@.len() - i,
                {
                    assert(all[i as int] == items@[i as int]@);
                    blocks.push(ToolResultContentBlock::from_json(&items[i]));
                    i += 1;
                }
                assert(blocks.deep_view() =~= Seq::new(
                    all.len(),
                    |i: int| result_block_of(all[i]),
                ));
                Some(ToolResultContent::Blocks(blocks))
            },
            _ => None,
        }
    }
}

impl AnthropicContentBlock {
    /// Reads a content block.
    pub fn from_json(value: &Json) -> (r: Result<AnthropicContentBlock, InvalidContent>)
        ensures
            r matches Ok(block) ==> block_of(value@) == Ok::<_, InvalidContent>(block.deep_view()),
            r is Err ==> block_of(value@) is Err,
    {
        let kind: String = read_text(value, "type");
        if same_text(kind.as_str(), "text") {
            Ok(AnthropicContentBlock::Text { text: read_text(value, "text") })
        } else if same_text(kind.as_str(), "image") {
            match value.get("source") {
                Some(source) => match AnthropicImageSource::from_json(source) {
                    Some(source) => Ok(AnthropicContentBlock::Image { source }),
                    None => Err(InvalidContent),
                },
                None => Err(InvalidContent),
            }
        } else if same_text(kind.as_str(), "tool_use") {
            Ok(
                AnthropicContentBlock::ToolUse {
                    id: read_text(value, "id"),
                    name: read_text(value, "name"),
                    input: match value.get("input") {
                        Some(input) => input.duplicate(),
                        None => Json::empty_object(),
                    },
                },
            )
        } else if same_text(kind.as_str(), "tool_result") {
            Ok(
                AnthropicContentBlock::ToolResult {
                    tool_use_id: read_text(value, "tool_use_id"),
                    content: match value.get("content") {
                        Some(content) => ToolResultContent::from_json(content),
                        None => None,
                    },
                    is_error: match value.get("is_error") {
                        Some(Json::Bool(is_error)) => Some(*is_error),
                        _ => None,
                    },
                },
            )
        } else if same_text(kind.as_str(), "thinking") {
            Ok(
                AnthropicContentBlock::Thinking {
                    thinking: read_text(value, "thinking"),
                    signature: read_text(value, "signature"),
                },
            )
        } else {
            Ok(AnthropicContentBlock::Unknown { block_type: kind })
        }
    }
}

impl AnthropicMessageContent {
    /// Reads the content of a message.
    pub fn from_json(value: &Json) -> (r: Result<AnthropicMessageContent, InvalidContent>)
        ensures
            r matches Ok(content) ==> content_of(value@) == Ok::<_, InvalidContent>(
                content.deep_view(),
            ),
            r is Err ==> content_of(value@) is Err,
    {
        match value {
            Json::Text(content) => Ok(AnthropicMessageContent::Text { content: content.clone() }),
            Json::Array(items) => {
                let ghost all = value@->Array_0;
                let mut content: Vec<AnthropicContentBlock> = Vec::new();
                let mut i: usize = 0;
                while i < items.len()
                    invariant
                        *value == Json::Array(*items),
                        all == value@->Array_0,
                        i <= items@.len(),
                        content@.len() == i,
                        forall|k: int|
                            0 <= k < i ==> block_of(#[trigger] all[k]) == Ok::<_, InvalidContent>(
                                content@[k].deep_view(),
                            ),
                    decreases items@.len() - i,
                {
                    assert(all[i as int] == items@[i as int]@);
                    match AnthropicContentBlock::from_json(&items[i]) {
                        Ok(block) => {
                            content.push(block);
                        },
                        Err(error) => {
                            assert(block_of(all[i as int]) is Err);
                            return Err(error);
                        },
                    }
                    i += 1;
                }
                assert(content.deep_view() =~= Seq::new(
                    all.len(),
                    |i: int| block_of(all[i])->Ok_0,
                ));
                Ok(AnthropicMessageContent::Blocks { content })
            },
            _ => Err(InvalidContent),
        }
    }
}

/// Reads a block of the system prompt.
fn read_system_block(value: &Json) -> (r: Option<String>)
    ensures
        r.deep_view() == system_block_of(value@),
{
    match value {
        Json::Object(_) => match value.get("text") {
            Some(Json::Text(t)) => Some(t.clone()),
            _ => None,
        },
        Json::Array(items) => {
            let ghost all = value@->Array_0;
            if items.len() != 1 {
                return None;
            }
            assert(all[0] == items@[0]@);
            match &items[0] {
                Json::Text(t) => Some(t.clone()),
                _ => None,
            }
        },
        _ => None,
    }
}

/// Reads the system prompt: nothing, a text, or blocks of text that become one line
/// each.
pub fn read_system_prompt(value: &Json) -> (r: Result<Option<String>, InvalidContent>)
    ensures
        r matches Ok(prompt) ==> system_prompt_of(value@) == Ok::<_, InvalidContent>(
            prompt.deep_view(),
        ),
        r is Err ==> system_prompt_of(value@) is Err,
{
    match value {
        Json::Null => Ok(None),
        Json::Text(t) => Ok(Some(t.clone())),
        Json::Array(items) => {
            let ghost all = value@->Array_0;
            let mut prompt: String = "".to_owned();
            let mut i: usize = 0;
            while i < items.len()
                invariant
                    *value == Json::Array(*items),
                    all == value@->Array_0,
                    i <= items@.len(),
                    prompt@ == system_lines(all, i as nat),
                    forall|k: int| 0 <= k < i ==> system_block_of(#[trigger] all[k]) is Some,
                decreases items@.len() - i,
            {
                assert(all[i as int] == items@[i as int]@);
                match read_system_block(&items[i]) {
                    Some(text) => {
                        if i == 0 {
                            prompt = text;
                        } else {
                            prompt = join(join(prompt.as_str(), "\n").as_str(), text.as_str());
                        }
                    },
                    None => {
                        assert(system_block_of(all[i as int]) is None);
                        return Err(InvalidContent);
                    },
                }
                i += 1;
            }
            Ok(Some(prompt))
        },
        _ => Err(InvalidContent),
    }
}

} // verus!
