//! When a jail starts and ends, and what its text is turned into.

use crate::chat_types::{
    ChatChoiceLogprobs, ChatChoiceLogprobsView, ChatChoiceStream, ChatChoiceStreamView,
    ChatCompletionMessageContent, ChatCompletionMessageContentView,
    ChatCompletionMessageToolCallChunk, ChatCompletionMessageToolCallChunkView,
    ChatCompletionStreamResponseDelta, ChatCompletionStreamResponseDeltaView, FinishReason,
    FunctionCallStream, FunctionCallStreamView, FunctionType, ParsedToolCalls, Role,
    ToolCallResponse, ToolCallResponseView, ToolDefinition, ToolDefinitionView,
};
use crate::copy::{no_items, one_item, push_item, Duplicate};
use crate::jail_text::{
    controls_escaped, escape_json_string_control_chars, find_json_start,
    immediate_tool_choice_json_fragment, immediate_tool_choice_reasoning, json_fragment, json_lead,
    json_start,
};
use crate::jail_types::{
    JailMode, JailModeView, JailedStream, JailedStreamView, ToolChoiceFormat, ToolChoiceFormatView,
};
use crate::json::{member, Json, JsonView};
use crate::json_text::{json_text, parsed_json};
use crate::parser_facts::{
    answer_about, find_answer, lemma_end_in_text, ParserFacts, ParserFactsView, ParserQuery,
    ParserQueryView,
};
use crate::text::{
    blank, contains, contains_text, find, find_text, is_blank, join, same_text, slice_of,
};
use vstd::prelude::*;

verus! {

/// A number as far as it fits in `usize`.
pub open spec fn capped(n: int) -> int {
    if n > usize::MAX {
        usize::MAX as int
    } else {
        n
    }
}

/// The delta of a chunk that only says how generation ended.
pub open spec fn bare_delta(role: Role) -> ChatCompletionStreamResponseDeltaView {
    ChatCompletionStreamResponseDeltaView {
        role: Some(role),
        content: None,
        tool_calls: None,
        function_call: None,
        refusal: None,
        reasoning_content: None,
    }
}

/// A choice that only says how generation ended.
pub open spec fn terminal_choice(index: u32, finish_reason: FinishReason) -> ChatChoiceStreamView {
    ChatChoiceStreamView {
        index,
        delta: bare_delta(Role::Assistant),
        finish_reason: Some(finish_reason),
        logprobs: None,
    }
}

/// A choice that only says how generation ended.
pub fn create_terminal_choice(index: u32, finish_reason: FinishReason) -> (r: ChatChoiceStream)
    ensures
        r.deep_view() == terminal_choice(index, finish_reason),
{
    ChatChoiceStream {
        index,
        delta: ChatCompletionStreamResponseDelta {
            role: Some(Role::Assistant),
            content: None,
            tool_calls: None,
            function_call: None,
            refusal: None,
            reasoning_content: None,
        },
        finish_reason: Some(finish_reason),
        logprobs: None,
    }
}

/// A choice with optional text content.
pub open spec fn optional_choice(
    index: u32,
    role: Option<Role>,
    content: Option<Seq<char>>,
    tool_calls: Option<Seq<ChatCompletionMessageToolCallChunkView>>,
    finish_reason: Option<FinishReason>,
    logprobs: Option<ChatChoiceLogprobsView>,
) -> ChatChoiceStreamView {
    ChatChoiceStreamView {
        index,
        delta: ChatCompletionStreamResponseDeltaView {
            role,
            content: match content {
                Some(text) => Some(ChatCompletionMessageContentView::Text(text)),
                None => None,
            },
            tool_calls,
            function_call: None,
            refusal: None,
            reasoning_content: None,
        },
        finish_reason,
        logprobs,
    }
}

/// A choice with text content.
pub open spec fn text_choice(
    index: u32,
    role: Option<Role>,
    content: Seq<char>,
    tool_calls: Option<Seq<ChatCompletionMessageToolCallChunkView>>,
    finish_reason: Option<FinishReason>,
    logprobs: Option<ChatChoiceLogprobsView>,
) -> ChatChoiceStreamView {
    optional_choice(index, role, Some(content), tool_calls, finish_reason, logprobs)
}

/// A choice with optional text content.
pub fn create_choice_stream_optional_content(
    index: u32,
    role: Option<Role>,
    content: Option<String>,
    tool_calls: Option<Vec<ChatCompletionMessageToolCallChunk>>,
    finish_reason: Option<FinishReason>,
    logprobs: Option<ChatChoiceLogprobs>,
) -> (r: ChatChoiceStream)
    ensures
        r.deep_view() == optional_choice(
            index,
            role,
            content.deep_view(),
            tool_calls.deep_view(),
            finish_reason,
            logprobs.deep_view(),
        ),
{
    ChatChoiceStream {
        index,
        delta: ChatCompletionStreamResponseDelta {
            role,
            content: match content {
                Some(text) => Some(ChatCompletionMessageContent::Text(text)),
                None => None,
            },
            tool_calls,
            function_call: None,
            refusal: None,
            reasoning_content: None,
        },
        finish_reason,
        logprobs,
    }
}

/// A choice with text content.
pub fn create_choice_stream(
    index: u32,
    role: Option<Role>,
    content: &str,
    tool_calls: Option<Vec<ChatCompletionMessageToolCallChunk>>,
    finish_reason: Option<FinishReason>,
    logprobs: Option<ChatChoiceLogprobs>,
) -> (r: ChatChoiceStream)
    ensures
        r.deep_view() == text_choice(
            index,
            role,
            content@,
            tool_calls.deep_view(),
            finish_reason,
            logprobs.deep_view(),
        ),
{
    create_choice_stream_optional_content(
        index,
        role,
        Some(content.to_owned()),
        tool_calls,
        finish_reason,
        logprobs,
    )
}

/// One of the sequences stands in `content`.
pub open spec fn any_contained(content: Seq<char>, sequences: Seq<Seq<char>>) -> bool {
    exists|i: int| 0 <= i < sequences.len() && contains_text(content, #[trigger] sequences[i])
}

/// Whether `content` starts a jail: it holds a start sequence, or the parser
/// sees the start of a tool call in it.
pub open spec fn starts_jail(
    jail: JailedStreamView,
    content: Seq<char>,
    facts: ParserFactsView,
) -> Result<bool, ParserQueryView> {
    if any_contained(content, jail.jail_start_sequences) {
        Ok(true)
    } else if jail.tool_call_parser is None {
        Ok(false)
    } else {
        match answer_about(facts.call_starts, content) {
            Some(found) => Ok(found),
            None => Err(ParserQueryView::CallStart { text: content }),
        }
    }
}

/// Where the first end sequence, in the order in which they are configured, ends.
pub open spec fn end_marker(content: Seq<char>, sequences: Seq<Seq<char>>) -> Option<int>
    decreases sequences.len(),
{
    if sequences.len() == 0 {
        None
    } else {
        match find_text(content, sequences[0]) {
            Some(i) => Some(i + sequences[0].len()),
            None => end_marker(content, sequences.subrange(1, sequences.len() as int)),
        }
    }
}

/// The parser finds complete tool calls in `content`.
pub open spec fn has_calls(
    jail: JailedStreamView,
    content: Seq<char>,
    facts: ParserFactsView,
) -> Result<bool, ParserQueryView> {
    if jail.tool_call_parser is None {
        Ok(false)
    } else {
        match facts.calls_in(content, false) {
            None => Err(ParserQueryView::ToolCalls { text: content, finalize: false }),
            Some(None) => Ok(false),
            Some(Some(parsed)) => Ok(parsed.calls.len() > 0),
        }
    }
}

/// The JSON of a forced tool choice is complete: an object, or an array that
/// is not empty.
pub open spec fn choice_complete(format: ToolChoiceFormatView, content: Seq<char>) -> bool {
    match (format, parsed_json(controls_escaped(json_fragment(content)))) {
        (ToolChoiceFormatView::SingleObject { .. }, Some(v)) => v is Object,
        (ToolChoiceFormatView::ArrayOfTools { .. }, Some(JsonView::Array(items))) => items.len()
            > 0,
        _ => false,
    }
}

/// Where complete tool calls end, the jail ends; where the parser does not see
/// their end, it goes on.
pub open spec fn ends_at_calls(content: Seq<char>, facts: ParserFactsView) -> Result<
    (bool, int),
    ParserQueryView,
> {
    match answer_about(facts.call_ends, content) {
        None => Err(ParserQueryView::CallEnd { text: content }),
        Some(Some(end)) => Ok((true, end as int)),
        Some(None) => Ok((false, content.len() as int)),
    }
}

/// Whether the jail ends, and where the jailed part of `content` ends.
///
/// Tool calls that the parser recognises take precedence over end sequences, so
/// that consecutive calls stay together.
pub open spec fn ends_jail(
    jail: JailedStreamView,
    content: Seq<char>,
    facts: ParserFactsView,
) -> Result<(bool, int), ParserQueryView> {
    match jail.jail_mode {
        JailModeView::MarkerBased => match has_calls(jail, content, facts) {
            Err(query) => Err(query),
            Ok(true) => ends_at_calls(content, facts),
            Ok(false) => match end_marker(content, jail.jail_end_sequences) {
                Some(end) => Ok((true, end)),
                None => Ok((false, content.len() as int)),
            },
        },
        JailModeView::Immediate { format } => if choice_complete(format, content) {
            Ok((true, content.len() as int))
        } else {
            match has_calls(jail, content, facts) {
                Err(query) => Err(query),
                Ok(true) => ends_at_calls(content, facts),
                Ok(false) => Ok((false, content.len() as int)),
            }
        },
    }
}

/// The chunk for a tool call that a parser found.
pub open spec fn chunk_of(
    call: ToolCallResponseView,
    index: int,
) -> ChatCompletionMessageToolCallChunkView {
    ChatCompletionMessageToolCallChunkView {
        index: capped(index) as u32,
        id: Some(call.id),
        tool_type: Some(FunctionType::Function),
        function: Some(
            FunctionCallStreamView {
                name: Some(call.function.name),
                arguments: Some(call.function.arguments),
            },
        ),
    }
}

/// The chunks for tool calls, numbered from `offset`.
pub open spec fn chunks_of(calls: Seq<ToolCallResponseView>, offset: int) -> Seq<
    ChatCompletionMessageToolCallChunkView,
> {
    Seq::new(calls.len(), |i: int| chunk_of(calls[i], offset + i))
}

/// The calls of the tool `name`.
pub open spec fn calls_named(calls: Seq<ToolCallResponseView>, name: Seq<char>) -> Seq<
    ToolCallResponseView,
>
    decreases calls.len(),
{
    if calls.len() == 0 {
        Seq::empty()
    } else {
        let n = calls.len() - 1;
        let front = calls_named(calls.subrange(0, n), name);
        if calls[n].function.name == name {
            front.push(calls[n])
        } else {
            front
        }
    }
}

/// `name` is one of the tools, or no tools are known.
pub open spec fn is_known(tools: Option<Seq<ToolDefinitionView>>, name: Seq<char>) -> bool {
    tools matches Some(list) ==> exists|i: int|
        0 <= i < list.len() && (#[trigger] list[i]).name == name
}

/// The calls of tools that are known.
pub open spec fn known_calls(
    calls: Seq<ToolCallResponseView>,
    tools: Option<Seq<ToolDefinitionView>>,
) -> Seq<ToolCallResponseView>
    decreases calls.len(),
{
    if calls.len() == 0 {
        Seq::empty()
    } else {
        let n = calls.len() - 1;
        let front = known_calls(calls.subrange(0, n), tools);
        if is_known(tools, calls[n].function.name) {
            front.push(calls[n])
        } else {
            front
        }
    }
}

/// The chunks for JSON tool calls between tags; nothing where the parser fails.
pub open spec fn tagged_chunks(
    jail: JailedStreamView,
    content: Seq<char>,
    offset: int,
    recover: bool,
    facts: ParserFactsView,
) -> Result<Option<Seq<ChatCompletionMessageToolCallChunkView>>, ParserQueryView> {
    match facts.tagged_in(content, recover) {
        None => Err(ParserQueryView::TaggedJson { text: content, recover }),
        Some(None) => Ok(None),
        Some(Some(parsed)) => Ok(
            Some(chunks_of(known_calls(parsed.calls, jail.tool_definitions), offset)),
        ),
    }
}

/// A chunk for a tool call with the new identifier `id`.
pub open spec fn new_chunk(
    index: u32,
    id: Seq<char>,
    name: Seq<char>,
    arguments: Seq<char>,
) -> ChatCompletionMessageToolCallChunkView {
    ChatCompletionMessageToolCallChunkView {
        index,
        id: Some("call-"@ + id),
        tool_type: Some(FunctionType::Function),
        function: Some(FunctionCallStreamView { name: Some(name), arguments: Some(arguments) }),
    }
}

/// The name and the parameters of an entry of a tool-call array.
pub open spec fn entry_call(entry: JsonView) -> Option<(Seq<char>, Seq<char>)> {
    match (member(entry, "name"@), member(entry, "parameters"@)) {
        (Some(JsonView::Text(name)), Some(parameters)) => Some((name, json_text(parameters))),
        _ => None,
    }
}

/// The chunks for the entries of a tool-call array; entries without name or
/// parameters are passed over.
pub open spec fn entry_chunks(entries: Seq<JsonView>, ids: Seq<Seq<char>>) -> Result<
    Seq<ChatCompletionMessageToolCallChunkView>,
    ParserQueryView,
>
    decreases entries.len(),
{
    if entries.len() == 0 {
        Ok(Seq::empty())
    } else {
        let n = entries.len() - 1;
        match entry_chunks(entries.subrange(0, n), ids) {
            Err(query) => Err(query),
            Ok(front) => match entry_call(entries[n]) {
                None => Ok(front),
                Some((name, arguments)) => if front.len() < ids.len() {
                    Ok(front.push(new_chunk(n as u32, ids[front.len() as int], name, arguments)))
                } else {
                    Err(ParserQueryView::FreshId)
                },
            },
        }
    }
}

/// The chunks for the JSON of a forced tool choice; nothing where it is no JSON.
pub open spec fn choice_chunks(
    content: Seq<char>,
    format: ToolChoiceFormatView,
    facts: ParserFactsView,
) -> Result<Option<Seq<ChatCompletionMessageToolCallChunkView>>, ParserQueryView> {
    match parsed_json(content) {
        None => Ok(None),
        Some(value) => match format {
            ToolChoiceFormatView::SingleObject { tool_name } => if value is Object {
                if facts.fresh_ids.len() > 0 {
                    Ok(Some(seq![new_chunk(0, facts.fresh_ids[0], tool_name, content)]))
                } else {
                    Err(ParserQueryView::FreshId)
                }
            } else {
                Ok(Some(Seq::empty()))
            },
            ToolChoiceFormatView::ArrayOfTools { .. } => match value {
                JsonView::Array(entries) => match entry_chunks(entries, facts.fresh_ids) {
                    Ok(chunks) => Ok(Some(chunks)),
                    Err(query) => Err(query),
                },
                _ => Ok(Some(Seq::empty())),
            },
        },
    }
}

/// The chunks of the tool `name`.
pub open spec fn chunks_named(
    chunks: Seq<ChatCompletionMessageToolCallChunkView>,
    name: Seq<char>,
) -> Seq<ChatCompletionMessageToolCallChunkView>
    decreases chunks.len(),
{
    if chunks.len() == 0 {
        Seq::empty()
    } else {
        let n = chunks.len() - 1;
        let front = chunks_named(chunks.subrange(0, n), name);
        if chunks[n].function matches Some(f) && f.name == Some(name) {
            front.push(chunks[n])
        } else {
            front
        }
    }
}

/// The chunks numbered from `offset`.
pub open spec fn renumbered(
    chunks: Seq<ChatCompletionMessageToolCallChunkView>,
    offset: int,
) -> Seq<ChatCompletionMessageToolCallChunkView> {
    Seq::new(
        chunks.len(),
        |i: int|
            ChatCompletionMessageToolCallChunkView {
                index: capped(offset + i) as u32,
                ..chunks[i]
            },
    )
}

/// The chunks for tool calls before they are numbered.
pub open spec fn unnumbered(calls: Seq<ToolCallResponseView>) -> Seq<
    ChatCompletionMessageToolCallChunkView,
> {
    Seq::new(calls.len(), |i: int| chunk_of(calls[i], 0))
}

/// What is kept of the JSON tool calls between tags: only those of the tool that is
/// asked for.
pub open spec fn tagged_kept(
    jail: JailedStreamView,
    tagged: Seq<ChatCompletionMessageToolCallChunkView>,
    offset: int,
) -> Seq<ChatCompletionMessageToolCallChunkView> {
    match jail.named_tool_name {
        Some(name) => renumbered(chunks_named(tagged, name), offset),
        None => tagged,
    }
}

/// The tool calls in the text of a marker-based jail, as a choice.
pub open spec fn marker_choice(
    jail: JailedStreamView,
    index: u32,
    content: Seq<char>,
    base: ChatChoiceStreamView,
    offset: int,
    finalize: bool,
    facts: ParserFactsView,
) -> Result<ChatChoiceStreamView, ParserQueryView> {
    let assistant = Some(Role::Assistant);
    match facts.calls_in(content, finalize) {
        None => Err(ParserQueryView::ToolCalls { text: content, finalize }),
        Some(parsed) => if parsed is Some && parsed->0.calls.len() > 0 {
            let p = parsed->0;
            let kept = match jail.named_tool_name {
                Some(name) => calls_named(p.calls, name),
                None => p.calls,
            };
            let text = match p.normal_text {
                Some(text) => text,
                None => Seq::empty(),
            };
            if kept.len() == 0 {
                Ok(text_choice(index, assistant, text, None, base.finish_reason, base.logprobs))
            } else {
                Ok(
                    text_choice(
                        index,
                        assistant,
                        text,
                        Some(chunks_of(kept, offset)),
                        None,
                        base.logprobs,
                    ),
                )
            }
        } else {
            match tagged_chunks(jail, content, offset, finalize, facts) {
                Err(query) => Err(query),
                Ok(tagged) => if tagged is Some && tagged->0.len() > 0 {
                    let kept = tagged_kept(jail, tagged->0, offset);
                    Ok(
                        text_choice(
                            index,
                            assistant,
                            Seq::empty(),
                            if kept.len() > 0 {
                                Some(kept)
                            } else {
                                None
                            },
                            if kept.len() > 0 {
                                None
                            } else {
                                base.finish_reason
                            },
                            base.logprobs,
                        ),
                    )
                } else {
                    let dropped = parsed is None || parsed->0.normal_text == Some(
                        Seq::<char>::empty(),
                    );
                    Ok(
                        text_choice(
                            index,
                            assistant,
                            if dropped {
                                Seq::empty()
                            } else {
                                content
                            },
                            None,
                            base.finish_reason,
                            base.logprobs,
                        ),
                    )
                },
            }
        },
    }
}

/// The tool calls that the JSON of a forced tool choice holds: those that the JSON parser
/// finds, else the parameters of the named tool or an array of calls.
pub open spec fn json_chunks(
    format: ToolChoiceFormatView,
    json: Seq<char>,
    facts: ParserFactsView,
) -> Result<Seq<ChatCompletionMessageToolCallChunkView>, ParserQueryView> {
    match facts.bare_in(json, false) {
        None => Err(ParserQueryView::BareJson { text: json, recover: false }),
        Some(bare) => if bare is Some && bare->0.calls.len() > 0 {
            Ok(unnumbered(bare->0.calls))
        } else {
            match choice_chunks(json, format, facts) {
                Err(query) => Err(query),
                Ok(found) => Ok(
                    match found {
                        Some(chunks) => chunks,
                        None => Seq::empty(),
                    },
                ),
            }
        },
    }
}

/// The tool calls that the configured parser recognises in the text of a forced tool
/// choice.
pub open spec fn native_chunks(
    jail: JailedStreamView,
    content: Seq<char>,
    facts: ParserFactsView,
) -> Result<Seq<ChatCompletionMessageToolCallChunkView>, ParserQueryView> {
    if jail.tool_call_parser is None {
        Ok(Seq::empty())
    } else {
        match facts.calls_in(content, false) {
            None => Err(ParserQueryView::ToolCalls { text: content, finalize: false }),
            Some(None) => Ok(Seq::empty()),
            Some(Some(p)) => Ok(unnumbered(p.calls)),
        }
    }
}

/// The tool calls that a forced tool choice made, and the reasoning in front of them.
#[verifier::ext_equal]
pub struct Forced {
    pub chunks: Seq<ChatCompletionMessageToolCallChunkView>,
    pub lead: Seq<char>,
}

/// The tool calls that the last group of brackets in `fragment` holds, where text stands
/// in front of it.
pub open spec fn suffix_chunks(
    format: ToolChoiceFormatView,
    lead: Seq<char>,
    fragment: Seq<char>,
    facts: ParserFactsView,
) -> Result<Forced, ParserQueryView> {
    match json_start(fragment) {
        None => Ok(Forced { chunks: Seq::empty(), lead: Seq::empty() }),
        Some(at) => match json_chunks(
            format,
            controls_escaped(fragment.subrange(at, fragment.len() as int)),
            facts,
        ) {
            Err(query) => Err(query),
            Ok(chunks) => Ok(Forced { chunks, lead: lead + fragment.subrange(0, at) }),
        },
    }
}

/// The tool calls that the text of a forced tool choice holds: its JSON, else what the
/// configured parser recognises, else the JSON at its end.
pub open spec fn forced_chunks(
    jail: JailedStreamView,
    format: ToolChoiceFormatView,
    content: Seq<char>,
    facts: ParserFactsView,
) -> Result<Forced, ParserQueryView> {
    let fragment = json_fragment(content);
    match json_chunks(format, controls_escaped(fragment), facts) {
        Err(query) => Err(query),
        Ok(chunks) => if chunks.len() > 0 {
            Ok(Forced { chunks, lead: json_lead(content) })
        } else {
            match native_chunks(jail, content, facts) {
                Err(query) => Err(query),
                Ok(chunks) => if chunks.len() > 0 {
                    Ok(Forced { chunks, lead: Seq::empty() })
                } else {
                    suffix_chunks(format, json_lead(content), fragment, facts)
                },
            }
        },
    }
}

/// A choice with reasoning, where there is any.
pub open spec fn with_reasoning(
    choice: ChatChoiceStreamView,
    reasoning: Seq<char>,
) -> ChatChoiceStreamView {
    if is_blank(reasoning) {
        choice
    } else {
        ChatChoiceStreamView {
            delta: ChatCompletionStreamResponseDeltaView {
                reasoning_content: Some(reasoning),
                ..choice.delta
            },
            ..choice
        }
    }
}

/// What is kept of the tool calls of a forced tool choice: only those of the
/// tool that is asked for, and of a named tool only the first.
pub open spec fn forced_kept(
    jail: JailedStreamView,
    format: ToolChoiceFormatView,
    chunks: Seq<ChatCompletionMessageToolCallChunkView>,
) -> Seq<ChatCompletionMessageToolCallChunkView> {
    let filtered = match jail.named_tool_name {
        Some(name) => chunks_named(chunks, name),
        None => chunks,
    };
    if format is SingleObject && filtered.len() > 1 {
        filtered.subrange(0, 1)
    } else {
        filtered
    }
}

/// The tool calls in the text of a forced tool choice, as a choice.
pub open spec fn forced_choice(
    jail: JailedStreamView,
    format: ToolChoiceFormatView,
    index: u32,
    content: Seq<char>,
    base: ChatChoiceStreamView,
    offset: int,
    facts: ParserFactsView,
) -> Result<ChatChoiceStreamView, ParserQueryView> {
    let assistant = Some(Role::Assistant);
    let nothing = text_choice(
        index,
        assistant,
        Seq::empty(),
        None,
        base.finish_reason,
        base.logprobs,
    );
    if format is SingleObject && offset > 0 {
        Ok(nothing)
    } else {
        match forced_chunks(jail, format, content, facts) {
            Err(query) => Err(query),
            Ok(found) => {
                let kept = forced_kept(jail, format, found.chunks);
                if kept.len() > 0 {
                    Ok(
                        with_reasoning(
                            text_choice(
                                index,
                                assistant,
                                Seq::empty(),
                                Some(renumbered(kept, offset)),
                                base.finish_reason,
                                base.logprobs,
                            ),
                            found.lead,
                        ),
                    )
                } else if jail.named_tool_name is Some && found.chunks.len() > 0 {
                    Ok(nothing)
                } else if format is ArrayOfTools && offset > 0 {
                    Ok(nothing)
                } else {
                    Ok(
                        text_choice(
                            index,
                            assistant,
                            content,
                            None,
                            base.finish_reason,
                            base.logprobs,
                        ),
                    )
                }
            },
        }
    }
}

/// The tool calls in the text of a jail, as a choice.
pub open spec fn call_choice(
    jail: JailedStreamView,
    index: u32,
    content: Seq<char>,
    base: ChatChoiceStreamView,
    offset: int,
    finalize: bool,
    facts: ParserFactsView,
) -> Result<ChatChoiceStreamView, ParserQueryView> {
    match jail.jail_mode {
        JailModeView::MarkerBased => marker_choice(
            jail,
            index,
            content,
            base,
            offset,
            finalize,
            facts,
        ),
        JailModeView::Immediate { format } => forced_choice(
            jail,
            format,
            index,
            content,
            base,
            offset,
            facts,
        ),
    }
}

/// The chunk for a tool call that a parser found.
fn call_chunk(call: &ToolCallResponse, index: usize) -> (r: ChatCompletionMessageToolCallChunk)
    ensures
        r.deep_view() == chunk_of(call.deep_view(), index as int),
{
    ChatCompletionMessageToolCallChunk {
        index: index as u32,
        id: Some(call.id.clone()),
        tool_type: Some(FunctionType::Function),
        function: Some(
            FunctionCallStream {
                name: Some(call.function.name.clone()),
                arguments: Some(call.function.arguments.clone()),
            },
        ),
    }
}

/// The chunks for tool calls, numbered from `offset`.
fn call_chunks(calls: &Vec<ToolCallResponse>, offset: usize) -> (r: Vec<
    ChatCompletionMessageToolCallChunk,
>)
    ensures
        r.deep_view() == chunks_of(calls.deep_view(), offset as int),
{
    let mut out: Vec<ChatCompletionMessageToolCallChunk> = Vec::new();
    let mut i: usize = 0;
    while i < calls.len()
        invariant
            i <= calls@.len(),
            out@.len() == i,
            forall|k: int|
                0 <= k < i ==> (#[trigger] out@[k]).deep_view() == chunk_of(
                    calls@[k].deep_view(),
                    offset + k,
                ),
        decreases calls@.len() - i,
    {
        out.push(call_chunk(&calls[i], offset.saturating_add(i)));
        i += 1;
    }
    assert(out.deep_view() =~= chunks_of(calls.deep_view(), offset as int));
    out
}

/// The chunks for tool calls before they are numbered.
fn unnumbered_chunks(calls: &Vec<ToolCallResponse>) -> (r: Vec<ChatCompletionMessageToolCallChunk>)
    ensures
        r.deep_view() == unnumbered(calls.deep_view()),
{
    let mut out: Vec<ChatCompletionMessageToolCallChunk> = Vec::new();
    let mut i: usize = 0;
    while i < calls.len()
        invariant
            i <= calls@.len(),
            out@.len() == i,
            forall|k: int|
                0 <= k < i ==> (#[trigger] out@[k]).deep_view() == chunk_of(
                    calls@[k].deep_view(),
                    0,
                ),
        decreases calls@.len() - i,
    {
        out.push(call_chunk(&calls[i], 0));
        i += 1;
    }
    assert(out.deep_view() =~= unnumbered(calls.deep_view()));
    out
}

/// The calls of the tool `name`.
fn keep_named(calls: &Vec<ToolCallResponse>, name: &str) -> (r: Vec<ToolCallResponse>)
    ensures
        r.deep_view() == calls_named(calls.deep_view(), name@),
{
    let ghost all = calls.deep_view();
    let mut out: Vec<ToolCallResponse> = no_items();
    let mut i: usize = 0;
    assert(all.subrange(0, 0) =~= Seq::empty());
    while i < calls.len()
        invariant
            all == calls.deep_view(),
            i <= calls@.len(),
            out.deep_view() == calls_named(all.subrange(0, i as int), name@),
        decreases calls@.len() - i,
    {
        let ghost next = all.subrange(0, i + 1);
        assert(next.subrange(0, next.len() - 1) =~= all.subrange(0, i as int));
        assert(next[next.len() - 1] == calls@[i as int].deep_view());
        if same_text(calls[i].function.name.as_str(), name) {
            push_item(&mut out, calls[i].duplicate());
        }
        i += 1;
    }
    assert(all.subrange(0, all.len() as int) =~= all);
    out
}

/// Whether `name` is one of the tools, or no tools are known.
fn known(tools: &Option<Vec<ToolDefinition>>, name: &str) -> (r: bool)
    ensures
        r == is_known(tools.deep_view(), name@),
{
    match tools {
        None => true,
        Some(list) => {
            let ghost all = list.deep_view();
            let mut i: usize = 0;
            while i < list.len()
                invariant
                    all == list.deep_view(),
                    tools.deep_view() == Some(all),
                    i <= list@.len(),
                    forall|k: int| 0 <= k < i ==> (#[trigger] all[k]).name != name@,
                decreases list@.len() - i,
            {
                if same_text(list[i].name.as_str(), name) {
                    assert(all[i as int].name == name@);
                    return true;
                }
                i += 1;
            }
            false
        },
    }
}

/// The calls of tools that are known.
fn keep_known(calls: &Vec<ToolCallResponse>, tools: &Option<Vec<ToolDefinition>>) -> (r: Vec<
    ToolCallResponse,
>)
    ensures
        r.deep_view() == known_calls(calls.deep_view(), tools.deep_view()),
{
    let ghost all = calls.deep_view();
    let mut out: Vec<ToolCallResponse> = no_items();
    let mut i: usize = 0;
    assert(all.subrange(0, 0) =~= Seq::empty());
    while i < calls.len()
        invariant
            all == calls.deep_view(),
            i <= calls@.len(),
            out.deep_view() == known_calls(all.subrange(0, i as int), tools.deep_view()),
        decreases calls@.len() - i,
    {
        let ghost next = all.subrange(0, i + 1);
        assert(next.subrange(0, next.len() - 1) =~= all.subrange(0, i as int));
        assert(next[next.len() - 1] == calls@[i as int].deep_view());
        if known(tools, calls[i].function.name.as_str()) {
            push_item(&mut out, calls[i].duplicate());
        }
        i += 1;
    }
    assert(all.subrange(0, all.len() as int) =~= all);
    out
}

/// The chunks of the tool `name`.
fn keep_chunks(chunks: Vec<ChatCompletionMessageToolCallChunk>, name: &str) -> (r: Vec<
    ChatCompletionMessageToolCallChunk,
>)
    ensures
        r.deep_view() == chunks_named(chunks.deep_view(), name@),
{
    let ghost all = chunks.deep_view();
    let mut out: Vec<ChatCompletionMessageToolCallChunk> = no_items();
    let mut i: usize = 0;
    assert(all.subrange(0, 0) =~= Seq::empty());
    while i < chunks.len()
        invariant
            all == chunks.deep_view(),
            i <= chunks@.len(),
            out.deep_view() == chunks_named(all.subrange(0, i as int), name@),
        decreases chunks@.len() - i,
    {
        let ghost next = all.subrange(0, i + 1);
        assert(next.subrange(0, next.len() - 1) =~= all.subrange(0, i as int));
        assert(next[next.len() - 1] == chunks@[i as int].deep_view());
        let matches_name: bool = match &chunks[i].function {
            Some(f) => match &f.name {
                Some(n) => same_text(n.as_str(), name),
                None => false,
            },
            None => false,
        };
        if matches_name {
            push_item(&mut out, chunks[i].duplicate());
        }
        i += 1;
    }
    assert(all.subrange(0, all.len() as int) =~= all);
    out
}

/// Numbers the chunks from `offset`.
fn renumber(chunks: Vec<ChatCompletionMessageToolCallChunk>, offset: usize) -> (r: Vec<
    ChatCompletionMessageToolCallChunk,
>)
    ensures
        r.deep_view() == renumbered(chunks.deep_view(), offset as int),
{
    let mut out: Vec<ChatCompletionMessageToolCallChunk> = Vec::new();
    let mut i: usize = 0;
    while i < chunks.len()
        invariant
            i <= chunks@.len(),
            out@.len() == i,
            forall|k: int|
                0 <= k < i ==> (#[trigger] out@[k]).deep_view() == (
                ChatCompletionMessageToolCallChunkView {
                    index: capped(offset + k) as u32,
                    ..chunks@[k].deep_view()
                }),
        decreases chunks@.len() - i,
    {
        let index: usize = offset.saturating_add(i);
        let mut chunk: ChatCompletionMessageToolCallChunk = chunks[i].duplicate();
        chunk.index = index as u32;
        out.push(chunk);
        i += 1;
    }
    assert(out.deep_view() =~= renumbered(chunks.deep_view(), offset as int));
    out
}

/// Whether the JSON of a forced tool choice is complete.
pub fn is_choice_complete(format: &ToolChoiceFormat, content: &str) -> (r: bool)
    ensures
        r == choice_complete(format.deep_view(), content@),
{
    let fragment: String = escape_json_string_control_chars(
        immediate_tool_choice_json_fragment(content).as_str(),
    );
    match (format, Json::parse(fragment.as_str())) {
        (ToolChoiceFormat::SingleObject { .. }, Some(value)) => value.is_object(),
        (ToolChoiceFormat::ArrayOfTools { .. }, Some(Json::Array(items))) => items.len() > 0,
        _ => false,
    }
}

impl JailedStream {
    /// Whether `content` starts a jail.
    pub fn should_start_jail(&self, content: &str, facts: &ParserFacts) -> (r: Result<
        bool,
        ParserQuery,
    >)
        ensures
            answer_matches(r, starts_jail(self.deep_view(), content@, facts.deep_view())),
    {
        let ghost sequences = self.jail_start_sequences.deep_view();
        let mut i: usize = 0;
        while i < self.jail_start_sequences.len()
            invariant
                sequences == self.jail_start_sequences.deep_view(),
                i <= self.jail_start_sequences@.len(),
                forall|k: int| 0 <= k < i ==> !contains_text(content@, #[trigger] sequences[k]),
            decreases self.jail_start_sequences@.len() - i,
        {
            if contains(content, self.jail_start_sequences[i].as_str()) {
                assert(contains_text(content@, sequences[i as int]));
                return Ok(true);
            }
            i += 1;
        }
        if self.tool_call_parser.is_none() {
            return Ok(false);
        }
        match find_answer(&facts.call_starts, content) {
            Some(found) => Ok(*found),
            None => Err(ParserQuery::CallStart { text: content.to_owned() }),
        }
    }

    /// Whether the parser finds complete tool calls, so that the jail may end early.
    pub fn should_exit_jail_early(&self, accumulated: &str, facts: &ParserFacts) -> (r: Result<
        bool,
        ParserQuery,
    >)
        ensures
            answer_matches(r, has_calls(self.deep_view(), accumulated@, facts.deep_view())),
    {
        if self.tool_call_parser.is_none() {
            return Ok(false);
        }
        match facts.calls(accumulated, false) {
            None => Err(ParserQuery::ToolCalls { text: accumulated.to_owned(), finalize: false }),
            Some(None) => Ok(false),
            Some(Some(parsed)) => Ok(parsed.calls.len() > 0),
        }
    }

    /// The end of the first end sequence, in the order in which they are configured.
    fn end_marker_position(&self, content: &str) -> (r: Option<usize>)
        ensures
            r matches Some(end) ==> end_marker(content@, self.deep_view().jail_end_sequences)
                == Some(end as int) && end <= content@.len(),
            r is None ==> end_marker(content@, self.deep_view().jail_end_sequences) is None,
    {
        let ghost all = self.jail_end_sequences.deep_view();
        let mut i: usize = 0;
        assert(all.subrange(0, all.len() as int) =~= all);
        while i < self.jail_end_sequences.len()
            invariant
                all == self.jail_end_sequences.deep_view(),
                i <= self.jail_end_sequences@.len(),
                end_marker(content@, all) == end_marker(
                    content@,
                    all.subrange(i as int, all.len() as int),
                ),
            decreases self.jail_end_sequences@.len() - i,
        {
            let ghost rest = all.subrange(i as int, all.len() as int);
            assert(rest[0] == self.jail_end_sequences@[i as int]@);
            assert(rest.subrange(1, rest.len() as int) =~= all.subrange(i + 1, all.len() as int));
            match find(content, self.jail_end_sequences[i].as_str()) {
                Some(pos) => {
                    let n: usize = self.jail_end_sequences[i].as_str().unicode_len();
                    return Some(pos + n);
                },
                None => {},
            }
            i += 1;
        }
        None
    }

    /// Whether the jail ends where the complete tool calls in `content` end.
    fn end_at_calls(&self, content: &str, facts: &ParserFacts) -> (r: Result<
        (bool, usize),
        ParserQuery,
    >)
        requires
            facts.deep_view().wf(),
        ensures
            end_matches(r, ends_at_calls(content@, facts.deep_view())),
            r matches Ok(p) ==> p.1 <= content@.len(),
    {
        proof {
            lemma_end_in_text(facts.deep_view().call_ends, content@);
        }
        match find_answer(&facts.call_ends, content) {
            None => Err(ParserQuery::CallEnd { text: content.to_owned() }),
            Some(Some(end)) => Ok((true, *end)),
            Some(None) => Ok((false, content.unicode_len())),
        }
    }

    /// Whether the jail ends, and where the jailed part of the content ends.
    pub fn should_end_jail(&self, accumulated_content: &str, facts: &ParserFacts) -> (r: Result<
        (bool, usize),
        ParserQuery,
    >)
        requires
            facts.deep_view().wf(),
        ensures
            end_matches(r, ends_jail(self.deep_view(), accumulated_content@, facts.deep_view())),
            r matches Ok(p) ==> p.1 <= accumulated_content@.len(),
    {
        let n: usize = accumulated_content.unicode_len();
        match &self.jail_mode {
            JailMode::MarkerBased => {
                match self.should_exit_jail_early(accumulated_content, facts) {
                    Err(query) => Err(query),
                    Ok(true) => self.end_at_calls(accumulated_content, facts),
                    Ok(false) => match self.end_marker_position(accumulated_content) {
                        Some(end) => Ok((true, end)),
                        None => Ok((false, n)),
                    },
                }
            },
            JailMode::Immediate { format } => {
                if is_choice_complete(format, accumulated_content) {
                    return Ok((true, n));
                }
                match self.should_exit_jail_early(accumulated_content, facts) {
                    Err(query) => Err(query),
                    Ok(true) => self.end_at_calls(accumulated_content, facts),
                    Ok(false) => Ok((false, n)),
                }
            },
        }
    }

    /// A chunk for a tool call with the new identifier `id`.
    pub fn create_tool_call_chunk(
        index: u32,
        id: &str,
        name: String,
        arguments: String,
    ) -> (r: ChatCompletionMessageToolCallChunk)
        ensures
            r.deep_view() == new_chunk(index, id@, name@, arguments@),
    {
        ChatCompletionMessageToolCallChunk {
            index,
            id: Some(join("call-", id)),
            tool_type: Some(FunctionType::Function),
            function: Some(
                FunctionCallStream { name: Some(name), arguments: Some(arguments) },
            ),
        }
    }

    /// The chunks for JSON tool calls between tags; nothing where the parser fails.
    pub fn parse_jsonish_tool_call_chunks(
        &self,
        accumulated_content: &str,
        tool_call_offset: usize,
        allow_eof_recovery: bool,
        facts: &ParserFacts,
    ) -> (r: Result<Option<Vec<ChatCompletionMessageToolCallChunk>>, ParserQuery>)
        ensures
            chunks_match(
                r,
                tagged_chunks(
                    self.deep_view(),
                    accumulated_content@,
                    tool_call_offset as int,
                    allow_eof_recovery,
                    facts.deep_view(),
                ),
            ),
    {
        match facts.tagged(accumulated_content, allow_eof_recovery) {
            None => Err(
                ParserQuery::TaggedJson {
                    text: accumulated_content.to_owned(),
                    recover: allow_eof_recovery,
                },
            ),
            Some(None) => Ok(None),
            Some(Some(parsed)) => {
                let known_ones: Vec<ToolCallResponse> = keep_known(
                    &parsed.calls,
                    &self.tool_definitions,
                );
                Ok(Some(call_chunks(&known_ones, tool_call_offset)))
            },
        }
    }
}

/// An answer, or the question that is open.
pub open spec fn answer_matches(
    r: Result<bool, ParserQuery>,
    expected: Result<bool, ParserQueryView>,
) -> bool {
    match (r, expected) {
        (Ok(a), Ok(b)) => a == b,
        (Err(query), Err(missing)) => query.deep_view() == missing,
        _ => false,
    }
}

/// An end of a jail, or the question that is open.
pub open spec fn end_matches(
    r: Result<(bool, usize), ParserQuery>,
    expected: Result<(bool, int), ParserQueryView>,
) -> bool {
    match (r, expected) {
        (Ok(a), Ok(b)) => a.0 == b.0 && a.1 == b.1,
        (Err(query), Err(missing)) => query.deep_view() == missing,
        _ => false,
    }
}

/// Chunks that were looked for, or the question that is open.
pub open spec fn chunks_match(
    r: Result<Option<Vec<ChatCompletionMessageToolCallChunk>>, ParserQuery>,
    expected: Result<Option<Seq<ChatCompletionMessageToolCallChunkView>>, ParserQueryView>,
) -> bool {
    match (r, expected) {
        (Ok(a), Ok(b)) => a.deep_view() == b,
        (Err(query), Err(missing)) => query.deep_view() == missing,
        _ => false,
    }
}

/// A choice, or the question that is open.
pub open spec fn choice_matches(
    r: Result<ChatChoiceStream, ParserQuery>,
    expected: Result<ChatChoiceStreamView, ParserQueryView>,
) -> bool {
    match (r, expected) {
        (Ok(a), Ok(b)) => a.deep_view() == b,
        (Err(query), Err(missing)) => query.deep_view() == missing,
        _ => false,
    }
}

/// The chunks for the entries of a tool-call array.
fn array_chunks(entries: &Vec<Json>, ids: &Vec<String>) -> (r: Result<
    Vec<ChatCompletionMessageToolCallChunk>,
    ParserQuery,
>)
    ensures
        match (r, entry_chunks(Json::Array(*entries)@->Array_0, ids.deep_view())) {
            (Ok(a), Ok(b)) => a.deep_view() == b,
            (Err(query), Err(missing)) => query.deep_view() == missing,
            _ => false,
        },
{
    let ghost all = Json::Array(*entries)@->Array_0;
    let mut out: Vec<ChatCompletionMessageToolCallChunk> = no_items();
    let mut i: usize = 0;
    assert(all.subrange(0, 0) =~= Seq::empty());
    while i < entries.len()
        invariant
            all == Json::Array(*entries)@->Array_0,
            all.len() == entries@.len(),
            i <= entries@.len(),
            entry_chunks(all.subrange(0, i as int), ids.deep_view()) == Ok::<
                Seq<ChatCompletionMessageToolCallChunkView>,
                ParserQueryView,
            >(out.deep_view()),
        decreases entries@.len() - i,
    {
        let ghost next = all.subrange(0, i + 1);
        assert(next.subrange(0, next.len() - 1) =~= all.subrange(0, i as int));
        assert(next[next.len() - 1] == entries@[i as int]@);
        let entry: &Json = &entries[i];
        let name: Option<&str> = match entry.get("name") {
            Some(name) => name.as_str(),
            None => None,
        };
        match (name, entry.get("parameters")) {
            (Some(name), Some(parameters)) => {
                assert(entry_call(next[next.len() - 1]) == Some((name@, json_text(parameters@))));
                if out.len() >= ids.len() {
                    proof {
                        lemma_entry_chunks_missing(all, i as int, ids.deep_view());
                    }
                    return Err(ParserQuery::FreshId);
                }
                let chunk: ChatCompletionMessageToolCallChunk =
                    JailedStream::create_tool_call_chunk(
                    i as u32,
                    ids[out.len()].as_str(),
                    name.to_owned(),
                    parameters.to_text(),
                );
                push_item(&mut out, chunk);
            },
            _ => {
                assert(entry_call(next[next.len() - 1]) is None);
            },
        }
        i += 1;
    }
    assert(all.subrange(0, all.len() as int) =~= all);
    Ok(out)
}

/// Where an identifier is missing for one entry, it is missing for the array.
proof fn lemma_entry_chunks_missing(entries: Seq<JsonView>, i: int, ids: Seq<Seq<char>>)
    requires
        0 <= i < entries.len(),
        entry_chunks(entries.subrange(0, i + 1), ids) is Err,
    ensures
        entry_chunks(entries, ids) == entry_chunks(entries.subrange(0, i + 1), ids),
    decreases entries.len(),
{
    let n = entries.len() - 1;
    if i == n {
        assert(entries.subrange(0, i + 1) =~= entries);
    } else {
        let front = entries.subrange(0, n);
        assert(front.subrange(0, i + 1) =~= entries.subrange(0, i + 1));
        lemma_entry_chunks_missing(front, i, ids);
    }
}

impl JailedStream {
    /// The chunks for the JSON of a forced tool choice; nothing where it is no JSON.
    pub fn parse_tool_choice_json(
        &self,
        json_content: &str,
        format: &ToolChoiceFormat,
        facts: &ParserFacts,
    ) -> (r: Result<Option<Vec<ChatCompletionMessageToolCallChunk>>, ParserQuery>)
        ensures
            chunks_match(
                r,
                choice_chunks(json_content@, format.deep_view(), facts.deep_view()),
            ),
    {
        let value: Json = match Json::parse(json_content) {
            Some(value) => value,
            None => {
                return Ok(None);
            },
        };
        match format {
            ToolChoiceFormat::SingleObject { tool_name } => {
                if !value.is_object() {
                    return Ok(Some(no_items()));
                }
                if facts.fresh_ids.len() == 0 {
                    return Err(ParserQuery::FreshId);
                }
                let chunk: ChatCompletionMessageToolCallChunk = Self::create_tool_call_chunk(
                    0,
                    facts.fresh_ids[0].as_str(),
                    tool_name.clone(),
                    json_content.to_owned(),
                );
                Ok(Some(one_item(chunk)))
            },
            ToolChoiceFormat::ArrayOfTools { .. } => match &value {
                Json::Array(entries) => match array_chunks(entries, &facts.fresh_ids) {
                    Ok(chunks) => Ok(Some(chunks)),
                    Err(query) => Err(query),
                },
                _ => Ok(Some(no_items())),
            },
        }
    }

    /// The tool calls that the JSON of a forced tool choice holds.
    fn find_json_chunks(
        &self,
        format: &ToolChoiceFormat,
        json: &str,
        facts: &ParserFacts,
    ) -> (r: Result<Vec<ChatCompletionMessageToolCallChunk>, ParserQuery>)
        ensures
            match (r, json_chunks(format.deep_view(), json@, facts.deep_view())) {
                (Ok(a), Ok(b)) => a.deep_view() == b,
                (Err(query), Err(missing)) => query.deep_view() == missing,
                _ => false,
            },
    {
        match facts.bare(json, false) {
            None => {
                return Err(ParserQuery::BareJson { text: json.to_owned(), recover: false });
            },
            Some(Some(parsed)) => {
                if parsed.calls.len() > 0 {
                    return Ok(unnumbered_chunks(&parsed.calls));
                }
            },
            Some(None) => {},
        }
        match self.parse_tool_choice_json(json, format, facts) {
            Err(query) => Err(query),
            Ok(Some(chunks)) => Ok(chunks),
            Ok(None) => Ok(no_items()),
        }
    }

    /// The tool calls that the configured parser recognises in the text of a forced
    /// tool choice.
    fn find_native_chunks(&self, content: &str, facts: &ParserFacts) -> (r: Result<
        Vec<ChatCompletionMessageToolCallChunk>,
        ParserQuery,
    >)
        ensures
            match (r, native_chunks(self.deep_view(), content@, facts.deep_view())) {
                (Ok(a), Ok(b)) => a.deep_view() == b,
                (Err(query), Err(missing)) => query.deep_view() == missing,
                _ => false,
            },
    {
        if self.tool_call_parser.is_none() {
            return Ok(no_items());
        }
        match facts.calls(content, false) {
            None => Err(ParserQuery::ToolCalls { text: content.to_owned(), finalize: false }),
            Some(None) => Ok(no_items()),
            Some(Some(parsed)) => Ok(unnumbered_chunks(&parsed.calls)),
        }
    }

    /// The tool calls that the text of a forced tool choice holds, and the reasoning in
    /// front of them.
    fn find_forced_chunks(
        &self,
        format: &ToolChoiceFormat,
        content: &str,
        facts: &ParserFacts,
    ) -> (r: Result<(Vec<ChatCompletionMessageToolCallChunk>, String), ParserQuery>)
        ensures
            match (
                r,
                forced_chunks(self.deep_view(), format.deep_view(), content@, facts.deep_view()),
            ) {
                (Ok(a), Ok(b)) => a.0.deep_view() == b.chunks && a.1@ == b.lead,
                (Err(query), Err(missing)) => query.deep_view() == missing,
                _ => false,
            },
    {
        let fragment: String = immediate_tool_choice_json_fragment(content);
        let json: String = escape_json_string_control_chars(fragment.as_str());
        match self.find_json_chunks(format, json.as_str(), facts) {
            Err(query) => {
                return Err(query);
            },
            Ok(chunks) => {
                if chunks.len() > 0 {
                    return Ok((chunks, immediate_tool_choice_reasoning(content)));
                }
            },
        }
        match self.find_native_chunks(content, facts) {
            Err(query) => {
                return Err(query);
            },
            Ok(chunks) => {
                if chunks.len() > 0 {
                    return Ok((chunks, String::new()));
                }
            },
        }
        match find_json_start(fragment.as_str()) {
            None => Ok((no_items(), String::new())),
            Some(at) => {
                let n: usize = fragment.as_str().unicode_len();
                let suffix: String = escape_json_string_control_chars(
                    slice_of(fragment.as_str(), at, n).as_str(),
                );
                match self.find_json_chunks(format, suffix.as_str(), facts) {
                    Err(query) => Err(query),
                    Ok(chunks) => {
                        let front: String = slice_of(fragment.as_str(), 0, at);
                        let lead: String = immediate_tool_choice_reasoning(content);
                        Ok((chunks, join(lead.as_str(), front.as_str())))
                    },
                }
            },
        }
    }

    /// The tool calls in the text of a marker-based jail, as a choice.
    fn create_marker_choice(
        &self,
        choice_index: u32,
        accumulated_content: &str,
        base_choice: &ChatChoiceStream,
        tool_call_offset: usize,
        is_finalize: bool,
        facts: &ParserFacts,
    ) -> (r: Result<ChatChoiceStream, ParserQuery>)
        ensures
            choice_matches(
                r,
                marker_choice(
                    self.deep_view(),
                    choice_index,
                    accumulated_content@,
                    base_choice.deep_view(),
                    tool_call_offset as int,
                    is_finalize,
                    facts.deep_view(),
                ),
            ),
    {
        let assistant: Option<Role> = Some(Role::Assistant);
        proof {
            reveal_strlit("");
            assert(""@ =~= Seq::<char>::empty());
        }
        let parsed: &Option<ParsedToolCalls> = match facts.calls(accumulated_content, is_finalize) {
            Some(parsed) => parsed,
            None => {
                return Err(
                    ParserQuery::ToolCalls {
                        text: accumulated_content.to_owned(),
                        finalize: is_finalize,
                    },
                );
            },
        };
        match parsed {
            Some(p) => {
                if p.calls.len() > 0 {
                    let kept: Vec<ToolCallResponse> = match &self.named_tool_name {
                        Some(name) => keep_named(&p.calls, name.as_str()),
                        None => p.calls.duplicate(),
                    };
                    let text: &str = match &p.normal_text {
                        Some(text) => text.as_str(),
                        None => "",
                    };
                    if kept.len() == 0 {
                        return Ok(
                            create_choice_stream(
                                choice_index,
                                assistant,
                                text,
                                None,
                                base_choice.finish_reason,
                                base_choice.logprobs.duplicate(),
                            ),
                        );
                    }
                    let chunks: Vec<ChatCompletionMessageToolCallChunk> = call_chunks(
                        &kept,
                        tool_call_offset,
                    );
                    return Ok(
                        create_choice_stream(
                            choice_index,
                            assistant,
                            text,
                            Some(chunks),
                            None,
                            base_choice.logprobs.duplicate(),
                        ),
                    );
                }
            },
            None => {},
        }
        match self.parse_jsonish_tool_call_chunks(
            accumulated_content,
            tool_call_offset,
            is_finalize,
            facts,
        ) {
            Err(query) => {
                return Err(query);
            },
            Ok(Some(chunks)) => {
                if chunks.len() > 0 {
                    let kept: Vec<ChatCompletionMessageToolCallChunk> = match &self.named_tool_name {
                        Some(name) => renumber(
                            keep_chunks(chunks, name.as_str()),
                            tool_call_offset,
                        ),
                        None => chunks,
                    };
                    if kept.len() == 0 {
                        return Ok(
                            create_choice_stream(
                                choice_index,
                                assistant,
                                "",
                                None,
                                base_choice.finish_reason,
                                base_choice.logprobs.duplicate(),
                            ),
                        );
                    }
                    return Ok(
                        create_choice_stream(
                            choice_index,
                            assistant,
                            "",
                            Some(kept),
                            None,
                            base_choice.logprobs.duplicate(),
                        ),
                    );
                }
            },
            Ok(None) => {},
        }
        // Where the parser failed or saw an unfinished call, the text still holds
        // the markup of the call and is dropped.
        let dropped: bool = match parsed {
            Some(p) => match &p.normal_text {
                Some(text) => text.as_str().is_empty(),
                None => false,
            },
            None => true,
        };
        proof {
            if parsed is Some && parsed->0.normal_text is Some {
                let text = parsed->0.normal_text->0@;
                assert(text.len() == 0 ==> text =~= Seq::<char>::empty());
            }
        }
        let text: &str = if dropped {
            ""
        } else {
            accumulated_content
        };
        Ok(
            create_choice_stream(
                choice_index,
                assistant,
                text,
                None,
                base_choice.finish_reason,
                base_choice.logprobs.duplicate(),
            ),
        )
    }

    /// The tool calls in the text of a forced tool choice, as a choice.
    fn create_forced_choice(
        &self,
        format: &ToolChoiceFormat,
        choice_index: u32,
        accumulated_content: &str,
        base_choice: &ChatChoiceStream,
        tool_call_offset: usize,
        facts: &ParserFacts,
    ) -> (r: Result<ChatChoiceStream, ParserQuery>)
        ensures
            choice_matches(
                r,
                forced_choice(
                    self.deep_view(),
                    format.deep_view(),
                    choice_index,
                    accumulated_content@,
                    base_choice.deep_view(),
                    tool_call_offset as int,
                    facts.deep_view(),
                ),
            ),
    {
        let assistant: Option<Role> = Some(Role::Assistant);
        proof {
            reveal_strlit("");
            assert(""@ =~= Seq::<char>::empty());
        }
        let is_named: bool = match format {
            ToolChoiceFormat::SingleObject { .. } => true,
            ToolChoiceFormat::ArrayOfTools { .. } => false,
        };
        if is_named && tool_call_offset > 0 {
            return Ok(
                create_choice_stream(
                    choice_index,
                    assistant,
                    "",
                    None,
                    base_choice.finish_reason,
                    base_choice.logprobs.duplicate(),
                ),
            );
        }
        let (found, lead): (Vec<ChatCompletionMessageToolCallChunk>, String) =
            match self.find_forced_chunks(format, accumulated_content, facts) {
            Ok(found) => found,
            Err(query) => {
                return Err(query);
            },
        };
        let found_some: bool = found.len() > 0;
        let ghost found_view = found.deep_view();
        let mut kept: Vec<ChatCompletionMessageToolCallChunk> = match &self.named_tool_name {
            Some(name) => keep_chunks(found, name.as_str()),
            None => found,
        };
        if is_named && kept.len() > 1 {
            let ghost before = kept.deep_view();
            kept.truncate(1);
            assert(kept.deep_view() =~= before.subrange(0, 1));
        }
        assert(kept.deep_view() == forced_kept(
            self.deep_view(),
            format.deep_view(),
            found_view,
        ));
        if kept.len() > 0 {
            let chunks: Vec<ChatCompletionMessageToolCallChunk> = renumber(kept, tool_call_offset);
            let mut made: ChatChoiceStream = create_choice_stream(
                choice_index,
                assistant,
                "",
                Some(chunks),
                base_choice.finish_reason,
                base_choice.logprobs.duplicate(),
            );
            if !blank(lead.as_str()) {
                made.delta.reasoning_content = Some(lead);
            }
            return Ok(made);
        }
        let filter_dropped_all: bool = self.named_tool_name.is_some() && found_some;
        let text: &str = if filter_dropped_all || (!is_named && tool_call_offset > 0) {
            ""
        } else {
            accumulated_content
        };
        Ok(
            create_choice_stream(
                choice_index,
                assistant,
                text,
                None,
                base_choice.finish_reason,
                base_choice.logprobs.duplicate(),
            ),
        )
    }

    /// Parse tool calls from accumulated content and create a choice.
    ///
    /// `is_finalize` selects the recovery of calls that the end of the text cut
    /// off. Streaming callers pass `false`; the stream-end path passes `true`.
    pub fn create_tool_call_choice(
        &self,
        choice_index: u32,
        accumulated_content: &str,
        base_choice: &ChatChoiceStream,
        tool_call_offset: usize,
        is_finalize: bool,
        facts: &ParserFacts,
    ) -> (r: Result<ChatChoiceStream, ParserQuery>)
        ensures
            choice_matches(
                r,
                call_choice(
                    self.deep_view(),
                    choice_index,
                    accumulated_content@,
                    base_choice.deep_view(),
                    tool_call_offset as int,
                    is_finalize,
                    facts.deep_view(),
                ),
            ),
    {
        match &self.jail_mode {
            JailMode::MarkerBased => self.create_marker_choice(
                choice_index,
                accumulated_content,
                base_choice,
                tool_call_offset,
                is_finalize,
                facts,
            ),
            JailMode::Immediate { format } => self.create_forced_choice(
                format,
                choice_index,
                accumulated_content,
                base_choice,
                tool_call_offset,
                facts,
            ),
        }
    }
}

} // verus!
