//! Incremental parsing of the `poolside_v1` tool-call markup.
//!
//! ```text
//! <tool_call>name
//! <arg_key>key</arg_key><arg_value>value</arg_value>
//! </tool_call>
//! ```
//!
//! Text outside tool calls is released as soon as it cannot be the start of a
//! tag. The name of a tool call is released when it is complete. Arguments that
//! the tool's schema declares as strings are released while they arrive; other
//! arguments when they are complete.

use crate::chat_types::{
    ChatCompletionMessageToolCallChunk, ChatCompletionMessageToolCallChunkView, FunctionCallStream,
    FunctionCallStreamView, FunctionType, ToolDefinition, ToolDefinitionView,
};
use crate::copy::{push_item, Duplicate};
use crate::json::{member, Json, JsonView};
use crate::json_text::{json_escape_string_content, json_escaped, json_quoted, quote};
use crate::parser_facts::{
    answer_about, find_answer, ParserFacts, ParserFactsView, ParserQuery, ParserQueryView,
};
use crate::text::{
    append_optional, append_optional_spec, count_occurrences, find, find_text, join,
    lemma_fewer_occurrences, lemma_find_text, lemma_more_occurrences, lemma_occurrence_passed,
    lemma_safe_len, occurrences, occurs_at, safe_len, safe_len_before_partial_suffix, same_text,
    slice_of, trim, trim_spec,
};
use vstd::prelude::*;

verus! {

pub const TOOL_CALL_START: &'static str = "<tool_call>";

pub const TOOL_CALL_END: &'static str = "</tool_call>";

pub const ARG_KEY_START: &'static str = "<arg_key>";

pub const ARG_KEY_END: &'static str = "</arg_key>";

pub const ARG_VALUE_START: &'static str = "<arg_value>";

pub const ARG_VALUE_END: &'static str = "</arg_value>";

/// What was released of one tool call.
#[derive(Debug, PartialEq, Eq)]
pub struct PoolsideTool {
    pub id: String,
    /// The argument text released so far.
    pub streamed_args: String,
    pub args_started: bool,
    pub args_closed: bool,
    /// The argument names that were released; none comes twice.
    pub seen_keys: Vec<String>,
}

/// The content of a [`PoolsideTool`].
#[verifier::ext_equal]
pub struct PoolsideToolView {
    pub id: Seq<char>,
    pub streamed_args: Seq<char>,
    pub args_started: bool,
    pub args_closed: bool,
    pub seen_keys: Seq<Seq<char>>,
}

impl DeepView for PoolsideTool {
    type V = PoolsideToolView;

    open spec fn deep_view(&self) -> PoolsideToolView {
        PoolsideToolView {
            id: self.id.deep_view(),
            streamed_args: self.streamed_args.deep_view(),
            args_started: self.args_started.deep_view(),
            args_closed: self.args_closed.deep_view(),
            seen_keys: self.seen_keys.deep_view(),
        }
    }
}

impl Duplicate for PoolsideTool {
    fn duplicate(&self) -> (r: Self) {
        PoolsideTool {
            id: self.id.duplicate(),
            streamed_args: self.streamed_args.duplicate(),
            args_started: self.args_started.duplicate(),
            args_closed: self.args_closed.duplicate(),
            seen_keys: self.seen_keys.duplicate(),
        }
    }
}

/// What a piece of text releases.
#[derive(Debug, PartialEq, Eq)]
pub struct PoolsideV1StreamDelta {
    pub content: Option<String>,
    pub tool_calls: Vec<ChatCompletionMessageToolCallChunk>,
}

/// The content of a [`PoolsideV1StreamDelta`].
#[verifier::ext_equal]
pub struct PoolsideV1StreamDeltaView {
    pub content: Option<Seq<char>>,
    pub tool_calls: Seq<ChatCompletionMessageToolCallChunkView>,
}

impl DeepView for PoolsideV1StreamDelta {
    type V = PoolsideV1StreamDeltaView;

    open spec fn deep_view(&self) -> PoolsideV1StreamDeltaView {
        PoolsideV1StreamDeltaView {
            content: self.content.deep_view(),
            tool_calls: self.tool_calls.deep_view(),
        }
    }
}

/// The state of the parser between two pieces of text.
#[derive(Debug, PartialEq, Eq)]
pub struct PoolsideV1StreamState {
    /// Text that was received and is not used yet.
    pub buffer: String,
    pub in_tool_call: bool,
    pub current_tool_name_sent: bool,
    /// The position of the last tool call; -1 before the first.
    pub current_tool_id: i32,
    pub current_tool_name: Option<String>,
    pub pending_key: Option<String>,
    pub streaming_string_value: bool,
    pub tools: Vec<PoolsideTool>,
}

/// The content of a [`PoolsideV1StreamState`].
#[verifier::ext_equal]
pub struct PoolsideV1StreamStateView {
    pub buffer: Seq<char>,
    pub in_tool_call: bool,
    pub current_tool_name_sent: bool,
    pub current_tool_id: i32,
    pub current_tool_name: Option<Seq<char>>,
    pub pending_key: Option<Seq<char>>,
    pub streaming_string_value: bool,
    pub tools: Seq<PoolsideToolView>,
}

impl DeepView for PoolsideV1StreamState {
    type V = PoolsideV1StreamStateView;

    open spec fn deep_view(&self) -> PoolsideV1StreamStateView {
        PoolsideV1StreamStateView {
            buffer: self.buffer.deep_view(),
            in_tool_call: self.in_tool_call.deep_view(),
            current_tool_name_sent: self.current_tool_name_sent.deep_view(),
            current_tool_id: self.current_tool_id.deep_view(),
            current_tool_name: self.current_tool_name.deep_view(),
            pending_key: self.pending_key.deep_view(),
            streaming_string_value: self.streaming_string_value.deep_view(),
            tools: self.tools.deep_view(),
        }
    }
}

impl Duplicate for PoolsideV1StreamState {
    fn duplicate(&self) -> (r: Self) {
        PoolsideV1StreamState {
            buffer: self.buffer.duplicate(),
            in_tool_call: self.in_tool_call.duplicate(),
            current_tool_name_sent: self.current_tool_name_sent.duplicate(),
            current_tool_id: self.current_tool_id.duplicate(),
            current_tool_name: self.current_tool_name.duplicate(),
            pending_key: self.pending_key.duplicate(),
            streaming_string_value: self.streaming_string_value.duplicate(),
            tools: self.tools.duplicate(),
        }
    }
}

/// The fields of a tool call that just began.
pub open spec fn new_tool(id: Seq<char>) -> PoolsideToolView {
    PoolsideToolView {
        id,
        streamed_args: Seq::empty(),
        args_started: false,
        args_closed: false,
        seen_keys: Seq::empty(),
    }
}

impl PoolsideV1StreamStateView {
    /// The state before any text.
    pub open spec fn initial() -> Self {
        PoolsideV1StreamStateView {
            buffer: Seq::empty(),
            in_tool_call: false,
            current_tool_name_sent: false,
            current_tool_id: (-1) as i32,
            current_tool_name: None,
            pending_key: None,
            streaming_string_value: false,
            tools: Seq::empty(),
        }
    }

    /// There is one entry per tool call, and one for the call that is open.
    pub open spec fn wf(self) -> bool {
        &&& self.tools.len() == self.current_tool_id + 1
        &&& self.in_tool_call ==> self.tools.len() > 0
    }

    /// How many tool calls there can be once `text` is read: those that there are, and
    /// one for every start tag that is not read yet.
    pub open spec fn calls_with(self, text: Seq<char>) -> nat {
        self.tools.len() + occurrences(self.buffer + text, TOOL_CALL_START@)
    }

    /// The tool calls can be numbered until `text` is read.
    pub open spec fn has_room(self, text: Seq<char>) -> bool {
        self.calls_with(text) <= i32::MAX + 1
    }

    /// The position of the current tool call.
    pub open spec fn index(self) -> int {
        if self.current_tool_id < 0 {
            0
        } else {
            self.current_tool_id as int
        }
    }

    /// The current tool call.
    pub open spec fn tool(self) -> PoolsideToolView {
        self.tools[self.index()]
    }

    /// Without the first `n` characters of the buffer.
    pub open spec fn drained(self, n: int) -> Self {
        PoolsideV1StreamStateView {
            buffer: self.buffer.subrange(n, self.buffer.len() as int),
            ..self
        }
    }

    /// With the current tool call replaced.
    pub open spec fn with_tool(self, tool: PoolsideToolView) -> Self {
        PoolsideV1StreamStateView { tools: self.tools.update(self.index(), tool), ..self }
    }

    /// A tool call opens.
    pub open spec fn begun(self, id: Seq<char>) -> Self {
        PoolsideV1StreamStateView {
            current_tool_id: (self.current_tool_id + 1) as i32,
            tools: self.tools.push(new_tool(id)),
            current_tool_name_sent: false,
            current_tool_name: None,
            pending_key: None,
            streaming_string_value: false,
            in_tool_call: true,
            ..self
        }
    }

    /// The open tool call ends.
    pub open spec fn finished(self) -> Self {
        PoolsideV1StreamStateView {
            in_tool_call: false,
            current_tool_name: None,
            pending_key: None,
            streaming_string_value: false,
            ..self
        }
    }

    /// The last tool call is forgotten.
    pub open spec fn reverted(self) -> Self {
        if self.current_tool_id < 0 {
            self
        } else {
            PoolsideV1StreamStateView {
                tools: self.tools.subrange(0, self.tools.len() - 1),
                current_tool_id: (self.current_tool_id - 1) as i32,
                ..self
            }
        }
    }

    /// `fragment` is added to the arguments of the current tool call.
    pub open spec fn with_args(self, fragment: Seq<char>) -> Self {
        self.with_tool(
            PoolsideToolView { streamed_args: self.tool().streamed_args + fragment, ..self.tool() },
        )
    }

    /// The text that opens the argument `key`, up to its value.
    pub open spec fn key_fragment(self, key: Seq<char>) -> Seq<char> {
        (if self.tool().args_started {
            seq![',']
        } else {
            seq!['{']
        }) + json_quoted(key) + seq![':']
    }

    /// The argument `key` counts as released, and the arguments as started.
    pub open spec fn with_key(self, key: Seq<char>) -> Self {
        self.with_tool(
            PoolsideToolView {
                args_started: true,
                seen_keys: self.tool().seen_keys.push(key),
                ..self.tool()
            },
        )
    }

    /// What closes the arguments; nothing where they are closed.
    pub open spec fn closing(self) -> Option<Seq<char>> {
        if self.tool().args_closed {
            None
        } else if self.tool().args_started {
            Some(seq!['}'])
        } else {
            Some(seq!['{', '}'])
        }
    }

    /// With the arguments closed.
    pub open spec fn closed(self) -> Self {
        if self.tool().args_closed {
            self
        } else {
            self.with_tool(
                PoolsideToolView {
                    args_closed: true,
                    streamed_args: if self.tool().args_started {
                        self.tool().streamed_args + seq!['}']
                    } else {
                        seq!['{', '}']
                    },
                    ..self.tool()
                },
            )
        }
    }
}

/// A chunk for the tool call at `index` with nothing in it.
pub open spec fn empty_chunk(index: u32) -> ChatCompletionMessageToolCallChunkView {
    ChatCompletionMessageToolCallChunkView {
        index,
        id: None,
        tool_type: None,
        function: Some(FunctionCallStreamView { name: None, arguments: None }),
    }
}

/// The chunks with one for the tool call at `index` at the end.
pub open spec fn opened(
    pending: Seq<ChatCompletionMessageToolCallChunkView>,
    index: u32,
) -> Seq<ChatCompletionMessageToolCallChunkView> {
    if pending.len() > 0 && pending[pending.len() - 1].index == index {
        pending
    } else {
        pending.push(empty_chunk(index))
    }
}

/// The function part of a chunk, empty where there is none.
pub open spec fn function_of(
    chunk: ChatCompletionMessageToolCallChunkView,
) -> FunctionCallStreamView {
    match chunk.function {
        Some(f) => f,
        None => FunctionCallStreamView { name: None, arguments: None },
    }
}

/// The argument text of a chunk, empty where there is none.
pub open spec fn arguments_of(chunk: ChatCompletionMessageToolCallChunkView) -> Seq<char> {
    match function_of(chunk).arguments {
        Some(a) => a,
        None => Seq::empty(),
    }
}

/// The chunks with the identifier and name of the tool call at `index`.
pub open spec fn named(
    pending: Seq<ChatCompletionMessageToolCallChunkView>,
    index: u32,
    id: Seq<char>,
    name: Seq<char>,
) -> Seq<ChatCompletionMessageToolCallChunkView> {
    let all = opened(pending, index);
    let last = all.len() - 1;
    all.update(
        last,
        ChatCompletionMessageToolCallChunkView {
            id: Some(id),
            tool_type: Some(FunctionType::Function),
            function: Some(
                FunctionCallStreamView {
                    name: Some(name),
                    arguments: Some(arguments_of(all[last])),
                },
            ),
            ..all[last]
        },
    )
}

/// The chunks with `fragment` added to the arguments of the tool call at `index`.
pub open spec fn argued(
    pending: Seq<ChatCompletionMessageToolCallChunkView>,
    index: u32,
    fragment: Seq<char>,
) -> Seq<ChatCompletionMessageToolCallChunkView> {
    let all = opened(pending, index);
    let last = all.len() - 1;
    all.update(
        last,
        ChatCompletionMessageToolCallChunkView {
            function: Some(
                FunctionCallStreamView {
                    name: function_of(all[last]).name,
                    arguments: Some(arguments_of(all[last]) + fragment),
                },
            ),
            ..all[last]
        },
    )
}

/// The schema of `tool_name` declares the argument `arg_name` as a string.
pub open spec fn declared_string(
    tools: Option<Seq<ToolDefinitionView>>,
    tool_name: Seq<char>,
    arg_name: Seq<char>,
) -> bool {
    match tools {
        Some(list) => match tool_named(list, tool_name) {
            Some(tool) => match tool.parameters {
                Some(schema) => match member(schema, "properties"@) {
                    Some(properties) => match member(properties, arg_name) {
                        Some(arg) => member(arg, "type"@) == Some(JsonView::Text("string"@)),
                        None => false,
                    },
                    None => false,
                },
                None => false,
            },
            None => false,
        },
        None => false,
    }
}

/// The first tool of that name.
pub open spec fn tool_named(list: Seq<ToolDefinitionView>, name: Seq<char>) -> Option<
    ToolDefinitionView,
>
    decreases list.len(),
{
    if list.len() == 0 {
        None
    } else if list[0].name == name {
        Some(list[0])
    } else {
        tool_named(list.subrange(1, list.len() as int), name)
    }
}

/// The parser at work: its state, what it released, and how many new
/// identifiers it used.
#[verifier::ext_equal]
pub struct PoolsideRun {
    pub state: PoolsideV1StreamStateView,
    pub delta: PoolsideV1StreamDeltaView,
    pub used_ids: int,
}

impl PoolsideRun {
    /// With another state.
    pub open spec fn at(self, state: PoolsideV1StreamStateView) -> Self {
        PoolsideRun { state, ..self }
    }

    /// With `text` released outside tool calls.
    pub open spec fn released(self, text: Seq<char>) -> Self {
        PoolsideRun {
            delta: PoolsideV1StreamDeltaView {
                content: append_optional_spec(self.delta.content, text),
                ..self.delta
            },
            ..self
        }
    }

    /// With `fragment` released as arguments of the current tool call.
    pub open spec fn argument(self, fragment: Seq<char>) -> Self {
        PoolsideRun {
            delta: PoolsideV1StreamDeltaView {
                tool_calls: argued(
                    self.delta.tool_calls,
                    self.state.index() as u32,
                    fragment,
                ),
                ..self.delta
            },
            ..self
        }
    }

    /// With the name of the current tool call released.
    pub open spec fn name_sent(self, name: Seq<char>) -> Self {
        PoolsideRun {
            delta: PoolsideV1StreamDeltaView {
                tool_calls: named(
                    self.delta.tool_calls,
                    self.state.index() as u32,
                    self.state.tool().id,
                    name,
                ),
                ..self.delta
            },
            ..self
        }
    }
}

/// Where one step of the parser leads.
pub enum PoolsideOutcome {
    /// More of the buffer may be usable.
    Again(PoolsideRun),
    /// Nothing more can be done before more text arrives.
    Paused(PoolsideRun),
    /// An answer is missing.
    Missing(ParserQueryView),
}

/// The smaller of two positions that may be absent.
pub open spec fn earlier(a: Option<int>, b: Option<int>) -> Option<int> {
    match (a, b) {
        (Some(x), Some(y)) => Some(
            if x <= y {
                x
            } else {
                y
            },
        ),
        (Some(x), None) => Some(x),
        (None, y) => y,
    }
}

/// Outside tool calls: release text up to the next tool call.
pub open spec fn step_outside(run: PoolsideRun, facts: ParserFactsView) -> PoolsideOutcome {
    let s = run.state;
    match find_text(s.buffer, TOOL_CALL_START@) {
        None => {
            let n = safe_len(s.buffer, TOOL_CALL_START@);
            PoolsideOutcome::Paused(run.released(s.buffer.subrange(0, n)).at(s.drained(n)))
        },
        Some(i) => if run.used_ids < facts.fresh_ids.len() {
            let next = run.released(s.buffer.subrange(0, i)).at(
                s.drained(i + TOOL_CALL_START@.len()).begun(facts.fresh_ids[run.used_ids]),
            );
            PoolsideOutcome::Again(PoolsideRun { used_ids: run.used_ids + 1, ..next })
        } else {
            PoolsideOutcome::Missing(ParserQueryView::FreshId)
        },
    }
}

/// Before the name is released: the name ends at a line break or at a tag. A
/// tool call that ends without a name is dropped.
pub open spec fn step_name(run: PoolsideRun) -> PoolsideOutcome {
    let s = run.state;
    let newline = find_text(s.buffer, "\n"@);
    let key = find_text(s.buffer, ARG_KEY_START@);
    let end = find_text(s.buffer, TOOL_CALL_END@);
    match earlier(earlier(newline, key), end) {
        None => PoolsideOutcome::Paused(run),
        Some(cut) => {
            let name = trim_spec(s.buffer.subrange(0, cut));
            if name.len() == 0 && end == Some(cut) {
                PoolsideOutcome::Again(
                    run.at(s.drained(cut + TOOL_CALL_END@.len()).finished().reverted()),
                )
            } else {
                let rest = s.drained(
                    if newline == Some(cut) {
                        cut + 1
                    } else {
                        cut
                    },
                );
                PoolsideOutcome::Again(
                    run.at(
                        PoolsideV1StreamStateView {
                            current_tool_name: Some(name),
                            current_tool_name_sent: true,
                            ..rest
                        },
                    ).name_sent(name),
                )
            }
        },
    }
}

/// Inside a string value: release what cannot be the start of its end tag.
pub open spec fn step_string(run: PoolsideRun) -> PoolsideOutcome {
    let s = run.state;
    match find_text(s.buffer, ARG_VALUE_END@) {
        Some(i) => {
            let fragment = json_escaped(s.buffer.subrange(0, i)) + seq!['"'];
            PoolsideOutcome::Again(
                run.at(
                    PoolsideV1StreamStateView {
                        streaming_string_value: false,
                        pending_key: None,
                        ..s.drained(i + ARG_VALUE_END@.len())
                    }.with_args(fragment),
                ).argument(fragment),
            )
        },
        None => {
            let n = safe_len(s.buffer, ARG_VALUE_END@);
            let fragment = json_escaped(s.buffer.subrange(0, n));
            PoolsideOutcome::Paused(
                if n > 0 && fragment.len() > 0 {
                    run.at(s.drained(n).with_args(fragment)).argument(fragment)
                } else {
                    run.at(s.drained(n))
                },
            )
        },
    }
}

/// After an argument's name: its value begins.
pub open spec fn step_value(
    run: PoolsideRun,
    tools: Option<Seq<ToolDefinitionView>>,
    facts: ParserFactsView,
    pending_key: Seq<char>,
) -> PoolsideOutcome {
    match find_text(run.state.buffer, ARG_VALUE_START@) {
        None => PoolsideOutcome::Paused(run),
        Some(i) => {
            let s = run.state.drained(i);
            let key = trim_spec(pending_key);
            let tool_name = match s.current_tool_name {
                Some(name) => name,
                None => Seq::empty(),
            };
            if declared_string(tools, tool_name, key) {
                let t = s.drained(ARG_VALUE_START@.len() as int);
                if t.tool().seen_keys.contains(key) {
                    PoolsideOutcome::Again(
                        run.at(PoolsideV1StreamStateView { pending_key: None, ..t }),
                    )
                } else {
                    let fragment = t.key_fragment(key) + seq!['"'];
                    PoolsideOutcome::Again(
                        run.at(
                            PoolsideV1StreamStateView {
                                streaming_string_value: true,
                                ..t.with_key(key).with_args(fragment)
                            },
                        ).argument(fragment),
                    )
                }
            } else {
                match find_text(s.buffer, ARG_VALUE_END@) {
                    None => PoolsideOutcome::Paused(run.at(s)),
                    Some(end) => {
                        let raw = trim_spec(
                            s.buffer.subrange(ARG_VALUE_START@.len() as int, end),
                        );
                        let t = PoolsideV1StreamStateView {
                            pending_key: None,
                            ..s.drained(end + ARG_VALUE_END@.len())
                        };
                        if key.len() == 0 || t.tool().seen_keys.contains(key) {
                            PoolsideOutcome::Again(run.at(t))
                        } else {
                            match answer_about(facts.literals, raw) {
                                None => PoolsideOutcome::Missing(
                                    ParserQueryView::Literal { text: raw },
                                ),
                                Some(json) => {
                                    let fragment = t.key_fragment(key) + json;
                                    PoolsideOutcome::Again(
                                        run.at(t.with_key(key).with_args(fragment)).argument(
                                            fragment,
                                        ),
                                    )
                                },
                            }
                        }
                    },
                }
            }
        },
    }
}

/// Between arguments: the tool call ends, or the next argument begins.
pub open spec fn step_between(run: PoolsideRun) -> PoolsideOutcome {
    let s = run.state;
    let end = find_text(s.buffer, TOOL_CALL_END@);
    let key = find_text(s.buffer, ARG_KEY_START@);
    if end is Some && (key is None || end->0 < key->0) {
        let t = s.drained(end->0 + TOOL_CALL_END@.len());
        let next = run.at(t.closed().finished());
        PoolsideOutcome::Again(
            match t.closing() {
                Some(fragment) => next.argument(fragment),
                None => next,
            },
        )
    } else {
        match key {
            None => PoolsideOutcome::Paused(run),
            Some(k) => {
                let t = s.drained(k);
                match find_text(t.buffer, ARG_KEY_END@) {
                    None => PoolsideOutcome::Paused(run.at(t)),
                    Some(e) => PoolsideOutcome::Again(
                        run.at(
                            PoolsideV1StreamStateView {
                                pending_key: Some(
                                    t.buffer.subrange(ARG_KEY_START@.len() as int, e),
                                ),
                                ..t.drained(e + ARG_KEY_END@.len())
                            },
                        ),
                    ),
                }
            },
        }
    }
}

/// One step of the parser.
pub open spec fn poolside_step(
    run: PoolsideRun,
    tools: Option<Seq<ToolDefinitionView>>,
    facts: ParserFactsView,
) -> PoolsideOutcome {
    if !run.state.in_tool_call {
        step_outside(run, facts)
    } else if !run.state.current_tool_name_sent {
        step_name(run)
    } else if run.state.streaming_string_value {
        step_string(run)
    } else {
        match run.state.pending_key {
            Some(key) => step_value(run, tools, facts, key),
            None => step_between(run),
        }
    }
}

/// How much is left to do: the text in the buffer, and a name that is open.
pub open spec fn work_left(s: PoolsideV1StreamStateView) -> nat {
    2 * s.buffer.len() + (if s.in_tool_call && !s.current_tool_name_sent {
        1nat
    } else {
        0
    })
}

/// What the parser makes of the text in the buffer.
pub open spec fn poolside_run(
    run: PoolsideRun,
    tools: Option<Seq<ToolDefinitionView>>,
    facts: ParserFactsView,
) -> Result<PoolsideRun, ParserQueryView>
    decreases work_left(run.state),
{
    match poolside_step(run, tools, facts) {
        PoolsideOutcome::Again(next) => {
            proof {
                lemma_step_progress(run, tools, facts);
            }
            poolside_run(next, tools, facts)
        },
        PoolsideOutcome::Paused(last) => Ok(last),
        PoolsideOutcome::Missing(query) => Err(query),
    }
}

pub proof fn lemma_tags()
    ensures
        TOOL_CALL_START@.len() == 11,
        TOOL_CALL_END@.len() == 12,
        ARG_KEY_START@.len() == 9,
        ARG_KEY_END@.len() == 10,
        ARG_VALUE_START@.len() == 11,
        ARG_VALUE_END@.len() == 12,
        "\n"@.len() == 1,
{
    reveal_strlit("<tool_call>");
    reveal_strlit("</tool_call>");
    reveal_strlit("<arg_key>");
    reveal_strlit("</arg_key>");
    reveal_strlit("<arg_value>");
    reveal_strlit("</arg_value>");
    reveal_strlit("\n");
}

/// A step that can go on used up some text, or released a name.
pub proof fn lemma_step_progress(
    run: PoolsideRun,
    tools: Option<Seq<ToolDefinitionView>>,
    facts: ParserFactsView,
)
    ensures
        poolside_step(run, tools, facts) matches PoolsideOutcome::Again(next) ==> work_left(
            next.state,
        ) < work_left(run.state),
{
    lemma_tags();
    let b = run.state.buffer;
    lemma_find_text(b, TOOL_CALL_START@);
    lemma_find_text(b, TOOL_CALL_END@);
    lemma_find_text(b, ARG_KEY_START@);
    lemma_find_text(b, ARG_VALUE_START@);
    lemma_find_text(b, ARG_VALUE_END@);
    lemma_find_text(b, "\n"@);
    if run.state.in_tool_call && run.state.current_tool_name_sent
        && !run.state.streaming_string_value {
        if run.state.pending_key is Some {
            match find_text(b, ARG_VALUE_START@) {
                Some(i) => {
                    let s = run.state.drained(i);
                    lemma_find_text(s.buffer, ARG_VALUE_END@);
                },
                None => {},
            }
        } else {
            match find_text(b, ARG_KEY_START@) {
                Some(k) => {
                    let t = run.state.drained(k);
                    lemma_find_text(t.buffer, ARG_KEY_END@);
                },
                None => {},
            }
        }
    }
}

/// The value tag cannot end before the value begins.
pub proof fn lemma_value_order(b: Seq<char>)
    requires
        occurs_at(b, ARG_VALUE_START@, 0),
    ensures
        find_text(b, ARG_VALUE_END@) matches Some(e) ==> e >= ARG_VALUE_START@.len(),
{
    lemma_find_text(b, ARG_VALUE_END@);
    reveal_strlit("<arg_value>");
    reveal_strlit("</arg_value>");
    if let Some(e) = find_text(b, ARG_VALUE_END@) {
        if e < 11 {
            let head = b.subrange(0, 11);
            let tail = b.subrange(e, e + 12);
            assert(head[e] == b[e] && tail[0] == b[e]);
            assert(tail[1] == b[e + 1]);
            if e + 1 < 11 {
                assert(head[e + 1] == b[e + 1]);
            }
            assert(ARG_VALUE_START@[e] == '<');
            assert(false);
        }
    }
}

/// The key tag cannot end before the key begins.
pub proof fn lemma_key_order(b: Seq<char>)
    requires
        occurs_at(b, ARG_KEY_START@, 0),
    ensures
        find_text(b, ARG_KEY_END@) matches Some(e) ==> e >= ARG_KEY_START@.len(),
{
    lemma_find_text(b, ARG_KEY_END@);
    reveal_strlit("<arg_key>");
    reveal_strlit("</arg_key>");
    if let Some(e) = find_text(b, ARG_KEY_END@) {
        if e < 9 {
            let head = b.subrange(0, 9);
            let tail = b.subrange(e, e + 10);
            assert(head[e] == b[e] && tail[0] == b[e]);
            assert(tail[1] == b[e + 1]);
            if e + 1 < 9 {
                assert(head[e + 1] == b[e + 1]);
            }
            assert(ARG_KEY_START@[e] == '<');
            assert(false);
        }
    }
}

/// What stands at `i` stands at the start once the text before it is gone.
pub proof fn lemma_drained_start(b: Seq<char>, tag: Seq<char>, i: int)
    requires
        occurs_at(b, tag, i),
    ensures
        occurs_at(b.subrange(i, b.len() as int), tag, 0),
{
    let rest = b.subrange(i, b.len() as int);
    assert(rest.subrange(0, tag.len() as int) =~= b.subrange(i, i + tag.len()));
}

/// A buffer that lost its first `n` characters has no more start tags ahead.
proof fn lemma_drained_room(state: PoolsideV1StreamStateView, n: int, rest: Seq<char>)
    requires
        0 <= n <= state.buffer.len(),
    ensures
        state.drained(n).calls_with(rest) <= state.calls_with(rest),
        n >= TOOL_CALL_START@.len() && occurs_at(
            state.buffer,
            TOOL_CALL_START@,
            n - TOOL_CALL_START@.len(),
        ) ==> state.drained(n).calls_with(rest) < state.calls_with(rest),
{
    lemma_tags();
    let all = state.buffer + rest;
    let tag = TOOL_CALL_START@;
    assert(state.drained(n).buffer + rest =~= all.subrange(n, all.len() as int));
    lemma_fewer_occurrences(all, tag, n);
    if n >= tag.len() && occurs_at(state.buffer, tag, n - tag.len()) {
        assert(all.subrange(n - tag.len(), n) =~= state.buffer.subrange(n - tag.len(), n));
        lemma_occurrence_passed(all, tag, n - tag.len());
    }
}

/// A step keeps the state consistent, and opens no more tool calls than it reads start tags.
pub proof fn lemma_step_wf(
    run: PoolsideRun,
    tools: Option<Seq<ToolDefinitionView>>,
    facts: ParserFactsView,
    rest: Seq<char>,
)
    requires
        run.state.wf(),
        run.state.has_room(rest),
    ensures
        poolside_step(run, tools, facts) matches PoolsideOutcome::Again(next) ==> {
            &&& next.state.wf()
            &&& next.state.calls_with(rest) <= run.state.calls_with(rest)
        },
        poolside_step(run, tools, facts) matches PoolsideOutcome::Paused(next) ==> {
            &&& next.state.wf()
            &&& next.state.calls_with(rest) <= run.state.calls_with(rest)
        },
{
    lemma_tags();
    let s = run.state;
    let b = s.buffer;
    lemma_find_text(b, TOOL_CALL_START@);
    lemma_find_text(b, TOOL_CALL_END@);
    lemma_find_text(b, ARG_KEY_START@);
    lemma_find_text(b, ARG_VALUE_START@);
    lemma_find_text(b, ARG_VALUE_END@);
    lemma_find_text(b, "\n"@);
    lemma_safe_len(b, TOOL_CALL_START@, TOOL_CALL_START@.len() - 1);
    lemma_safe_len(b, ARG_VALUE_END@, ARG_VALUE_END@.len() - 1);
    assert forall|n: int| 0 <= n <= b.len() implies (#[trigger] s.drained(n)).calls_with(rest)
        <= s.calls_with(rest) by {
        lemma_drained_room(s, n, rest);
    }
    if let Some(i) = find_text(b, TOOL_CALL_START@) {
        lemma_drained_room(s, i + TOOL_CALL_START@.len(), rest);
    }
    if let Some(i) = find_text(b, ARG_VALUE_START@) {
        let t = s.drained(i);
        lemma_find_text(t.buffer, ARG_VALUE_END@);
        assert forall|n: int| 0 <= n <= t.buffer.len() implies (#[trigger] t.drained(
            n,
        )).calls_with(rest) <= t.calls_with(rest) by {
            lemma_drained_room(t, n, rest);
        }
    }
    if let Some(k) = find_text(b, ARG_KEY_START@) {
        let t = s.drained(k);
        lemma_find_text(t.buffer, ARG_KEY_END@);
        assert forall|n: int| 0 <= n <= t.buffer.len() implies (#[trigger] t.drained(
            n,
        )).calls_with(rest) <= t.calls_with(rest) by {
            lemma_drained_room(t, n, rest);
        }
    }
}

/// A new piece of text is read as the next part of all text.
pub proof fn lemma_start_room(state: PoolsideV1StreamStateView, text: Seq<char>, rest: Seq<char>)
    ensures
        start_run(state, text).state.calls_with(rest) == state.calls_with(text + rest),
        start_run(state, text).state.calls_with(Seq::empty()) == state.calls_with(text),
        text.len() == 0 ==> state.calls_with(text + rest) == state.calls_with(rest),
{
    assert((state.buffer + text) + rest =~= state.buffer + (text + rest));
    assert((state.buffer + text) + Seq::<char>::empty() =~= state.buffer + text);
    if text.len() == 0 {
        assert(text + rest =~= rest);
    }
}

/// Less text needs no more room.
pub proof fn lemma_less_room(state: PoolsideV1StreamStateView, a: Seq<char>, b: Seq<char>)
    ensures
        state.calls_with(a) <= state.calls_with(a + b),
{
    assert((state.buffer + a) + b =~= state.buffer + (a + b));
    lemma_more_occurrences(state.buffer + a, b, TOOL_CALL_START@);
}

/// A run keeps the state consistent, and opens no more tool calls than it reads start tags.
pub proof fn lemma_run_wf(
    run: PoolsideRun,
    tools: Option<Seq<ToolDefinitionView>>,
    facts: ParserFactsView,
    rest: Seq<char>,
)
    requires
        run.state.wf(),
        run.state.has_room(rest),
    ensures
        poolside_run(run, tools, facts) matches Ok(last) ==> {
            &&& last.state.wf()
            &&& last.state.calls_with(rest) <= run.state.calls_with(rest)
        },
    decreases work_left(run.state),
{
    lemma_step_wf(run, tools, facts, rest);
    if let PoolsideOutcome::Again(next) = poolside_step(run, tools, facts) {
        lemma_step_progress(run, tools, facts);
        lemma_run_wf(next, tools, facts, rest);
    }
}

/// How a step of the parser ended.
pub enum PoolsideProgress {
    Again,
    Paused,
    Missing(ParserQuery),
}

/// The parser at work.
pub open spec fn run_of(
    state: PoolsideV1StreamState,
    delta: PoolsideV1StreamDelta,
    used_ids: usize,
) -> PoolsideRun {
    PoolsideRun {
        state: state.deep_view(),
        delta: delta.deep_view(),
        used_ids: used_ids as int,
    }
}

/// A step ended in `run`, as `outcome` says.
pub open spec fn ended(
    progress: PoolsideProgress,
    run: PoolsideRun,
    outcome: PoolsideOutcome,
) -> bool {
    match progress {
        PoolsideProgress::Again => outcome == PoolsideOutcome::Again(run),
        PoolsideProgress::Paused => outcome == PoolsideOutcome::Paused(run),
        PoolsideProgress::Missing(query) => outcome == PoolsideOutcome::Missing(query.deep_view()),
    }
}

/// Whether `key` is in the list.
fn has_key(keys: &Vec<String>, key: &str) -> (r: bool)
    ensures
        r == keys.deep_view().contains(key@),
{
    let ghost all = keys.deep_view();
    let mut i: usize = 0;
    while i < keys.len()
        invariant
            all == keys.deep_view(),
            i <= keys@.len(),
            forall|k: int| 0 <= k < i ==> all[k] != key@,
        decreases keys@.len() - i,
    {
        if same_text(keys[i].as_str(), key) {
            assert(all[i as int] == key@);
            return true;
        }
        i += 1;
    }
    false
}

/// Whether the schema of `tool_name` declares the argument `arg_name` as a string.
pub fn is_poolside_string_type(
    tool_name: &str,
    arg_name: &str,
    tools: &Option<Vec<ToolDefinition>>,
) -> (r: bool)
    ensures
        r == declared_string(tools.deep_view(), tool_name@, arg_name@),
{
    let list: &Vec<ToolDefinition> = match tools {
        Some(list) => list,
        None => {
            return false;
        },
    };
    let ghost all = list.deep_view();
    let mut i: usize = 0;
    assert(all.subrange(0, all.len() as int) =~= all);
    while i < list.len()
        invariant
            all == list.deep_view(),
            tools.deep_view() == Some(all),
            i <= list@.len(),
            tool_named(all, tool_name@) == tool_named(
                all.subrange(i as int, all.len() as int),
                tool_name@,
            ),
        decreases list@.len() - i,
    {
        let ghost rest = all.subrange(i as int, all.len() as int);
        assert(rest[0] == list@[i as int].deep_view());
        if same_text(list[i].name.as_str(), tool_name) {
            let schema: &Json = match &list[i].parameters {
                Some(schema) => schema,
                None => {
                    return false;
                },
            };
            let properties: &Json = match schema.get("properties") {
                Some(properties) => properties,
                None => {
                    return false;
                },
            };
            let arg: &Json = match properties.get(arg_name) {
                Some(arg) => arg,
                None => {
                    return false;
                },
            };
            let kind: &Json = match arg.get("type") {
                Some(kind) => kind,
                None => {
                    return false;
                },
            };
            return match kind.as_str() {
                Some(kind) => same_text(kind, "string"),
                None => false,
            };
        }
        assert(rest.subrange(1, rest.len() as int) =~= all.subrange(i + 1, all.len() as int));
        i += 1;
    }
    false
}

impl PoolsideV1StreamDelta {
    /// Nothing released.
    pub fn empty() -> (r: Self)
        ensures
            r.deep_view() == (PoolsideV1StreamDeltaView {
                content: None,
                tool_calls: Seq::empty(),
            }),
    {
        let r: PoolsideV1StreamDelta = PoolsideV1StreamDelta {
            content: None,
            tool_calls: Vec::new(),
        };
        assert(r.deep_view().tool_calls =~= Seq::empty());
        r
    }

    /// Makes the chunk for the tool call at `index` the last one.
    fn open_chunk(&mut self, index: u32)
        ensures
            final(self).deep_view() == (PoolsideV1StreamDeltaView {
                tool_calls: opened(old(self).deep_view().tool_calls, index),
                ..old(self).deep_view()
            }),
            final(self).tool_calls@.len() > 0,
    {
        let n: usize = self.tool_calls.len();
        if n > 0 && self.tool_calls[n - 1].index == index {
            return ;
        }
        let chunk: ChatCompletionMessageToolCallChunk = ChatCompletionMessageToolCallChunk {
            index,
            id: None,
            tool_type: None,
            function: Some(FunctionCallStream { name: None, arguments: None }),
        };
        push_item(&mut self.tool_calls, chunk);
        assert(self.tool_calls@.len() == self.tool_calls.deep_view().len());
    }

    /// Replaces the last chunk.
    fn set_last(&mut self, chunk: ChatCompletionMessageToolCallChunk)
        requires
            old(self).tool_calls@.len() > 0,
        ensures
            final(self).deep_view() == (PoolsideV1StreamDeltaView {
                tool_calls: old(self).deep_view().tool_calls.update(
                    old(self).tool_calls@.len() - 1,
                    chunk.deep_view(),
                ),
                ..old(self).deep_view()
            }),
    {
        let ghost before = self.tool_calls.deep_view();
        let n: usize = self.tool_calls.len() - 1;
        self.tool_calls[n] = chunk;
        assert(self.tool_calls.deep_view() =~= before.update(n as int, chunk.deep_view()));
    }

    /// Releases the identifier and name of the tool call at `index`.
    pub fn update_tool_name(&mut self, index: u32, id: &str, tool_name: &str)
        ensures
            final(self).deep_view() == (PoolsideV1StreamDeltaView {
                tool_calls: named(old(self).deep_view().tool_calls, index, id@, tool_name@),
                ..old(self).deep_view()
            }),
    {
        self.open_chunk(index);
        let n: usize = self.tool_calls.len() - 1;
        let arguments: String = match &self.tool_calls[n].function {
            Some(f) => match &f.arguments {
                Some(a) => a.clone(),
                None => String::new(),
            },
            None => String::new(),
        };
        let chunk: ChatCompletionMessageToolCallChunk = ChatCompletionMessageToolCallChunk {
            index: self.tool_calls[n].index,
            id: Some(id.to_owned()),
            tool_type: Some(FunctionType::Function),
            function: Some(
                FunctionCallStream { name: Some(tool_name.to_owned()), arguments: Some(arguments) },
            ),
        };
        self.set_last(chunk);
    }

    /// Releases argument text of the tool call at `index`.
    pub fn update_tool_args(&mut self, index: u32, fragment: &str)
        ensures
            final(self).deep_view() == (PoolsideV1StreamDeltaView {
                tool_calls: argued(old(self).deep_view().tool_calls, index, fragment@),
                ..old(self).deep_view()
            }),
    {
        self.open_chunk(index);
        let n: usize = self.tool_calls.len() - 1;
        let (name, arguments): (Option<String>, String) = match &self.tool_calls[n].function {
            Some(f) => (
                f.name.duplicate(),
                match &f.arguments {
                    Some(a) => a.clone(),
                    None => String::new(),
                },
            ),
            None => (None, String::new()),
        };
        let chunk: ChatCompletionMessageToolCallChunk = ChatCompletionMessageToolCallChunk {
            index: self.tool_calls[n].index,
            id: self.tool_calls[n].id.duplicate(),
            tool_type: self.tool_calls[n].tool_type,
            function: Some(
                FunctionCallStream { name, arguments: Some(join(arguments.as_str(), fragment)) },
            ),
        };
        self.set_last(chunk);
    }
}

impl PoolsideV1StreamState {
    /// The state before any text.
    pub fn initial() -> (r: Self)
        ensures
            r.deep_view() == PoolsideV1StreamStateView::initial(),
            r.deep_view().wf(),
    {
        let r: PoolsideV1StreamState = PoolsideV1StreamState {
            buffer: String::new(),
            in_tool_call: false,
            current_tool_name_sent: false,
            current_tool_id: -1,
            current_tool_name: None,
            pending_key: None,
            streaming_string_value: false,
            tools: Vec::new(),
        };
        assert(r.deep_view() =~= PoolsideV1StreamStateView::initial());
        r
    }

    /// The position of the current tool call.
    pub fn current_index(&self) -> (r: usize)
        ensures
            r == self.deep_view().index(),
    {
        if self.current_tool_id < 0 {
            0
        } else {
            self.current_tool_id as usize
        }
    }

    /// Whether the tool calls can be numbered until `text` is read.
    pub fn can_number(&self, text: &str) -> (r: bool)
        ensures
            r == self.deep_view().has_room(text@),
    {
        let limit: usize = i32::MAX as usize + 1;
        let all: String = join(self.buffer.as_str(), text);
        let starts: usize = count_occurrences(all.as_str(), TOOL_CALL_START);
        assert(self.deep_view().tools.len() == self.tools@.len());
        starts <= limit && self.tools.len() <= limit - starts
    }

    /// How much of the buffer cannot be the start of a tool call.
    pub fn safe_len_before_partial_start(&self) -> (r: usize)
        ensures
            r == safe_len(self.buffer@, TOOL_CALL_START@),
            r <= self.buffer@.len(),
    {
        safe_len_before_partial_suffix(self.buffer.as_str(), TOOL_CALL_START)
    }

    /// Takes the first `n` characters off the buffer.
    fn drain(&mut self, n: usize) -> (r: String)
        requires
            n <= old(self).buffer@.len(),
        ensures
            r@ == old(self).buffer@.subrange(0, n as int),
            final(self).deep_view() == old(self).deep_view().drained(n as int),
    {
        let all: usize = self.buffer.as_str().unicode_len();
        let head: String = slice_of(self.buffer.as_str(), 0, n);
        let rest: String = slice_of(self.buffer.as_str(), n, all);
        self.buffer = rest;
        head
    }

    /// Opens a tool call with the identifier `id`.
    pub fn begin_tool_call(&mut self, id: &str)
        requires
            old(self).deep_view().wf(),
            old(self).current_tool_id < i32::MAX,
        ensures
            final(self).deep_view() == old(self).deep_view().begun(id@),
            final(self).deep_view().wf(),
    {
        let ghost before = self.deep_view();
        self.current_tool_id = self.current_tool_id + 1;
        let tool: PoolsideTool = PoolsideTool {
            id: id.to_owned(),
            streamed_args: String::new(),
            args_started: false,
            args_closed: false,
            seen_keys: Vec::new(),
        };
        assert(tool.deep_view() =~= new_tool(id@));
        push_item(&mut self.tools, tool);
        self.current_tool_name_sent = false;
        self.current_tool_name = None;
        self.pending_key = None;
        self.streaming_string_value = false;
        self.in_tool_call = true;
        assert(self.deep_view() =~= before.begun(id@));
    }

    /// Ends the open tool call.
    pub fn finish_tool_call(&mut self)
        ensures
            final(self).deep_view() == old(self).deep_view().finished(),
    {
        self.in_tool_call = false;
        self.current_tool_name = None;
        self.pending_key = None;
        self.streaming_string_value = false;
    }

    /// Forgets the last tool call.
    pub fn revert_last_tool_call_state(&mut self)
        requires
            old(self).deep_view().wf(),
        ensures
            final(self).deep_view() == old(self).deep_view().reverted(),
    {
        if self.current_tool_id < 0 {
            return ;
        }
        let ghost before = self.deep_view();
        let dropped: Option<PoolsideTool> = self.tools.pop();
        self.current_tool_id = self.current_tool_id - 1;
        assert(self.deep_view() =~= before.reverted());
    }

    /// Replaces the current tool call.
    fn set_tool(&mut self, tool: PoolsideTool)
        requires
            old(self).deep_view().index() < old(self).deep_view().tools.len(),
        ensures
            final(self).deep_view() == old(self).deep_view().with_tool(tool.deep_view()),
    {
        let ghost before = self.deep_view();
        let index: usize = self.current_index();
        self.tools[index] = tool;
        assert(self.deep_view() =~= before.with_tool(tool.deep_view()));
    }

    /// Adds argument text to the current tool call.
    pub fn append_current_args_fragment(&mut self, fragment: &str)
        requires
            old(self).deep_view().index() < old(self).deep_view().tools.len(),
        ensures
            final(self).deep_view() == old(self).deep_view().with_args(fragment@),
    {
        let index: usize = self.current_index();
        let mut tool: PoolsideTool = self.tools[index].duplicate();
        tool.streamed_args.append(fragment);
        self.set_tool(tool);
    }

    /// Counts `key` among the released arguments of the current tool call.
    fn add_key(&mut self, key: &str)
        requires
            old(self).deep_view().index() < old(self).deep_view().tools.len(),
        ensures
            final(self).deep_view() == old(self).deep_view().with_key(key@),
    {
        let index: usize = self.current_index();
        let mut tool: PoolsideTool = self.tools[index].duplicate();
        push_item(&mut tool.seen_keys, key.to_owned());
        tool.args_started = true;
        self.set_tool(tool);
    }

    /// The text that opens the argument `key`, up to its value.
    fn key_text(&self, key: &str) -> (r: String)
        requires
            self.deep_view().index() < self.deep_view().tools.len(),
        ensures
            r@ == self.deep_view().key_fragment(key@),
    {
        let index: usize = self.current_index();
        let mut out: String = String::new();
        if self.tools[index].args_started {
            out.push(',');
        } else {
            out.push('{');
        }
        out.append(quote(key).as_str());
        out.push(':');
        assert(out@ =~= self.deep_view().key_fragment(key@));
        out
    }

    /// Closes the arguments of the current tool call, where they are open.
    pub fn close_args_if_needed(&mut self) -> (r: Option<String>)
        requires
            old(self).deep_view().index() < old(self).deep_view().tools.len(),
        ensures
            r.deep_view() == old(self).deep_view().closing(),
            final(self).deep_view() == old(self).deep_view().closed(),
    {
        let index: usize = self.current_index();
        if self.tools[index].args_closed {
            return None;
        }
        let mut tool: PoolsideTool = self.tools[index].duplicate();
        tool.args_closed = true;
        let mut fragment: String = String::new();
        if !tool.args_started {
            fragment.push('{');
            fragment.push('}');
            assert(fragment@ =~= seq!['{', '}']);
            tool.streamed_args = fragment.clone();
        } else {
            fragment.push('}');
            assert(fragment@ =~= seq!['}']);
            tool.streamed_args.append(fragment.as_str());
        }
        self.set_tool(tool);
        Some(fragment)
    }

    /// Outside tool calls: releases text up to the next tool call.
    fn advance_outside(
        &mut self,
        delta: &mut PoolsideV1StreamDelta,
        used_ids: &mut usize,
        facts: &ParserFacts,
    ) -> (r: PoolsideProgress)
        requires
            old(self).deep_view().wf(),
            old(self).deep_view().has_room(Seq::empty()),
            *old(used_ids) <= facts.fresh_ids@.len(),
        ensures
            *final(used_ids) <= facts.fresh_ids@.len(),
            ended(
                r,
                run_of(*final(self), *final(delta), *final(used_ids)),
                step_outside(
                    run_of(*old(self), *old(delta), *old(used_ids)),
                    facts.deep_view(),
                ),
            ),
    {
        proof {
            lemma_tags();
        }
        match find(self.buffer.as_str(), TOOL_CALL_START) {
            None => {
                let n: usize = self.safe_len_before_partial_start();
                let out: String = self.drain(n);
                append_optional(&mut delta.content, out);
                PoolsideProgress::Paused
            },
            Some(i) => {
                if *used_ids >= facts.fresh_ids.len() {
                    return PoolsideProgress::Missing(ParserQuery::FreshId);
                }
                let out: String = self.drain(i);
                append_optional(&mut delta.content, out);
                let ghost middle = self.deep_view();
                let tag: String = self.drain(11);
                assert(self.deep_view() =~= old(self).deep_view().drained(i + 11));
                proof {
                    lemma_find_text(old(self).buffer@, TOOL_CALL_START@);
                    lemma_drained_room(old(self).deep_view(), i + 11, Seq::empty());
                }
                self.begin_tool_call(facts.fresh_ids[*used_ids].as_str());
                *used_ids = *used_ids + 1;
                PoolsideProgress::Again
            },
        }
    }

    /// Releases the name of the open tool call once it is complete.
    fn advance_name(&mut self, delta: &mut PoolsideV1StreamDelta) -> (r: PoolsideProgress)
        requires
            old(self).deep_view().wf(),
            old(self).in_tool_call,
        ensures
            forall|used_ids: usize|
                ended(
                    r,
                    run_of(*final(self), *final(delta), used_ids),
                    #[trigger] step_name(run_of(*old(self), *old(delta), used_ids)),
                ),
    {
        proof {
            lemma_tags();
            lemma_find_text(self.buffer@, TOOL_CALL_END@);
        }
        let newline: Option<usize> = find(self.buffer.as_str(), "\n");
        let arg_key: Option<usize> = find(self.buffer.as_str(), ARG_KEY_START);
        let end: Option<usize> = find(self.buffer.as_str(), TOOL_CALL_END);
        let cut: usize = match first_of(first_of(newline, arg_key), end) {
            Some(cut) => cut,
            None => {
                return PoolsideProgress::Paused;
            },
        };
        let tool_name: String = trim(slice_of(self.buffer.as_str(), 0, cut).as_str());
        let at_end: bool = match end {
            Some(e) => e == cut,
            None => false,
        };
        if tool_name.as_str().is_empty() && at_end {
            let dropped: String = self.drain(cut + 12);
            self.finish_tool_call();
            self.revert_last_tool_call_state();
            return PoolsideProgress::Again;
        }
        let at_newline: bool = match newline {
            Some(n) => n == cut,
            None => false,
        };
        if at_newline {
            let dropped: String = self.drain(cut + 1);
        } else {
            let dropped: String = self.drain(cut);
        }
        self.current_tool_name = Some(tool_name.clone());
        self.current_tool_name_sent = true;
        let index: usize = self.current_index();
        delta.update_tool_name(index as u32, self.tools[index].id.as_str(), tool_name.as_str());
        PoolsideProgress::Again
    }

    /// Inside a string value: releases what cannot be the start of its end tag.
    fn advance_string(&mut self, delta: &mut PoolsideV1StreamDelta) -> (r: PoolsideProgress)
        requires
            old(self).deep_view().wf(),
            old(self).in_tool_call,
        ensures
            forall|used_ids: usize|
                ended(
                    r,
                    run_of(*final(self), *final(delta), used_ids),
                    #[trigger] step_string(run_of(*old(self), *old(delta), used_ids)),
                ),
    {
        proof {
            lemma_tags();
        }
        match find(self.buffer.as_str(), ARG_VALUE_END) {
            Some(i) => {
                let raw: String = slice_of(self.buffer.as_str(), 0, i);
                let dropped: String = self.drain(i + 12);
                self.streaming_string_value = false;
                self.pending_key = None;
                let mut fragment: String = json_escape_string_content(raw.as_str());
                let ghost escaped = fragment@;
                fragment.push('"');
                assert(fragment@ =~= escaped + seq!['"']);
                self.append_current_args_fragment(fragment.as_str());
                let index: usize = self.current_index();
                delta.update_tool_args(index as u32, fragment.as_str());
                PoolsideProgress::Again
            },
            None => {
                let n: usize = safe_len_before_partial_suffix(self.buffer.as_str(), ARG_VALUE_END);
                let raw: String = self.drain(n);
                let fragment: String = json_escape_string_content(raw.as_str());
                if n > 0 && !fragment.as_str().is_empty() {
                    self.append_current_args_fragment(fragment.as_str());
                    let index: usize = self.current_index();
                    delta.update_tool_args(index as u32, fragment.as_str());
                }
                PoolsideProgress::Paused
            },
        }
    }
}

/// The smaller of two positions that may be absent.
fn first_of(a: Option<usize>, b: Option<usize>) -> (r: Option<usize>)
    ensures
        option_int(r) == earlier(option_int(a), option_int(b)),
        r == a || r == b,
{
    match (a, b) {
        (Some(x), Some(y)) => if x <= y {
            Some(x)
        } else {
            Some(y)
        },
        (Some(x), None) => Some(x),
        (None, y) => y,
    }
}

/// A position as an integer.
pub open spec fn option_int(a: Option<usize>) -> Option<int> {
    match a {
        Some(x) => Some(x as int),
        None => None,
    }
}

impl PoolsideV1StreamState {
    /// After an argument's name: its value begins.
    fn advance_value(
        &mut self,
        delta: &mut PoolsideV1StreamDelta,
        tools: &Option<Vec<ToolDefinition>>,
        facts: &ParserFacts,
        pending_key: &str,
    ) -> (r: PoolsideProgress)
        requires
            old(self).deep_view().wf(),
            old(self).in_tool_call,
        ensures
            forall|used_ids: usize|
                ended(
                    r,
                    run_of(*final(self), *final(delta), used_ids),
                    #[trigger] step_value(
                        run_of(*old(self), *old(delta), used_ids),
                        tools.deep_view(),
                        facts.deep_view(),
                        pending_key@,
                    ),
                ),
    {
        proof {
            lemma_tags();
            lemma_find_text(self.buffer@, ARG_VALUE_START@);
        }
        let start: usize = match find(self.buffer.as_str(), ARG_VALUE_START) {
            Some(start) => start,
            None => {
                return PoolsideProgress::Paused;
            },
        };
        proof {
            lemma_drained_start(self.buffer@, ARG_VALUE_START@, start as int);
        }
        let dropped: String = self.drain(start);
        let key: String = trim(pending_key);
        let is_string: bool = match &self.current_tool_name {
            Some(name) => is_poolside_string_type(name.as_str(), key.as_str(), tools),
            None => is_poolside_string_type("", key.as_str(), tools),
        };
        proof {
            reveal_strlit("");
            assert(""@ =~= Seq::<char>::empty());
        }
        let index: usize = self.current_index();
        if is_string {
            let tag: String = self.drain(11);
            if has_key(&self.tools[index].seen_keys, key.as_str()) {
                self.pending_key = None;
                return PoolsideProgress::Again;
            }
            let mut fragment: String = self.key_text(key.as_str());
            let ghost opening = fragment@;
            fragment.push('"');
            assert(fragment@ =~= opening + seq!['"']);
            self.add_key(key.as_str());
            self.append_current_args_fragment(fragment.as_str());
            self.streaming_string_value = true;
            delta.update_tool_args(index as u32, fragment.as_str());
            return PoolsideProgress::Again;
        }
        let end: usize = match find(self.buffer.as_str(), ARG_VALUE_END) {
            Some(end) => end,
            None => {
                return PoolsideProgress::Paused;
            },
        };
        proof {
            lemma_value_order(self.buffer@);
        }
        let raw: String = trim(slice_of(self.buffer.as_str(), 11, end).as_str());
        let used: String = self.drain(end + 12);
        self.pending_key = None;
        if key.as_str().is_empty() || has_key(&self.tools[index].seen_keys, key.as_str()) {
            return PoolsideProgress::Again;
        }
        let json: String = match find_answer(&facts.literals, raw.as_str()) {
            Some(json) => json.clone(),
            None => {
                return PoolsideProgress::Missing(ParserQuery::Literal { text: raw });
            },
        };
        let fragment: String = join(self.key_text(key.as_str()).as_str(), json.as_str());
        self.add_key(key.as_str());
        self.append_current_args_fragment(fragment.as_str());
        delta.update_tool_args(index as u32, fragment.as_str());
        PoolsideProgress::Again
    }

    /// Between arguments: the tool call ends, or the next argument begins.
    fn advance_between(&mut self, delta: &mut PoolsideV1StreamDelta) -> (r: PoolsideProgress)
        requires
            old(self).deep_view().wf(),
            old(self).in_tool_call,
        ensures
            forall|used_ids: usize|
                ended(
                    r,
                    run_of(*final(self), *final(delta), used_ids),
                    #[trigger] step_between(run_of(*old(self), *old(delta), used_ids)),
                ),
    {
        proof {
            lemma_tags();
            lemma_find_text(self.buffer@, ARG_KEY_START@);
        }
        let end: Option<usize> = find(self.buffer.as_str(), TOOL_CALL_END);
        let key: Option<usize> = find(self.buffer.as_str(), ARG_KEY_START);
        let ends: bool = match (end, key) {
            (Some(e), Some(k)) => e < k,
            (Some(_), None) => true,
            _ => false,
        };
        if ends {
            let e: usize = end.unwrap();
            let dropped: String = self.drain(e + 12);
            let fragment: Option<String> = self.close_args_if_needed();
            self.finish_tool_call();
            let index: usize = self.current_index();
            match fragment {
                Some(fragment) => {
                    delta.update_tool_args(index as u32, fragment.as_str());
                },
                None => {},
            }
            return PoolsideProgress::Again;
        }
        let k: usize = match key {
            Some(k) => k,
            None => {
                return PoolsideProgress::Paused;
            },
        };
        proof {
            lemma_drained_start(self.buffer@, ARG_KEY_START@, k as int);
        }
        let dropped: String = self.drain(k);
        let key_end: usize = match find(self.buffer.as_str(), ARG_KEY_END) {
            Some(key_end) => key_end,
            None => {
                return PoolsideProgress::Paused;
            },
        };
        proof {
            lemma_key_order(self.buffer@);
        }
        let name: String = slice_of(self.buffer.as_str(), 9, key_end);
        let used: String = self.drain(key_end + 10);
        self.pending_key = Some(name);
        PoolsideProgress::Again
    }

    /// One step of the parser.
    fn advance(
        &mut self,
        delta: &mut PoolsideV1StreamDelta,
        used_ids: &mut usize,
        tools: &Option<Vec<ToolDefinition>>,
        facts: &ParserFacts,
    ) -> (r: PoolsideProgress)
        requires
            old(self).deep_view().wf(),
            old(self).deep_view().has_room(Seq::empty()),
            *old(used_ids) <= facts.fresh_ids@.len(),
        ensures
            *final(used_ids) <= facts.fresh_ids@.len(),
            ended(
                r,
                run_of(*final(self), *final(delta), *final(used_ids)),
                poolside_step(
                    run_of(*old(self), *old(delta), *old(used_ids)),
                    tools.deep_view(),
                    facts.deep_view(),
                ),
            ),
    {
        if !self.in_tool_call {
            return self.advance_outside(delta, used_ids, facts);
        }
        if !self.current_tool_name_sent {
            assert(step_name(run_of(*self, *delta, *used_ids)) == step_name(
                run_of(*old(self), *old(delta), *old(used_ids)),
            ));
            return self.advance_name(delta);
        }
        if self.streaming_string_value {
            assert(step_string(run_of(*self, *delta, *used_ids)) == step_string(
                run_of(*old(self), *old(delta), *old(used_ids)),
            ));
            return self.advance_string(delta);
        }
        match self.pending_key.duplicate() {
            Some(key) => {
                let ghost step = step_value(
                    run_of(*self, *delta, *used_ids),
                    tools.deep_view(),
                    facts.deep_view(),
                    key@,
                );
                self.advance_value(delta, tools, facts, key.as_str())
            },
            None => {
                let ghost step = step_between(run_of(*self, *delta, *used_ids));
                self.advance_between(delta)
            },
        }
    }

    /// Takes in a piece of text and releases what it completes.
    ///
    /// Where an answer is missing, the state stays as it was and the question
    /// is returned.
    pub fn process_delta(
        &mut self,
        delta_text: &str,
        tools: &Option<Vec<ToolDefinition>>,
        facts: &ParserFacts,
    ) -> (r: Result<PoolsideV1StreamDelta, ParserQuery>)
        requires
            old(self).deep_view().wf(),
            old(self).deep_view().has_room(delta_text@),
        ensures
            final(self).deep_view().wf(),
            match (
                r,
                delta_result(
                    old(self).deep_view(),
                    delta_text@,
                    tools.deep_view(),
                    facts.deep_view(),
                ),
            ) {
                (Ok(delta), Ok(run)) => delta.deep_view() == run.delta && final(self).deep_view()
                    == run.state,
                (Err(query), Err(missing)) => query.deep_view() == missing
                    && final(self).deep_view() == old(self).deep_view(),
                _ => false,
            },
    {
        let ghost before = self.deep_view();
        let saved: PoolsideV1StreamState = self.duplicate();
        self.buffer.append(delta_text);
        let mut delta: PoolsideV1StreamDelta = PoolsideV1StreamDelta::empty();
        let mut used_ids: usize = 0;
        assert(run_of(*self, delta, 0) == start_run(before, delta_text@));
        proof {
            lemma_start_room(before, delta_text@, Seq::empty());
        }
        loop
            invariant
                self.deep_view().wf(),
                self.deep_view().has_room(Seq::empty()),
                used_ids <= facts.fresh_ids@.len(),
                saved.deep_view() == before,
                before.wf(),
                delta_result(before, delta_text@, tools.deep_view(), facts.deep_view())
                    == poolside_run(
                    run_of(*self, delta, used_ids),
                    tools.deep_view(),
                    facts.deep_view(),
                ),
                before == old(self).deep_view(),
            decreases work_left(self.deep_view()),
        {
            let ghost run = run_of(*self, delta, used_ids);
            proof {
                lemma_step_progress(run, tools.deep_view(), facts.deep_view());
                lemma_step_wf(run, tools.deep_view(), facts.deep_view(), Seq::empty());
            }
            match self.advance(&mut delta, &mut used_ids, tools, facts) {
                PoolsideProgress::Again => {},
                PoolsideProgress::Paused => {
                    return Ok(delta);
                },
                PoolsideProgress::Missing(query) => {
                    *self = saved;
                    return Err(query);
                },
            }
        }
    }

    /// Ends the text: what is left outside a tool call is released, an open
    /// tool call is dropped.
    pub fn finalize_content(&mut self) -> (r: Option<String>)
        ensures
            (final(self).deep_view(), r.deep_view()) == left_over(old(self).deep_view()),
    {
        if self.in_tool_call {
            self.buffer = String::new();
            self.finish_tool_call();
            return None;
        }
        if self.buffer.as_str().is_empty() {
            assert(self.buffer@ =~= Seq::<char>::empty());
            None
        } else {
            let out: String = self.buffer.clone();
            self.buffer = String::new();
            Some(out)
        }
    }
}

/// The parser after the text ended, and what is left to release: the text outside a tool
/// call. An open tool call is dropped.
pub open spec fn left_over(state: PoolsideV1StreamStateView) -> (
    PoolsideV1StreamStateView,
    Option<Seq<char>>,
) {
    if state.in_tool_call {
        (PoolsideV1StreamStateView { buffer: Seq::empty(), ..state.finished() }, None)
    } else {
        (
            PoolsideV1StreamStateView { buffer: Seq::empty(), ..state },
            if state.buffer.len() > 0 {
                Some(state.buffer)
            } else {
                None
            },
        )
    }
}

/// The parser before it looks at a new piece of text.
pub open spec fn start_run(state: PoolsideV1StreamStateView, text: Seq<char>) -> PoolsideRun {
    PoolsideRun {
        state: PoolsideV1StreamStateView { buffer: state.buffer + text, ..state },
        delta: PoolsideV1StreamDeltaView { content: None, tool_calls: Seq::empty() },
        used_ids: 0,
    }
}

/// What a piece of text makes of the parser.
pub open spec fn delta_result(
    state: PoolsideV1StreamStateView,
    text: Seq<char>,
    tools: Option<Seq<ToolDefinitionView>>,
    facts: ParserFactsView,
) -> Result<PoolsideRun, ParserQueryView> {
    poolside_run(start_run(state, text), tools, facts)
}

} // verus!
