//! Configuring a jailed stream.

use crate::chat_types::{ToolDefinition, ToolDefinitionView};
use crate::copy::{append_items, no_items, one_item, push_item, Duplicate};
use crate::jail_types::{
    EmissionMode, JailMode, JailModeView, JailedStream, JailedStreamView, ToolChoiceFormat,
    ToolChoiceFormatView,
};
use crate::text::same_text;
use vstd::prelude::*;

verus! {

/// The markers around tool calls that a tool-call parser is configured with.
#[derive(Debug, PartialEq, Eq)]
pub struct ParserTokens {
    pub start_tokens: Vec<String>,
    pub end_tokens: Vec<String>,
}

/// The content of a [`ParserTokens`].
#[verifier::ext_equal]
pub struct ParserTokensView {
    pub start_tokens: Seq<Seq<char>>,
    pub end_tokens: Seq<Seq<char>>,
}

impl DeepView for ParserTokens {
    type V = ParserTokensView;

    open spec fn deep_view(&self) -> ParserTokensView {
        ParserTokensView {
            start_tokens: self.start_tokens.deep_view(),
            end_tokens: self.end_tokens.deep_view(),
        }
    }
}

/// Builder for configuring a [`JailedStream`].
#[derive(Debug, PartialEq, Eq)]
pub struct JailedStreamBuilder {
    pub jail_start_sequences: Vec<String>,
    pub jail_end_sequences: Vec<String>,
    pub tool_call_parser: Option<String>,
    /// When set, only tool calls with this name are emitted.
    pub named_tool_name: Option<String>,
    pub tool_definitions: Option<Vec<ToolDefinition>>,
    pub emission_mode: EmissionMode,
    pub jail_mode: JailMode,
    pub defer_terminal_until_usage: bool,
}

/// The content of a [`JailedStreamBuilder`].
#[verifier::ext_equal]
pub struct JailedStreamBuilderView {
    pub jail_start_sequences: Seq<Seq<char>>,
    pub jail_end_sequences: Seq<Seq<char>>,
    pub tool_call_parser: Option<Seq<char>>,
    pub named_tool_name: Option<Seq<char>>,
    pub tool_definitions: Option<Seq<ToolDefinitionView>>,
    pub emission_mode: EmissionMode,
    pub jail_mode: JailModeView,
    pub defer_terminal_until_usage: bool,
}

impl DeepView for JailedStreamBuilder {
    type V = JailedStreamBuilderView;

    open spec fn deep_view(&self) -> JailedStreamBuilderView {
        JailedStreamBuilderView {
            jail_start_sequences: self.jail_start_sequences.deep_view(),
            jail_end_sequences: self.jail_end_sequences.deep_view(),
            tool_call_parser: self.tool_call_parser.deep_view(),
            named_tool_name: self.named_tool_name.deep_view(),
            tool_definitions: self.tool_definitions.deep_view(),
            emission_mode: self.emission_mode.deep_view(),
            jail_mode: self.jail_mode.deep_view(),
            defer_terminal_until_usage: self.defer_terminal_until_usage.deep_view(),
        }
    }
}

/// The list has `item`.
pub open spec fn listed(list: Seq<Seq<char>>, item: Seq<char>) -> bool {
    list.contains(item)
}

/// The items of `more` that are not yet in `list` are added.
pub open spec fn with_new(list: Seq<Seq<char>>, more: Seq<Seq<char>>) -> Seq<Seq<char>>
    decreases more.len(),
{
    if more.len() == 0 {
        list
    } else {
        let n = more.len() - 1;
        let front = with_new(list, more.subrange(0, n));
        if listed(front, more[n]) {
            front
        } else {
            front.push(more[n])
        }
    }
}

/// The items that are not empty.
pub open spec fn nonempty(list: Seq<Seq<char>>) -> Seq<Seq<char>>
    decreases list.len(),
{
    if list.len() == 0 {
        Seq::empty()
    } else {
        let n = list.len() - 1;
        let front = nonempty(list.subrange(0, n));
        if list[n].len() == 0 {
            front
        } else {
            front.push(list[n])
        }
    }
}

/// The markers of the usual tool-call formats. They are looked for where no
/// parser is configured.
pub open spec fn common_markers() -> Seq<Seq<char>> {
    seq![
        "<TOOLCALL>"@,
        "<tool_call>"@,
        "[TOOL_CALLS]"@,
        "<|python_tag|>"@,
        "functools["@,
        "[{"@,
        "{"@,
    ]
}

impl JailedStreamBuilderView {
    /// The default settings.
    pub open spec fn initial() -> Self {
        JailedStreamBuilderView {
            jail_start_sequences: Seq::empty(),
            jail_end_sequences: Seq::empty(),
            tool_call_parser: None,
            named_tool_name: None,
            tool_definitions: None,
            emission_mode: EmissionMode::Packed,
            jail_mode: JailModeView::MarkerBased,
            defer_terminal_until_usage: false,
        }
    }

    /// A required tool choice with a single tool is complete after one call.
    pub open spec fn built_mode(self) -> JailModeView {
        let one_tool = self.tool_definitions matches Some(tools) && tools.len() == 1;
        let required = self.jail_mode matches JailModeView::Immediate { format }
            && format is ArrayOfTools;
        if required && one_tool {
            JailModeView::Immediate {
                format: ToolChoiceFormatView::ArrayOfTools { terminal_after_first: true },
            }
        } else {
            self.jail_mode
        }
    }

    /// The tokens of the configured parser, where it has any.
    pub open spec fn tokens(self, parser: Option<ParserTokensView>) -> Option<ParserTokensView> {
        if self.tool_call_parser is Some {
            parser
        } else {
            None
        }
    }

    /// The start sequences: those of the parser where none were set.
    pub open spec fn built_starts(self, parser: Option<ParserTokensView>) -> Seq<Seq<char>> {
        match self.tokens(parser) {
            Some(tokens) => if self.jail_start_sequences.len() == 0 {
                tokens.start_tokens
            } else {
                self.jail_start_sequences
            },
            None => self.jail_start_sequences,
        }
    }

    /// The end sequences: those of the parser where none were set.
    pub open spec fn built_ends(self, parser: Option<ParserTokensView>) -> Seq<Seq<char>> {
        match self.tokens(parser) {
            Some(tokens) => if self.jail_end_sequences.len() == 0 {
                nonempty(tokens.end_tokens)
            } else {
                self.jail_end_sequences
            },
            None => self.jail_end_sequences,
        }
    }

    /// The markers to look for.
    pub open spec fn built_patterns(self, parser: Option<ParserTokensView>) -> Seq<Seq<char>> {
        let all = if self.tool_call_parser is None {
            with_new(self.built_starts(parser), common_markers())
        } else {
            match self.tokens(parser) {
                Some(tokens) => self.built_starts(parser) + tokens.start_tokens,
                None => self.built_starts(parser),
            }
        };
        if all.len() == 0 {
            seq!["__NEVER_MATCH__"@]
        } else {
            all
        }
    }

    /// The configured stream.
    pub open spec fn built(self, parser: Option<ParserTokensView>) -> JailedStreamView {
        JailedStreamView {
            jail_start_sequences: self.built_starts(parser),
            jail_end_sequences: self.built_ends(parser),
            tool_call_parser: self.tool_call_parser,
            named_tool_name: self.named_tool_name,
            tool_definitions: self.tool_definitions,
            emission_mode: self.emission_mode,
            marker_patterns: self.built_patterns(parser),
            jail_mode: self.built_mode(),
            defer_terminal_until_usage: self.defer_terminal_until_usage,
        }
    }
}

/// Whether the list has `item`.
fn has_text(list: &Vec<String>, item: &str) -> (r: bool)
    ensures
        r == listed(list.deep_view(), item@),
{
    let ghost all = list.deep_view();
    let mut i: usize = 0;
    while i < list.len()
        invariant
            all == list.deep_view(),
            i <= list@.len(),
            forall|k: int| 0 <= k < i ==> all[k] != item@,
        decreases list@.len() - i,
    {
        if same_text(list[i].as_str(), item) {
            assert(all[i as int] == item@);
            return true;
        }
        i += 1;
    }
    false
}

/// The items that are not empty.
fn keep_nonempty(list: &Vec<String>) -> (r: Vec<String>)
    ensures
        r.deep_view() == nonempty(list.deep_view()),
{
    let ghost all = list.deep_view();
    let mut out: Vec<String> = no_items();
    let mut i: usize = 0;
    assert(all.subrange(0, 0) =~= Seq::empty());
    while i < list.len()
        invariant
            all == list.deep_view(),
            i <= list@.len(),
            out.deep_view() == nonempty(all.subrange(0, i as int)),
        decreases list@.len() - i,
    {
        let ghost next = all.subrange(0, i + 1);
        assert(next.subrange(0, next.len() - 1) =~= all.subrange(0, i as int));
        if !list[i].as_str().is_empty() {
            push_item(&mut out, list[i].clone());
        }
        i += 1;
    }
    assert(all.subrange(0, all.len() as int) =~= all);
    out
}

/// Adds the items of `more` that are not yet in `list`.
fn add_new(list: &mut Vec<String>, more: &Vec<String>)
    ensures
        final(list).deep_view() == with_new(old(list).deep_view(), more.deep_view()),
{
    let ghost all = more.deep_view();
    let ghost before = list.deep_view();
    let mut i: usize = 0;
    assert(all.subrange(0, 0) =~= Seq::empty());
    while i < more.len()
        invariant
            all == more.deep_view(),
            i <= more@.len(),
            list.deep_view() == with_new(before, all.subrange(0, i as int)),
        decreases more@.len() - i,
    {
        let ghost next = all.subrange(0, i + 1);
        assert(next.subrange(0, next.len() - 1) =~= all.subrange(0, i as int));
        if !has_text(list, more[i].as_str()) {
            push_item(list, more[i].clone());
        }
        i += 1;
    }
    assert(all.subrange(0, all.len() as int) =~= all);
}

/// The markers of the usual tool-call formats.
fn make_common_markers() -> (r: Vec<String>)
    ensures
        r.deep_view() == common_markers(),
{
    let mut out: Vec<String> = Vec::new();
    out.push("<TOOLCALL>".to_owned());
    out.push("<tool_call>".to_owned());
    out.push("[TOOL_CALLS]".to_owned());
    out.push("<|python_tag|>".to_owned());
    out.push("functools[".to_owned());
    out.push("[{".to_owned());
    out.push("{".to_owned());
    assert(out.deep_view() =~= common_markers());
    out
}

impl JailedStreamBuilder {
    /// Create a new builder with default settings.
    pub fn new() -> (r: Self)
        ensures
            r.deep_view() == JailedStreamBuilderView::initial(),
    {
        JailedStreamBuilder {
            jail_start_sequences: no_items(),
            jail_end_sequences: no_items(),
            tool_call_parser: None,
            named_tool_name: None,
            tool_definitions: None,
            emission_mode: EmissionMode::Packed,
            jail_mode: JailMode::MarkerBased,
            defer_terminal_until_usage: false,
        }
    }

    /// Add a sequence that triggers jailing when detected.
    pub fn jail_start_sequence(self, sequence: &str) -> (r: Self)
        ensures
            r.deep_view() == (JailedStreamBuilderView {
                jail_start_sequences: self.deep_view().jail_start_sequences.push(sequence@),
                ..self.deep_view()
            }),
    {
        let mut out: JailedStreamBuilder = self;
        push_item(&mut out.jail_start_sequences, sequence.to_owned());
        out
    }

    /// Add multiple sequences that trigger jailing when detected.
    pub fn jail_start_sequences(self, sequences: Vec<String>) -> (r: Self)
        ensures
            r.deep_view() == (JailedStreamBuilderView {
                jail_start_sequences: self.deep_view().jail_start_sequences + sequences.deep_view(),
                ..self.deep_view()
            }),
    {
        let mut out: JailedStreamBuilder = self;
        append_items(&mut out.jail_start_sequences, sequences);
        out
    }

    /// Add a sequence that ends jailing when detected.
    pub fn jail_end_sequence(self, sequence: &str) -> (r: Self)
        ensures
            r.deep_view() == (JailedStreamBuilderView {
                jail_end_sequences: self.deep_view().jail_end_sequences.push(sequence@),
                ..self.deep_view()
            }),
    {
        let mut out: JailedStreamBuilder = self;
        push_item(&mut out.jail_end_sequences, sequence.to_owned());
        out
    }

    /// Add multiple sequences that end jailing when detected.
    pub fn jail_end_sequences(self, sequences: Vec<String>) -> (r: Self)
        ensures
            r.deep_view() == (JailedStreamBuilderView {
                jail_end_sequences: self.deep_view().jail_end_sequences + sequences.deep_view(),
                ..self.deep_view()
            }),
    {
        let mut out: JailedStreamBuilder = self;
        append_items(&mut out.jail_end_sequences, sequences);
        out
    }

    /// Set the tool call parser to use for detection and parsing.
    pub fn tool_call_parser(self, parser: &str) -> (r: Self)
        ensures
            r.deep_view() == (JailedStreamBuilderView {
                tool_call_parser: Some(parser@),
                ..self.deep_view()
            }),
    {
        let mut out: JailedStreamBuilder = self;
        out.tool_call_parser = Some(parser.to_owned());
        out
    }

    /// Constrain parsed output to a single named tool. Tool calls that do not match
    /// `tool_name` are silently filtered out.
    pub fn named_tool_filter(self, tool_name: &str) -> (r: Self)
        ensures
            r.deep_view() == (JailedStreamBuilderView {
                named_tool_name: Some(tool_name@),
                ..self.deep_view()
            }),
    {
        let mut out: JailedStreamBuilder = self;
        out.named_tool_name = Some(tool_name.to_owned());
        out
    }

    /// Set the tool definitions for runtime validation and parsing.
    pub fn tool_definitions(self, tools: Vec<ToolDefinition>) -> (r: Self)
        ensures
            r.deep_view() == (JailedStreamBuilderView {
                tool_definitions: Some(tools.deep_view()),
                ..self.deep_view()
            }),
    {
        let mut out: JailedStreamBuilder = self;
        out.tool_definitions = Some(tools);
        out
    }

    /// Set the emission mode for handling multiple choices.
    pub fn emission_mode(self, mode: EmissionMode) -> (r: Self)
        ensures
            r.deep_view() == (JailedStreamBuilderView {
                emission_mode: mode,
                ..self.deep_view()
            }),
    {
        let mut out: JailedStreamBuilder = self;
        out.emission_mode = mode;
        out
    }

    /// Enable single choice per chunk emission for OpenAI compatibility.
    pub fn single_choice_per_chunk(self) -> (r: Self)
        ensures
            r.deep_view() == (JailedStreamBuilderView {
                emission_mode: EmissionMode::SingleChoicePerChunk,
                ..self.deep_view()
            }),
    {
        let mut out: JailedStreamBuilder = self;
        out.emission_mode = EmissionMode::SingleChoicePerChunk;
        out
    }

    /// Enable packed emission mode (multiple choices per chunk).
    pub fn packed_emission(self) -> (r: Self)
        ensures
            r.deep_view() == (JailedStreamBuilderView {
                emission_mode: EmissionMode::Packed,
                ..self.deep_view()
            }),
    {
        let mut out: JailedStreamBuilder = self;
        out.emission_mode = EmissionMode::Packed;
        out
    }

    /// Enable immediate jail mode for a named tool choice.
    pub fn tool_choice_named(self, tool_name: String) -> (r: Self)
        ensures
            r.deep_view() == (JailedStreamBuilderView {
                jail_mode: JailModeView::Immediate {
                    format: ToolChoiceFormatView::SingleObject { tool_name: tool_name@ },
                },
                ..self.deep_view()
            }),
    {
        let mut out: JailedStreamBuilder = self;
        out.jail_mode = JailMode::Immediate { format: ToolChoiceFormat::SingleObject { tool_name } };
        out
    }

    /// Enable immediate jail mode for a required tool choice.
    pub fn tool_choice_required(self) -> (r: Self)
        ensures
            r.deep_view() == (JailedStreamBuilderView {
                jail_mode: JailModeView::Immediate {
                    format: ToolChoiceFormatView::ArrayOfTools { terminal_after_first: false },
                },
                ..self.deep_view()
            }),
    {
        let mut out: JailedStreamBuilder = self;
        out.jail_mode = JailMode::Immediate {
            format: ToolChoiceFormat::ArrayOfTools { terminal_after_first: false },
        };
        out
    }

    /// After the terminal chunk of a forced tool choice, wait for the usage chunk.
    pub fn defer_terminal_until_usage(self, enabled: bool) -> (r: Self)
        ensures
            r.deep_view() == (JailedStreamBuilderView {
                defer_terminal_until_usage: enabled,
                ..self.deep_view()
            }),
    {
        let mut out: JailedStreamBuilder = self;
        out.defer_terminal_until_usage = enabled;
        out
    }

    /// Build the configured stream. `parser` holds the markers of the configured
    /// tool-call parser, where it is known.
    pub fn build(self, parser: Option<ParserTokens>) -> (r: JailedStream)
        ensures
            r.deep_view() == self.deep_view().built(parser.deep_view()),
    {
        let ghost before = self.deep_view();
        let ghost known = parser.deep_view();
        let one_tool: bool = match &self.tool_definitions {
            Some(tools) => tools.len() == 1,
            None => false,
        };
        let jail_mode: JailMode = match self.jail_mode {
            JailMode::Immediate { format: ToolChoiceFormat::ArrayOfTools { terminal_after_first } } =>
                JailMode::Immediate {
                    format: ToolChoiceFormat::ArrayOfTools {
                        terminal_after_first: terminal_after_first || one_tool,
                    },
                },
            other => other,
        };
        assert(jail_mode.deep_view() == before.built_mode());
        let mut starts: Vec<String> = self.jail_start_sequences;
        let mut ends: Vec<String> = self.jail_end_sequences;
        let mut patterns: Vec<String> = no_items();
        if self.tool_call_parser.is_some() {
            match &parser {
                Some(tokens) => {
                    if starts.len() == 0 {
                        starts = tokens.start_tokens.duplicate();
                    }
                    if ends.len() == 0 {
                        ends = keep_nonempty(&tokens.end_tokens);
                    }
                    patterns = starts.duplicate();
                    append_items(&mut patterns, tokens.start_tokens.duplicate());
                },
                None => {
                    patterns = starts.duplicate();
                },
            }
        } else {
            patterns = starts.duplicate();
            add_new(&mut patterns, &make_common_markers());
        }
        if patterns.len() == 0 {
            patterns = one_item("__NEVER_MATCH__".to_owned());
        }
        assert(starts.deep_view() == before.built_starts(known));
        assert(ends.deep_view() == before.built_ends(known));
        assert(patterns.deep_view() == before.built_patterns(known));
        JailedStream {
            jail_start_sequences: starts,
            jail_end_sequences: ends,
            tool_call_parser: self.tool_call_parser,
            named_tool_name: self.named_tool_name,
            tool_definitions: self.tool_definitions,
            emission_mode: self.emission_mode,
            marker_patterns: patterns,
            jail_mode,
            defer_terminal_until_usage: self.defer_terminal_until_usage,
        }
    }
}

impl Default for JailedStreamBuilder {
    fn default() -> (r: Self)
        ensures
            r.deep_view() == JailedStreamBuilderView::initial(),
    {
        JailedStreamBuilder::new()
    }
}

impl JailedStream {
    /// Create a new builder for configuring a stream.
    pub fn builder() -> (r: JailedStreamBuilder)
        ensures
            r.deep_view() == JailedStreamBuilderView::initial(),
    {
        JailedStreamBuilder::new()
    }
}

} // verus!
