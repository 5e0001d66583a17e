//! How a jailed stream is configured, and what a choice wants to emit.

use crate::chat_types::{ChatChoiceStream, ChatChoiceStreamView, ToolDefinition, ToolDefinitionView};
use crate::text::same_text;
use vstd::prelude::*;

verus! {

/// What a choice wants to emit after processing content.
#[derive(Debug, PartialEq, Eq)]
pub enum ChoiceEmission {
    /// Pass through content unchanged (choice is not jailed).
    PassThrough(ChatChoiceStream),
    /// Emit parsed tool calls (choice finished jailing with tool calls).
    ToolCall(ChatChoiceStream),
    /// Emit accumulated content (choice finished jailing without tool calls).
    Content(ChatChoiceStream),
    /// Emit trailing content after tool call end (choice has trailing after unjail).
    Trailing(ChatChoiceStream),
}

/// The content of a [`ChoiceEmission`].
#[verifier::ext_equal]
pub enum ChoiceEmissionView {
    PassThrough(ChatChoiceStreamView),
    ToolCall(ChatChoiceStreamView),
    Content(ChatChoiceStreamView),
    Trailing(ChatChoiceStreamView),
}

impl DeepView for ChoiceEmission {
    type V = ChoiceEmissionView;

    open spec fn deep_view(&self) -> ChoiceEmissionView {
        match self {
            ChoiceEmission::PassThrough(c) => ChoiceEmissionView::PassThrough(c.deep_view()),
            ChoiceEmission::ToolCall(c) => ChoiceEmissionView::ToolCall(c.deep_view()),
            ChoiceEmission::Content(c) => ChoiceEmissionView::Content(c.deep_view()),
            ChoiceEmission::Trailing(c) => ChoiceEmissionView::Trailing(c.deep_view()),
        }
    }
}

impl ChoiceEmissionView {
    /// The choice that is emitted.
    pub open spec fn choice(self) -> ChatChoiceStreamView {
        match self {
            ChoiceEmissionView::PassThrough(c) => c,
            ChoiceEmissionView::ToolCall(c) => c,
            ChoiceEmissionView::Content(c) => c,
            ChoiceEmissionView::Trailing(c) => c,
        }
    }

    /// The same kind of emission with another choice.
    pub open spec fn with_choice(self, choice: ChatChoiceStreamView) -> Self {
        match self {
            ChoiceEmissionView::PassThrough(_) => ChoiceEmissionView::PassThrough(choice),
            ChoiceEmissionView::ToolCall(_) => ChoiceEmissionView::ToolCall(choice),
            ChoiceEmissionView::Content(_) => ChoiceEmissionView::Content(choice),
            ChoiceEmissionView::Trailing(_) => ChoiceEmissionView::Trailing(choice),
        }
    }
}

impl ChoiceEmission {
    /// Extract the choice from any emission type.
    pub fn into_choice(self) -> (r: ChatChoiceStream)
        ensures
            r.deep_view() == self.deep_view().choice(),
    {
        match self {
            ChoiceEmission::PassThrough(choice) => choice,
            ChoiceEmission::ToolCall(choice) => choice,
            ChoiceEmission::Content(choice) => choice,
            ChoiceEmission::Trailing(choice) => choice,
        }
    }

    /// The choice of any emission type.
    pub fn choice(&self) -> (r: &ChatChoiceStream)
        ensures
            r.deep_view() == self.deep_view().choice(),
    {
        match self {
            ChoiceEmission::PassThrough(choice) => choice,
            ChoiceEmission::ToolCall(choice) => choice,
            ChoiceEmission::Content(choice) => choice,
            ChoiceEmission::Trailing(choice) => choice,
        }
    }

    /// Get the choice index.
    pub fn index(&self) -> (r: u32)
        ensures
            r == self.deep_view().choice().index,
    {
        self.choice().index
    }

    /// The same kind of emission with another choice.
    pub fn with_choice(self, choice: ChatChoiceStream) -> (r: Self)
        ensures
            r.deep_view() == self.deep_view().with_choice(choice.deep_view()),
    {
        match self {
            ChoiceEmission::PassThrough(_) => ChoiceEmission::PassThrough(choice),
            ChoiceEmission::ToolCall(_) => ChoiceEmission::ToolCall(choice),
            ChoiceEmission::Content(_) => ChoiceEmission::Content(choice),
            ChoiceEmission::Trailing(_) => ChoiceEmission::Trailing(choice),
        }
    }
}

/// Configuration for jail detection and parsing.
#[derive(Debug, Clone)]
pub struct JailConfig<'a> {
    pub jail_start_sequences: &'a [String],
    pub jail_end_sequences: &'a [String],
    pub tool_call_parser: Option<&'a str>,
}

/// Format for the immediate jail mode of a forced tool choice.
#[derive(Debug, PartialEq, Eq)]
pub enum ToolChoiceFormat {
    /// A named tool: expect a single object `{"location": "Paris", ...}`.
    SingleObject { tool_name: String },
    /// Any tool is required: expect an array `[{name:"search", parameters:{...}}, ...]`.
    ArrayOfTools { terminal_after_first: bool },
}

/// The content of a [`ToolChoiceFormat`].
#[verifier::ext_equal]
pub enum ToolChoiceFormatView {
    SingleObject { tool_name: Seq<char> },
    ArrayOfTools { terminal_after_first: bool },
}

impl DeepView for ToolChoiceFormat {
    type V = ToolChoiceFormatView;

    open spec fn deep_view(&self) -> ToolChoiceFormatView {
        match self {
            ToolChoiceFormat::SingleObject { tool_name } => ToolChoiceFormatView::SingleObject {
                tool_name: tool_name@,
            },
            ToolChoiceFormat::ArrayOfTools { terminal_after_first } =>
                ToolChoiceFormatView::ArrayOfTools { terminal_after_first: *terminal_after_first },
        }
    }
}

/// Jail activation mode.
#[derive(Debug, PartialEq, Eq)]
pub enum JailMode {
    /// Traditional: wait for start marker, then jail.
    MarkerBased,
    /// Immediate: start jailed from the first token (for a forced tool choice).
    Immediate { format: ToolChoiceFormat },
}

/// The content of a [`JailMode`].
#[verifier::ext_equal]
pub enum JailModeView {
    MarkerBased,
    Immediate { format: ToolChoiceFormatView },
}

impl DeepView for JailMode {
    type V = JailModeView;

    open spec fn deep_view(&self) -> JailModeView {
        match self {
            JailMode::MarkerBased => JailModeView::MarkerBased,
            JailMode::Immediate { format } => JailModeView::Immediate {
                format: format.deep_view(),
            },
        }
    }
}

/// Emission mode for handling multiple choices.
#[derive(Debug, Clone, Copy, PartialEq, Eq, Structural)]
pub enum EmissionMode {
    /// Pack multiple choices in the same chunk.
    Packed,
    /// Emit one choice per chunk for OpenAI compatibility.
    SingleChoicePerChunk,
}

impl DeepView for EmissionMode {
    type V = EmissionMode;

    open spec fn deep_view(&self) -> EmissionMode {
        *self
    }
}

impl Default for EmissionMode {
    fn default() -> (r: Self)
        ensures
            r == EmissionMode::Packed,
    {
        EmissionMode::Packed
    }
}

/// A stream transformer that can "jail" tokens based on configurable start/end
/// sequences. When jailed, tokens are accumulated rather than yielded
/// immediately. When the jail ends (via end sequence or stream completion),
/// accumulated content is processed and released.
#[derive(Debug, PartialEq, Eq)]
pub struct JailedStream {
    pub jail_start_sequences: Vec<String>,
    pub jail_end_sequences: Vec<String>,
    pub tool_call_parser: Option<String>,
    /// When set, only tool calls with this name are emitted.
    pub named_tool_name: Option<String>,
    pub tool_definitions: Option<Vec<ToolDefinition>>,
    pub emission_mode: EmissionMode,
    /// The markers that the marker matcher looks for.
    pub marker_patterns: Vec<String>,
    pub jail_mode: JailMode,
    pub defer_terminal_until_usage: bool,
}

/// The content of a [`JailedStream`].
#[verifier::ext_equal]
pub struct JailedStreamView {
    pub jail_start_sequences: Seq<Seq<char>>,
    pub jail_end_sequences: Seq<Seq<char>>,
    pub tool_call_parser: Option<Seq<char>>,
    pub named_tool_name: Option<Seq<char>>,
    pub tool_definitions: Option<Seq<ToolDefinitionView>>,
    pub emission_mode: EmissionMode,
    pub marker_patterns: Seq<Seq<char>>,
    pub jail_mode: JailModeView,
    pub defer_terminal_until_usage: bool,
}

impl DeepView for JailedStream {
    type V = JailedStreamView;

    open spec fn deep_view(&self) -> JailedStreamView {
        JailedStreamView {
            jail_start_sequences: self.jail_start_sequences.deep_view(),
            jail_end_sequences: self.jail_end_sequences.deep_view(),
            tool_call_parser: self.tool_call_parser.deep_view(),
            named_tool_name: self.named_tool_name.deep_view(),
            tool_definitions: self.tool_definitions.deep_view(),
            emission_mode: self.emission_mode,
            marker_patterns: self.marker_patterns.deep_view(),
            jail_mode: self.jail_mode.deep_view(),
            defer_terminal_until_usage: self.defer_terminal_until_usage,
        }
    }
}

impl JailedStreamView {
    /// Tool-choice=required: an array of tool calls is expected.
    pub open spec fn is_required(self) -> bool {
        self.jail_mode matches JailModeView::Immediate { format } && format is ArrayOfTools
    }

    /// Tool-choice=required where more than one call may come.
    pub open spec fn guards_duplicates(self) -> bool {
        self.jail_mode == (JailModeView::Immediate {
            format: ToolChoiceFormatView::ArrayOfTools { terminal_after_first: false },
        })
    }

    /// A forced tool choice that is complete after its first call.
    pub open spec fn is_terminal_choice(self) -> bool {
        self.jail_mode matches JailModeView::Immediate { format } && (format is SingleObject
            || format == ToolChoiceFormatView::ArrayOfTools { terminal_after_first: true })
    }

    /// The `poolside_v1` markup is parsed while it arrives.
    pub open spec fn is_poolside_v1(self) -> bool {
        self.tool_call_parser == Some("poolside_v1"@) && self.jail_mode is MarkerBased
    }

    /// There are tools that the `poolside_v1` markup can call.
    pub open spec fn has_tools(self) -> bool {
        self.tool_definitions matches Some(tools) && tools.len() > 0
    }

    /// `poolside_v1` markup is parsed while it arrives.
    pub open spec fn parses_markup(self) -> bool {
        self.is_poolside_v1() && self.has_tools()
    }
}

impl JailedStream {
    /// Whether the jail starts already-jailed (tool_choice=required/named path).
    pub fn is_immediate(&self) -> (r: bool)
        ensures
            r == (self.deep_view().jail_mode is Immediate),
    {
        match self.jail_mode {
            JailMode::Immediate { .. } => true,
            JailMode::MarkerBased => false,
        }
    }

    /// Whether the `poolside_v1` markup is parsed while it arrives.
    pub fn is_poolside_v1_parser(&self) -> (r: bool)
        ensures
            r == self.deep_view().is_poolside_v1(),
    {
        match &self.tool_call_parser {
            Some(parser) => same_text(parser.as_str(), "poolside_v1") && !self.is_immediate(),
            None => false,
        }
    }

    /// Whether there are tools that the `poolside_v1` markup can call.
    pub fn poolside_v1_tools_enabled(&self) -> (r: bool)
        ensures
            r == self.deep_view().has_tools(),
    {
        match &self.tool_definitions {
            Some(tools) => tools.len() > 0,
            None => false,
        }
    }

    /// Whether an array of tool calls is expected.
    pub fn is_required(&self) -> (r: bool)
        ensures
            r == self.deep_view().is_required(),
    {
        match &self.jail_mode {
            JailMode::Immediate { format: ToolChoiceFormat::ArrayOfTools { .. } } => true,
            _ => false,
        }
    }

    /// Whether more than one call may come, and each only once.
    pub fn guards_duplicates(&self) -> (r: bool)
        ensures
            r == self.deep_view().guards_duplicates(),
    {
        match &self.jail_mode {
            JailMode::Immediate { format: ToolChoiceFormat::ArrayOfTools { terminal_after_first } } =>
                !*terminal_after_first,
            _ => false,
        }
    }

    /// Whether the forced tool choice is complete after its first call.
    pub fn is_terminal_choice(&self) -> (r: bool)
        ensures
            r == self.deep_view().is_terminal_choice(),
    {
        match &self.jail_mode {
            JailMode::Immediate { format: ToolChoiceFormat::SingleObject { .. } } => true,
            JailMode::Immediate { format: ToolChoiceFormat::ArrayOfTools { terminal_after_first } } =>
                *terminal_after_first,
            JailMode::MarkerBased => false,
        }
    }
}

} // verus!
