//! Reasoning controls of a request, brought into the arguments of the chat template.

use crate::copy::Duplicate;
use crate::json::{looked_up, Json, JsonMap, JsonView};
use crate::request_types::{
    CreateChatCompletionRequestView, NvCreateChatCompletionRequest,
    NvCreateChatCompletionRequestView, ReasoningEffort,
};
use crate::text::same_text;
use vstd::prelude::*;

verus! {

/// The arguments of the chat template: a map, or none.
pub type TemplateArgs = Option<Map<Seq<char>, JsonView>>;

/// The name of an effort.
pub open spec fn effort_name(effort: ReasoningEffort) -> Seq<char> {
    match effort {
        ReasoningEffort::NoEffort => "none"@,
        ReasoningEffort::Minimal => "minimal"@,
        ReasoningEffort::Low => "low"@,
        ReasoningEffort::Medium => "medium"@,
        ReasoningEffort::High => "high"@,
        ReasoningEffort::Xhigh => "xhigh"@,
        ReasoningEffort::Max => "max"@,
    }
}

/// The effort of that name.
pub open spec fn effort_named(name: Seq<char>) -> Option<ReasoningEffort> {
    if name == "none"@ {
        Some(ReasoningEffort::NoEffort)
    } else if name == "minimal"@ {
        Some(ReasoningEffort::Minimal)
    } else if name == "low"@ {
        Some(ReasoningEffort::Low)
    } else if name == "medium"@ {
        Some(ReasoningEffort::Medium)
    } else if name == "high"@ {
        Some(ReasoningEffort::High)
    } else if name == "xhigh"@ {
        Some(ReasoningEffort::Xhigh)
    } else if name == "max"@ {
        Some(ReasoningEffort::Max)
    } else {
        None
    }
}

impl ReasoningEffort {
    /// The name of the effort.
    pub fn name(&self) -> (r: &'static str)
        ensures
            r@ == effort_name(*self),
    {
        match self {
            ReasoningEffort::NoEffort => "none",
            ReasoningEffort::Minimal => "minimal",
            ReasoningEffort::Low => "low",
            ReasoningEffort::Medium => "medium",
            ReasoningEffort::High => "high",
            ReasoningEffort::Xhigh => "xhigh",
            ReasoningEffort::Max => "max",
        }
    }

    /// The effort of that name.
    pub fn named(name: &str) -> (r: Option<ReasoningEffort>)
        ensures
            r == effort_named(name@),
    {
        if same_text(name, "none") {
            Some(ReasoningEffort::NoEffort)
        } else if same_text(name, "minimal") {
            Some(ReasoningEffort::Minimal)
        } else if same_text(name, "low") {
            Some(ReasoningEffort::Low)
        } else if same_text(name, "medium") {
            Some(ReasoningEffort::Medium)
        } else if same_text(name, "high") {
            Some(ReasoningEffort::High)
        } else if same_text(name, "xhigh") {
            Some(ReasoningEffort::Xhigh)
        } else if same_text(name, "max") {
            Some(ReasoningEffort::Max)
        } else {
            None
        }
    }
}

/// What a client asks of thinking.
#[derive(Debug, Clone, Copy, PartialEq, Eq, Structural)]
pub enum OpenAiThinkingMode {
    Enabled,
    Disabled,
    Adaptive,
}

/// The refusal of a control that is neither a boolean nor an object.
pub open spec fn thinking_shape_error() -> Seq<char> {
    "`thinking` must be a boolean or an object with `type` set to `enabled`, `disabled`, or `adaptive`"@
}

/// The refusal of an object without a known type.
pub open spec fn thinking_type_error() -> Seq<char> {
    "`thinking.type` must be `enabled`, `disabled`, or `adaptive`"@
}

/// What a client's thinking control asks for: a boolean, or an object with a known type.
pub open spec fn thinking_mode(value: JsonView) -> Result<OpenAiThinkingMode, Seq<char>> {
    match value {
        JsonView::Bool(true) => Ok(OpenAiThinkingMode::Enabled),
        JsonView::Bool(false) => Ok(OpenAiThinkingMode::Disabled),
        JsonView::Object(m) => match looked_up(m, "type"@) {
            Some(JsonView::Text(t)) => if t == "enabled"@ {
                Ok(OpenAiThinkingMode::Enabled)
            } else if t == "disabled"@ {
                Ok(OpenAiThinkingMode::Disabled)
            } else if t == "adaptive"@ {
                Ok(OpenAiThinkingMode::Adaptive)
            } else {
                Err(thinking_type_error())
            },
            _ => Err(thinking_type_error()),
        },
        _ => Err(thinking_shape_error()),
    }
}

/// What a client's thinking control asks for.
pub fn openai_thinking_mode(value: &Json) -> (r: Result<OpenAiThinkingMode, String>)
    ensures
        r matches Ok(mode) ==> thinking_mode(value@) == Ok::<_, Seq<char>>(mode),
        r matches Err(error) ==> thinking_mode(value@) == Err::<OpenAiThinkingMode, _>(error@),
{
    match value {
        Json::Bool(enabled) => Ok(
            if *enabled {
                OpenAiThinkingMode::Enabled
            } else {
                OpenAiThinkingMode::Disabled
            },
        ),
        Json::Object(_) => match value.get("type") {
            Some(Json::Text(t)) => if same_text(t.as_str(), "enabled") {
                Ok(OpenAiThinkingMode::Enabled)
            } else if same_text(t.as_str(), "disabled") {
                Ok(OpenAiThinkingMode::Disabled)
            } else if same_text(t.as_str(), "adaptive") {
                Ok(OpenAiThinkingMode::Adaptive)
            } else {
                Err("`thinking.type` must be `enabled`, `disabled`, or `adaptive`".to_owned())
            },
            _ => Err("`thinking.type` must be `enabled`, `disabled`, or `adaptive`".to_owned()),
        },
        _ => Err(
            "`thinking` must be a boolean or an object with `type` set to `enabled`, `disabled`, or `adaptive`".to_owned(),
        ),
    }
}

/// The arguments, where there are none an empty map.
pub open spec fn present(args: TemplateArgs) -> Map<Seq<char>, JsonView> {
    match args {
        Some(m) => m,
        None => Map::empty(),
    }
}

/// The arguments after a thinking mode.
pub open spec fn with_mode(
    m: Map<Seq<char>, JsonView>,
    mode: Option<OpenAiThinkingMode>,
) -> Map<Seq<char>, JsonView> {
    match mode {
        Some(OpenAiThinkingMode::Enabled) => m.insert("thinking"@, JsonView::Bool(true)).insert(
            "thinking_mode"@,
            JsonView::Text("enabled"@),
        ),
        Some(OpenAiThinkingMode::Disabled) => m.insert("thinking"@, JsonView::Bool(false)).insert(
            "thinking_mode"@,
            JsonView::Text("disabled"@),
        ),
        Some(OpenAiThinkingMode::Adaptive) => m.insert(
            "thinking_mode"@,
            JsonView::Text("adaptive"@),
        ),
        None => m,
    }
}

/// The request with its thinking control and its effort folded into the template
/// arguments, over what those hold. A request with neither stays as it is.
pub open spec fn with_template_args(r: NvCreateChatCompletionRequestView) -> Result<
    NvCreateChatCompletionRequestView,
    Seq<char>,
> {
    if r.thinking is Some && thinking_mode(r.thinking->0) is Err {
        Err(thinking_mode(r.thinking->0)->Err_0)
    } else if r.thinking is None && r.inner.reasoning_effort is None {
        Ok(r)
    } else {
        let mode = match r.thinking {
            Some(value) => Some(thinking_mode(value)->Ok_0),
            None => None,
        };
        let m = with_mode(present(r.chat_template_args), mode);
        let all = match r.inner.reasoning_effort {
            Some(effort) => m.insert("reasoning_effort"@, JsonView::Text(effort_name(effort))),
            None => m,
        };
        Ok(NvCreateChatCompletionRequestView { chat_template_args: Some(all), thinking: None, ..r })
    }
}

/// The arguments with a value under `key`, unless one is there.
pub open spec fn with_arg_if_absent(args: TemplateArgs, key: Seq<char>, value: bool) -> TemplateArgs {
    let m = present(args);
    if m.dom().contains(key) {
        Some(m)
    } else {
        Some(m.insert(key, JsonView::Bool(value)))
    }
}

/// The arguments with the flags that an effort sets; flags that are there stay.
pub open spec fn with_effort(args: TemplateArgs, effort: Seq<char>) -> TemplateArgs {
    if effort == "none"@ {
        with_arg_if_absent(args, "enable_thinking"@, false)
    } else if effort == "minimal"@ || effort == "low"@ || effort == "medium"@ {
        with_arg_if_absent(
            with_arg_if_absent(
                with_arg_if_absent(args, "enable_thinking"@, true),
                "low_effort"@,
                true,
            ),
            "medium_effort"@,
            true,
        )
    } else if effort == "high"@ || effort == "xhigh"@ || effort == "max"@ {
        with_arg_if_absent(args, "enable_thinking"@, true)
    } else {
        args
    }
}

/// The arguments say something of thinking themselves.
pub open spec fn explicit_thinking(args: TemplateArgs) -> bool {
    match args {
        Some(m) => m.dom().contains("enable_thinking"@) || m.dom().contains("thinking"@)
            || m.dom().contains("low_effort"@) || m.dom().contains("medium_effort"@),
        None => false,
    }
}

/// The arguments with `thinking` under its other name too.
pub open spec fn with_alias(args: TemplateArgs) -> TemplateArgs {
    match looked_up(present(args), "thinking"@) {
        Some(JsonView::Bool(thinking)) => with_arg_if_absent(args, "enable_thinking"@, thinking),
        _ => args,
    }
}

/// The fields without the reasoning control; its token limit becomes the reasoning
/// budget, unless there is one.
pub open spec fn without_reasoning(fields: Map<Seq<char>, JsonView>) -> Map<Seq<char>, JsonView> {
    let rest = fields.remove("reasoning"@);
    match looked_up(fields, "reasoning"@) {
        Some(JsonView::Object(reasoning)) => if !rest.dom().contains("reasoning_budget"@)
            && reasoning.dom().contains("max_tokens"@) {
            rest.insert("reasoning_budget"@, reasoning["max_tokens"@])
        } else {
            rest
        },
        _ => rest,
    }
}

/// The effort and the template arguments after the reasoning control `reasoning`.
pub open spec fn after_reasoning(
    effort: Option<ReasoningEffort>,
    args: TemplateArgs,
    explicit: bool,
    reasoning: Map<Seq<char>, JsonView>,
) -> (Option<ReasoningEffort>, TemplateArgs) {
    if looked_up(reasoning, "enabled"@) == Some(JsonView::Bool(false)) {
        if explicit {
            (effort, args)
        } else {
            (effort, with_arg_if_absent(args, "enable_thinking"@, false))
        }
    } else if explicit || effort is Some {
        (effort, args)
    } else {
        match looked_up(reasoning, "effort"@) {
            Some(JsonView::Text(name)) => (effort_named(name), with_effort(args, name)),
            _ => if looked_up(reasoning, "enabled"@) == Some(JsonView::Bool(true)) {
                (effort, with_arg_if_absent(args, "enable_thinking"@, true))
            } else {
                (effort, args)
            },
        }
    }
}

/// The request with its reasoning controls brought into the template arguments.
/// Arguments that say something of thinking themselves go before all else, the
/// effort of the request before that of the reasoning control.
pub open spec fn normalized_controls(
    r: NvCreateChatCompletionRequestView,
) -> NvCreateChatCompletionRequestView {
    let aliased = with_alias(r.chat_template_args);
    let explicit = explicit_thinking(aliased);
    let args = match r.inner.reasoning_effort {
        Some(effort) => if explicit {
            aliased
        } else {
            with_effort(aliased, effort_name(effort))
        },
        None => aliased,
    };
    let after = match looked_up(r.unsupported_fields, "reasoning"@) {
        Some(JsonView::Object(reasoning)) => after_reasoning(
            r.inner.reasoning_effort,
            args,
            explicit,
            reasoning,
        ),
        _ => (r.inner.reasoning_effort, args),
    };
    NvCreateChatCompletionRequestView {
        inner: CreateChatCompletionRequestView { reasoning_effort: after.0, ..r.inner },
        chat_template_args: after.1,
        unsupported_fields: without_reasoning(r.unsupported_fields),
        ..r
    }
}

/// Template arguments of the client never change, whatever the other controls say.
pub proof fn law_template_args_win(r: NvCreateChatCompletionRequestView, key: Seq<char>)
    requires
        present(r.chat_template_args).dom().contains(key),
    ensures
        present(normalized_controls(r).chat_template_args).dom().contains(key),
        present(normalized_controls(r).chat_template_args)[key] == present(
            r.chat_template_args,
        )[key],
{
}

/// Bringing the controls in twice changes no more than once.
pub proof fn law_controls_settle(r: NvCreateChatCompletionRequestView)
    ensures
        normalized_controls(normalized_controls(r)) == normalized_controls(r),
{
    let once = normalized_controls(r);
    let twice = normalized_controls(once);
    reveal_strlit("reasoning");
    reveal_strlit("reasoning_budget");
    assert("reasoning"@.len() == 9 && "reasoning_budget"@.len() == 16);
    assert(!once.unsupported_fields.dom().contains("reasoning"@));
    assert(twice.unsupported_fields =~= once.unsupported_fields);
    lemma_alias_settles(r);
    assert(twice.inner =~= once.inner);
}

/// The alias is in place after the controls are brought in.
proof fn lemma_alias_settles(r: NvCreateChatCompletionRequestView)
    ensures
        normalized_controls(normalized_controls(r)).chat_template_args == normalized_controls(
            r,
        ).chat_template_args,
{
    let once = normalized_controls(r);
    let args = once.chat_template_args;
    reveal_strlit("thinking");
    reveal_strlit("enable_thinking");
    reveal_strlit("low_effort");
    reveal_strlit("medium_effort");
    assert("thinking"@.len() == 8 && "enable_thinking"@.len() == 15 && "low_effort"@.len() == 10
        && "medium_effort"@.len() == 13);
    assert(looked_up(present(args), "thinking"@) == looked_up(
        present(r.chat_template_args),
        "thinking"@,
    ));
    assert(with_alias(args) == args);
    reveal_strlit("reasoning");
    reveal_strlit("reasoning_budget");
    assert("reasoning"@.len() == 9 && "reasoning_budget"@.len() == 16);
    assert(!once.unsupported_fields.dom().contains("reasoning"@));
    assert(once.inner.reasoning_effort is Some ==> explicit_thinking(args));
}

/// The thinking control is gone after it is folded in, and folding again changes
/// nothing.
pub proof fn law_template_args_settle(r: NvCreateChatCompletionRequestView)
    requires
        with_template_args(r) is Ok,
    ensures
        with_template_args(r)->Ok_0.thinking is None,
        with_template_args(with_template_args(r)->Ok_0) == with_template_args(r),
{
    let once = with_template_args(r)->Ok_0;
    if once.inner.reasoning_effort is Some {
        let effort = once.inner.reasoning_effort->0;
        let m = present(once.chat_template_args);
        assert(m.insert("reasoning_effort"@, JsonView::Text(effort_name(effort))) =~= m);
    }
}

impl NvCreateChatCompletionRequest {
    /// Folds the thinking control and the effort into the template arguments.
    pub fn normalize_reasoning_template_args(&mut self) -> (r: Result<(), String>)
        ensures
            r is Ok ==> with_template_args(old(self).deep_view()) == Ok::<_, Seq<char>>(
                final(self).deep_view(),
            ),
            r matches Err(error) ==> with_template_args(old(self).deep_view()) == Err::<
                NvCreateChatCompletionRequestView,
                _,
            >(error@) && *final(self) == *old(self),
    {
        let mode: Option<OpenAiThinkingMode> = match &self.thinking {
            Some(value) => match openai_thinking_mode(value) {
                Ok(mode) => Some(mode),
                Err(error) => {
                    return Err(error);
                },
            },
            None => None,
        };
        if mode.is_none() && self.inner.reasoning_effort.is_none() {
            return Ok(());
        }
        let mut args: JsonMap = match self.chat_template_args.take() {
            Some(args) => args,
            None => JsonMap::new(),
        };
        match mode {
            Some(OpenAiThinkingMode::Enabled) => {
                args.insert("thinking", Json::Bool(true));
                args.insert("thinking_mode", Json::text("enabled"));
            },
            Some(OpenAiThinkingMode::Disabled) => {
                args.insert("thinking", Json::Bool(false));
                args.insert("thinking_mode", Json::text("disabled"));
            },
            Some(OpenAiThinkingMode::Adaptive) => {
                args.insert("thinking_mode", Json::text("adaptive"));
            },
            None => {},
        }
        match &self.inner.reasoning_effort {
            Some(effort) => {
                args.insert("reasoning_effort", Json::text(effort.name()));
            },
            None => {},
        }
        self.chat_template_args = Some(args);
        self.thinking = None;
        Ok(())
    }

    /// Sets a template argument, unless it is there.
    fn set_chat_template_arg_if_absent(&mut self, key: &str, value: bool)
        ensures
            final(self).deep_view() == (NvCreateChatCompletionRequestView {
                chat_template_args: with_arg_if_absent(
                    old(self).deep_view().chat_template_args,
                    key@,
                    value,
                ),
                ..old(self).deep_view()
            }),
    {
        let mut args: JsonMap = match self.chat_template_args.take() {
            Some(args) => args,
            None => JsonMap::new(),
        };
        if !args.contains_key(key) {
            args.insert(key, Json::Bool(value));
        }
        self.chat_template_args = Some(args);
    }

    /// Sets the template arguments for an effort.
    fn apply_reasoning_effort_template_args(&mut self, effort: &str)
        ensures
            final(self).deep_view() == (NvCreateChatCompletionRequestView {
                chat_template_args: with_effort(
                    old(self).deep_view().chat_template_args,
                    effort@,
                ),
                ..old(self).deep_view()
            }),
    {
        if same_text(effort, "none") {
            self.set_chat_template_arg_if_absent("enable_thinking", false);
        } else if same_text(effort, "minimal") || same_text(effort, "low") || same_text(
            effort,
            "medium",
        ) {
            self.set_chat_template_arg_if_absent("enable_thinking", true);
            self.set_chat_template_arg_if_absent("low_effort", true);
            self.set_chat_template_arg_if_absent("medium_effort", true);
        } else if same_text(effort, "high") || same_text(effort, "xhigh") || same_text(
            effort,
            "max",
        ) {
            self.set_chat_template_arg_if_absent("enable_thinking", true);
        }
    }

    /// Whether the template arguments say something of thinking themselves.
    fn has_explicit_template_thinking(&self) -> (r: bool)
        ensures
            r == explicit_thinking(self.deep_view().chat_template_args),
    {
        match &self.chat_template_args {
            Some(args) => args.contains_key("enable_thinking") || args.contains_key("thinking")
                || args.contains_key("low_effort") || args.contains_key("medium_effort"),
            None => false,
        }
    }

    /// Gives the template's `thinking` its other name too.
    fn normalize_template_thinking_aliases(&mut self)
        ensures
            final(self).deep_view() == (NvCreateChatCompletionRequestView {
                chat_template_args: with_alias(old(self).deep_view().chat_template_args),
                ..old(self).deep_view()
            }),
    {
        let thinking: Option<bool> = match &self.chat_template_args {
            Some(args) => match args.get("thinking") {
                Some(Json::Bool(thinking)) => Some(*thinking),
                _ => None,
            },
            None => None,
        };
        match thinking {
            Some(thinking) => {
                self.set_chat_template_arg_if_absent("enable_thinking", thinking);
            },
            None => {},
        }
    }

    /// Brings the reasoning controls into the template arguments.
    pub fn normalize_reasoning_controls(&mut self)
        ensures
            final(self).deep_view() == normalized_controls(old(self).deep_view()),
    {
        let ghost before = self.deep_view();
        self.normalize_template_thinking_aliases();
        let explicit: bool = self.has_explicit_template_thinking();
        if !explicit {
            match self.inner.reasoning_effort {
                Some(effort) => {
                    self.apply_reasoning_effort_template_args(effort.name());
                },
                None => {},
            }
        }
        let reasoning: Json = match self.unsupported_fields.get("reasoning") {
            Some(reasoning) => reasoning.duplicate(),
            None => {
                assert(before.unsupported_fields.remove("reasoning"@)
                    =~= before.unsupported_fields);
                return ;
            },
        };
        self.unsupported_fields.remove("reasoning");
        if !reasoning.is_object() {
            return ;
        }
        if !self.unsupported_fields.contains_key("reasoning_budget") {
            match reasoning.get("max_tokens") {
                Some(max_tokens) => {
                    self.unsupported_fields.insert("reasoning_budget", max_tokens.duplicate());
                },
                None => {},
            }
        }
        let enabled: Option<bool> = match reasoning.get("enabled") {
            Some(Json::Bool(enabled)) => Some(*enabled),
            _ => None,
        };
        if let Some(false) = enabled {
            if !explicit {
                self.set_chat_template_arg_if_absent("enable_thinking", false);
            }
            return ;
        }
        if explicit || self.inner.reasoning_effort.is_some() {
            return ;
        }
        match reasoning.get("effort") {
            Some(Json::Text(name)) => {
                self.inner.reasoning_effort = ReasoningEffort::named(name.as_str());
                self.apply_reasoning_effort_template_args(name.as_str());
            },
            _ => {
                if let Some(true) = enabled {
                    self.set_chat_template_arg_if_absent("enable_thinking", true);
                }
            },
        }
    }
}

} // verus!
