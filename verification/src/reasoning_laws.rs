//! What holds of the controls of reasoning.

use crate::json::{looked_up, JsonView};
use crate::reasoning::{
    effort_name, effort_named, normalized_controls, present, thinking_mode, with_template_args,
    OpenAiThinkingMode,
};
use crate::request_types::{NvCreateChatCompletionRequestView, ReasoningEffort};
use vstd::prelude::*;

verus! {

/// Every effort is found again by its name.
pub proof fn law_efforts_have_names(effort: ReasoningEffort)
    ensures
        effort_named(effort_name(effort)) == Some(effort),
{
    lemma_effort_words();
}

/// The names of the efforts differ.
proof fn lemma_effort_names()
    ensures
        forall|a: ReasoningEffort, b: ReasoningEffort| #[trigger]
            effort_name(a) == #[trigger] effort_name(b) ==> a == b,
{
    reveal_strlit("none");
    reveal_strlit("minimal");
    reveal_strlit("low");
    reveal_strlit("medium");
    reveal_strlit("high");
    reveal_strlit("xhigh");
    reveal_strlit("max");
    assert("none"@.len() == 4 && "minimal"@.len() == 7 && "low"@.len() == 3 && "medium"@.len() == 6
        && "high"@.len() == 4 && "xhigh"@.len() == 5 && "max"@.len() == 3);
    assert("none"@[0] == 'n' && "high"@[0] == 'h' && "low"@[0] == 'l' && "max"@[0] == 'm');
}

/// The keys that the thinking control sets differ.
proof fn lemma_keys()
    ensures
        "thinking"@ != "thinking_mode"@,
        "thinking"@ != "reasoning_effort"@,
        "thinking_mode"@ != "reasoning_effort"@,
        "enabled"@ != "disabled"@,
        "enabled"@ != "adaptive"@,
        "disabled"@ != "adaptive"@,
{
    reveal_strlit("thinking");
    reveal_strlit("thinking_mode");
    reveal_strlit("reasoning_effort");
    reveal_strlit("enabled");
    reveal_strlit("disabled");
    reveal_strlit("adaptive");
    assert("thinking"@.len() == 8 && "thinking_mode"@.len() == 13 && "reasoning_effort"@.len()
        == 16);
    assert("enabled"@.len() == 7 && "disabled"@.len() == 8 && "adaptive"@.len() == 8);
    assert("disabled"@[0] == 'd' && "adaptive"@[0] == 'a');
}

/// The thinking control asks for `mode`.
pub open spec fn asks_for(thinking: JsonView, mode: OpenAiThinkingMode) -> bool {
    match mode {
        OpenAiThinkingMode::Enabled => thinking == JsonView::Bool(true) || (thinking is Object
            && looked_up(thinking->Object_0, "type"@) == Some(JsonView::Text("enabled"@))),
        OpenAiThinkingMode::Disabled => thinking == JsonView::Bool(false) || (thinking is Object
            && looked_up(thinking->Object_0, "type"@) == Some(JsonView::Text("disabled"@))),
        OpenAiThinkingMode::Adaptive => thinking is Object && looked_up(
            thinking->Object_0,
            "type"@,
        ) == Some(JsonView::Text("adaptive"@)),
    }
}

/// The thinking control and the effort of a request reach the template: `thinking` is on or
/// off as the control says and stays as it was where it is left to the model, the mode has
/// its name, and so has the effort. A control that asks for nothing known is refused. Other
/// arguments, and the rest of the request, stay.
pub proof fn law_thinking_reaches_the_template(r: NvCreateChatCompletionRequestView, key: Seq<char>)
    ensures
        with_template_args(r) is Err <==> r.thinking is Some && !asks_for(
            r.thinking->0,
            OpenAiThinkingMode::Enabled,
        ) && !asks_for(r.thinking->0, OpenAiThinkingMode::Disabled) && !asks_for(
            r.thinking->0,
            OpenAiThinkingMode::Adaptive,
        ),
        with_template_args(r) matches Ok(done) ==> {
            let before = present(r.chat_template_args);
            let args = present(done.chat_template_args);
            &&& done == (NvCreateChatCompletionRequestView {
                chat_template_args: done.chat_template_args,
                thinking: None,
                ..r
            })
            &&& r.thinking matches Some(thinking) ==> {
                &&& asks_for(thinking, OpenAiThinkingMode::Enabled) ==> {
                    &&& looked_up(args, "thinking"@) == Some(JsonView::Bool(true))
                    &&& looked_up(args, "thinking_mode"@) == Some(JsonView::Text("enabled"@))
                }
                &&& asks_for(thinking, OpenAiThinkingMode::Disabled) ==> {
                    &&& looked_up(args, "thinking"@) == Some(JsonView::Bool(false))
                    &&& looked_up(args, "thinking_mode"@) == Some(JsonView::Text("disabled"@))
                }
                &&& asks_for(thinking, OpenAiThinkingMode::Adaptive) ==> {
                    &&& looked_up(args, "thinking"@) == looked_up(before, "thinking"@)
                    &&& looked_up(args, "thinking_mode"@) == Some(JsonView::Text("adaptive"@))
                }
            }
            &&& r.inner.reasoning_effort matches Some(effort) ==> looked_up(
                args,
                "reasoning_effort"@,
            ) == Some(JsonView::Text(effort_name(effort)))
            &&& key != "thinking"@ && key != "thinking_mode"@ && key != "reasoning_effort"@
                ==> looked_up(args, key) == looked_up(before, key)
            &&& r.thinking is None && (key == "thinking"@ || key == "thinking_mode"@) ==> looked_up(
                args,
                key,
            ) == looked_up(before, key)
            &&& r.inner.reasoning_effort is None && key == "reasoning_effort"@ ==> looked_up(
                args,
                key,
            ) == looked_up(before, key)
        },
{
    lemma_keys();
}

/// What the template arguments say of thinking: whether it is on, and whether with little
/// effort.
pub open spec fn flags_are(
    args: Map<Seq<char>, JsonView>,
    on: Option<bool>,
    little: bool,
) -> bool {
    &&& looked_up(args, "enable_thinking"@) == (match on {
        Some(on) => Some(JsonView::Bool(on)),
        None => None,
    })
    &&& looked_up(args, "low_effort"@) == if little {
        Some(JsonView::Bool(true))
    } else {
        None
    }
    &&& looked_up(args, "medium_effort"@) == if little {
        Some(JsonView::Bool(true))
    } else {
        None
    }
}

/// What an effort makes the template arguments say.
pub open spec fn flags_for(args: Map<Seq<char>, JsonView>, effort: ReasoningEffort) -> bool {
    match effort {
        ReasoningEffort::NoEffort => flags_are(args, Some(false), false),
        ReasoningEffort::Minimal => flags_are(args, Some(true), true),
        ReasoningEffort::Low => flags_are(args, Some(true), true),
        ReasoningEffort::Medium => flags_are(args, Some(true), true),
        ReasoningEffort::High => flags_are(args, Some(true), false),
        ReasoningEffort::Xhigh => flags_are(args, Some(true), false),
        ReasoningEffort::Max => flags_are(args, Some(true), false),
    }
}

/// The client says something of thinking in the template arguments.
pub open spec fn says_itself(args: Map<Seq<char>, JsonView>) -> bool {
    looked_up(args, "enable_thinking"@) is Some || looked_up(args, "thinking"@) is Some
        || looked_up(args, "low_effort"@) is Some || looked_up(args, "medium_effort"@) is Some
}

/// The keys of the flags differ from each other and from the rest.
proof fn lemma_flag_keys()
    ensures
        "thinking"@ != "enable_thinking"@,
        "thinking"@ != "low_effort"@,
        "thinking"@ != "medium_effort"@,
        "enable_thinking"@ != "low_effort"@,
        "enable_thinking"@ != "medium_effort"@,
        "low_effort"@ != "medium_effort"@,
        "reasoning"@ != "reasoning_budget"@,
{
    reveal_strlit("thinking");
    reveal_strlit("enable_thinking");
    reveal_strlit("low_effort");
    reveal_strlit("medium_effort");
    reveal_strlit("reasoning");
    reveal_strlit("reasoning_budget");
    assert("thinking"@.len() == 8 && "enable_thinking"@.len() == 15 && "low_effort"@.len() == 10
        && "medium_effort"@.len() == 13 && "reasoning"@.len() == 9 && "reasoning_budget"@.len()
        == 16);
}

/// Where the client says nothing of thinking in the template arguments, the effort of the
/// request decides; without one the effort of the `reasoning` control, unless the control
/// turns reasoning off; and without that, whether the control turns it on.
pub proof fn law_the_effort_decides_thinking(
    r: NvCreateChatCompletionRequestView,
    effort: ReasoningEffort,
)
    requires
        !says_itself(present(r.chat_template_args)),
    ensures
        ({
            let done = normalized_controls(r);
            let args = present(done.chat_template_args);
            let control = looked_up(r.unsupported_fields, "reasoning"@);
            let given = control matches Some(JsonView::Object(_));
            let fields = control->0->Object_0;
            let off = given && looked_up(fields, "enabled"@) == Some(JsonView::Bool(false));
            let on = given && looked_up(fields, "enabled"@) == Some(JsonView::Bool(true));
            let named = given && looked_up(fields, "effort"@) matches Some(JsonView::Text(_));
            &&& r.inner.reasoning_effort == Some(effort) ==> flags_for(args, effort)
                && done.inner.reasoning_effort == Some(effort)
            &&& r.inner.reasoning_effort is None ==> {
                &&& off ==> flags_are(args, Some(false), false)
                    && done.inner.reasoning_effort is None
                &&& !off && named && looked_up(fields, "effort"@) == Some(
                    JsonView::Text(effort_name(effort)),
                ) ==> flags_for(args, effort) && done.inner.reasoning_effort == Some(effort)
                &&& on && !named ==> flags_are(args, Some(true), false)
                    && done.inner.reasoning_effort is None
                &&& !off && !on && !named ==> flags_are(args, None, false)
                    && done.inner.reasoning_effort is None
            }
        }),
{
    lemma_flag_keys();
    lemma_effort_names();
    law_efforts_have_names(effort);
    lemma_effort_words();
}

/// The words for the efforts differ.
proof fn lemma_effort_words()
    ensures
        "none"@ != "minimal"@ && "none"@ != "low"@ && "none"@ != "medium"@ && "none"@ != "high"@
            && "none"@ != "xhigh"@ && "none"@ != "max"@,
        "high"@ != "minimal"@ && "high"@ != "low"@ && "high"@ != "medium"@,
        "xhigh"@ != "minimal"@ && "xhigh"@ != "low"@ && "xhigh"@ != "medium"@,
        "max"@ != "minimal"@ && "max"@ != "low"@ && "max"@ != "medium"@,
        "minimal"@ != "low"@ && "minimal"@ != "medium"@ && "low"@ != "medium"@,
        "high"@ != "xhigh"@ && "high"@ != "max"@ && "xhigh"@ != "max"@,
{
    lemma_effort_names();
    assert(effort_name(ReasoningEffort::NoEffort) == "none"@);
    assert(effort_name(ReasoningEffort::Minimal) == "minimal"@);
    assert(effort_name(ReasoningEffort::Low) == "low"@);
    assert(effort_name(ReasoningEffort::Medium) == "medium"@);
    assert(effort_name(ReasoningEffort::High) == "high"@);
    assert(effort_name(ReasoningEffort::Xhigh) == "xhigh"@);
    assert(effort_name(ReasoningEffort::Max) == "max"@);
}

/// Where the client says something of thinking in the template arguments, nothing else
/// counts: they stay, but that `thinking` is known under its other name too, and the effort
/// stays what it was.
pub proof fn law_template_args_decide_thinking(
    r: NvCreateChatCompletionRequestView,
    key: Seq<char>,
)
    requires
        says_itself(present(r.chat_template_args)),
    ensures
        ({
            let done = normalized_controls(r);
            let before = present(r.chat_template_args);
            let args = present(done.chat_template_args);
            &&& done.inner.reasoning_effort == r.inner.reasoning_effort
            &&& key != "enable_thinking"@ ==> looked_up(args, key) == looked_up(before, key)
            &&& looked_up(args, "enable_thinking"@) == (if looked_up(before, "enable_thinking"@)
                is Some {
                looked_up(before, "enable_thinking"@)
            } else {
                match looked_up(before, "thinking"@) {
                    Some(JsonView::Bool(on)) => Some(JsonView::Bool(on)),
                    _ => None,
                }
            })
        }),
{
    lemma_flag_keys();
}

/// Bringing in the controls takes the `reasoning` control out of the request and leaves the
/// rest alone: its token limit becomes the reasoning budget unless there is one, other
/// fields stay, and so do other template arguments and everything else.
pub proof fn law_controls_leave_the_rest(r: NvCreateChatCompletionRequestView, key: Seq<char>)
    ensures
        ({
            let done = normalized_controls(r);
            let fields = done.unsupported_fields;
            let before = r.unsupported_fields;
            &&& done.inner.messages == r.inner.messages
            &&& done.inner.model == r.inner.model
            &&& done.inner.tools == r.inner.tools
            &&& done.inner.tool_choice == r.inner.tool_choice
            &&& done.common == r.common
            &&& done.nvext == r.nvext
            &&& done.thinking == r.thinking
            &&& done.return_tokens_as_token_ids == r.return_tokens_as_token_ids
            &&& looked_up(fields, "reasoning"@) is None
            &&& key != "reasoning"@ && key != "reasoning_budget"@ ==> looked_up(fields, key)
                == looked_up(before, key)
            &&& looked_up(fields, "reasoning_budget"@) == (if looked_up(before, "reasoning_budget"@)
                is Some {
                looked_up(before, "reasoning_budget"@)
            } else {
                match looked_up(before, "reasoning"@) {
                    Some(JsonView::Object(control)) => looked_up(control, "max_tokens"@),
                    _ => None,
                }
            })
            &&& key != "enable_thinking"@ && key != "low_effort"@ && key != "medium_effort"@
                ==> looked_up(present(done.chat_template_args), key) == looked_up(
                present(r.chat_template_args),
                key,
            )
        }),
{
    lemma_flag_keys();
}

} // verus!
