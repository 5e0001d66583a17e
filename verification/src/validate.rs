//! Checks of a request before it is served.

use crate::chat_request::{as_tokens, has_text, tokens_of};
use crate::chat_types::{ChatCompletionMessageToolCall, ChatCompletionMessageToolCallView};
use crate::copy::{no_items, push_item, Duplicate};
use crate::json::{looked_up, Json, JsonMap, JsonView};
use crate::json_text::parsed_json;
use crate::request_types::{
    ChatCompletionRequestMessage, ChatCompletionRequestMessageView, ChatCompletionTool,
    ChatCompletionToolChoiceOption, ChatCompletionToolChoiceOptionView, ChatCompletionToolView,
    NvCreateChatCompletionRequest, NvCreateChatCompletionRequestView, NvExt,
};
use crate::text::{blank, chars_of, decimal, decimal_text, is_blank, join};
use crate::tools::{find_tool, tool_named};
use vstd::prelude::*;

verus! {

/// What the checks of single fields found: for each field the error, where there is
/// one. Numbers with fractions are among them, and limits that a deployment sets.
#[derive(Debug, Default, PartialEq, Eq)]
pub struct RequestChecks {
    pub unsupported_fields: Option<String>,
    pub messages: Option<String>,
    pub model: Option<String>,
    pub reasoning_effort: Option<String>,
    pub frequency_penalty: Option<String>,
    pub logit_bias: Option<String>,
    pub top_logprobs: Option<String>,
    pub max_completion_tokens: Option<String>,
    pub n: Option<String>,
    pub presence_penalty: Option<String>,
    pub response_format: Option<String>,
    pub structured_outputs: Option<String>,
    pub service_tier: Option<String>,
    pub stop: Option<String>,
    pub temperature: Option<String>,
    pub top_p: Option<String>,
    pub user: Option<String>,
    pub repetition_penalty: Option<String>,
    pub min_p: Option<String>,
    pub top_k: Option<String>,
    pub n_with_temperature: Option<String>,
}

/// The content of [`RequestChecks`].
#[verifier::ext_equal]
pub struct RequestChecksView {
    pub unsupported_fields: Option<Seq<char>>,
    pub messages: Option<Seq<char>>,
    pub model: Option<Seq<char>>,
    pub reasoning_effort: Option<Seq<char>>,
    pub frequency_penalty: Option<Seq<char>>,
    pub logit_bias: Option<Seq<char>>,
    pub top_logprobs: Option<Seq<char>>,
    pub max_completion_tokens: Option<Seq<char>>,
    pub n: Option<Seq<char>>,
    pub presence_penalty: Option<Seq<char>>,
    pub response_format: Option<Seq<char>>,
    pub structured_outputs: Option<Seq<char>>,
    pub service_tier: Option<Seq<char>>,
    pub stop: Option<Seq<char>>,
    pub temperature: Option<Seq<char>>,
    pub top_p: Option<Seq<char>>,
    pub user: Option<Seq<char>>,
    pub repetition_penalty: Option<Seq<char>>,
    pub min_p: Option<Seq<char>>,
    pub top_k: Option<Seq<char>>,
    pub n_with_temperature: Option<Seq<char>>,
}

impl DeepView for RequestChecks {
    type V = RequestChecksView;

    open spec fn deep_view(&self) -> RequestChecksView {
        RequestChecksView {
            unsupported_fields: self.unsupported_fields.deep_view(),
            messages: self.messages.deep_view(),
            model: self.model.deep_view(),
            reasoning_effort: self.reasoning_effort.deep_view(),
            frequency_penalty: self.frequency_penalty.deep_view(),
            logit_bias: self.logit_bias.deep_view(),
            top_logprobs: self.top_logprobs.deep_view(),
            max_completion_tokens: self.max_completion_tokens.deep_view(),
            n: self.n.deep_view(),
            presence_penalty: self.presence_penalty.deep_view(),
            response_format: self.response_format.deep_view(),
            structured_outputs: self.structured_outputs.deep_view(),
            service_tier: self.service_tier.deep_view(),
            stop: self.stop.deep_view(),
            temperature: self.temperature.deep_view(),
            top_p: self.top_p.deep_view(),
            user: self.user.deep_view(),
            repetition_penalty: self.repetition_penalty.deep_view(),
            min_p: self.min_p.deep_view(),
            top_k: self.top_k.deep_view(),
            n_with_temperature: self.n_with_temperature.deep_view(),
        }
    }
}

/// A character of a tool name.
pub open spec fn is_name_char(c: char) -> bool {
    ('a' <= c && c <= 'z') || ('A' <= c && c <= 'Z') || ('0' <= c && c <= '9') || c == '_' || c
        == '-'
}

/// A tool name: letters, digits, underscores and hyphens, at least one.
pub open spec fn is_tool_name(name: Seq<char>) -> bool {
    name.len() > 0 && forall|i: int| 0 <= i < name.len() ==> is_name_char(#[trigger] name[i])
}

/// The error of a tool with that name.
pub open spec fn tool_name_error(name: Seq<char>) -> Seq<char> {
    "tool name \""@ + name + "\" must be letters, digits, `_` and `-`, and not empty"@
}

/// The error of the first tool whose name is none.
pub open spec fn bad_tool_name(tools: Seq<ChatCompletionToolView>) -> Option<Seq<char>>
    decreases tools.len(),
{
    if tools.len() == 0 {
        None
    } else if !is_tool_name(tools[0].function.name) {
        Some(tool_name_error(tools[0].function.name))
    } else {
        bad_tool_name(tools.subrange(1, tools.len() as int))
    }
}

/// The error of the tools.
pub open spec fn tools_error(tools: Option<Seq<ChatCompletionToolView>>) -> Option<Seq<char>> {
    match tools {
        Some(tools) => bad_tool_name(tools),
        None => None,
    }
}

/// The error of the tool choice: a required call without tools, or a named tool that
/// is not there.
pub open spec fn tool_choice_error(
    choice: Option<ChatCompletionToolChoiceOptionView>,
    tools: Option<Seq<ChatCompletionToolView>>,
) -> Option<Seq<char>> {
    match choice {
        Some(ChatCompletionToolChoiceOptionView::Required) => if tools is None || tools->0.len()
            == 0 {
            Some(
                "When using `tool_choice`, `tools` must be set: tool_choice is \"required\" but tools is empty"@,
            )
        } else {
            None
        },
        Some(ChatCompletionToolChoiceOptionView::Named(name)) => if tools is Some && tool_named(
            tools->0,
            name,
        ) is Some {
            None
        } else {
            Some("tool named \""@ + name + "\" in tool_choice is not present in tools"@)
        },
        _ => None,
    }
}

/// Arguments of an earlier tool call: blank, or the text of a JSON object.
pub open spec fn arguments_ok(arguments: Seq<char>, parsed: Option<JsonView>) -> bool {
    is_blank(arguments) || (parsed is Some && parsed->0 is Object)
}

/// The error of the arguments of call `j` of message `i`.
pub open spec fn arguments_message(i: int, j: int) -> Seq<char> {
    "`messages["@ + decimal(i as nat) + "].tool_calls["@ + decimal(j as nat)
        + "].function.arguments` must be a valid JSON object string"@
}

/// The error of the first call, from call `j` on, with bad arguments.
pub open spec fn calls_error(
    calls: Seq<ChatCompletionMessageToolCallView>,
    i: int,
    j: int,
) -> Option<Seq<char>>
    decreases calls.len() - j,
{
    if j < 0 || j >= calls.len() {
        None
    } else if !arguments_ok(
        calls[j].function.arguments,
        parsed_json(calls[j].function.arguments),
    ) {
        Some(arguments_message(i, j))
    } else {
        calls_error(calls, i, j + 1)
    }
}

/// The error of the calls of a message.
pub open spec fn message_error(message: ChatCompletionRequestMessageView, i: int) -> Option<
    Seq<char>,
> {
    match message {
        ChatCompletionRequestMessageView::Assistant(assistant) => match assistant.tool_calls {
            Some(calls) => calls_error(calls, i, 0),
            None => None,
        },
        _ => None,
    }
}

/// The error of the first message, from message `i` on, with a call with bad arguments.
pub open spec fn arguments_error(
    messages: Seq<ChatCompletionRequestMessageView>,
    i: int,
) -> Option<Seq<char>>
    decreases messages.len() - i,
{
    if i < 0 || i >= messages.len() {
        None
    } else if message_error(messages[i], i) is Some {
        message_error(messages[i], i)
    } else {
        arguments_error(messages, i + 1)
    }
}

/// The error of a request for completion token ids of several choices.
pub open spec fn token_ids_error(r: NvCreateChatCompletionRequestView) -> Option<Seq<char>> {
    if r.inner.n is Some && r.inner.n->0 > 1 && r.nvext is Some && r.nvext->0.extra_fields is Some
        && r.nvext->0.extra_fields->0.contains("completion_token_ids"@) {
        Some("`completion_token_ids` is only supported for a single choice (n = 1)"@)
    } else {
        None
    }
}

/// The error of stop tokens that are none.
pub open spec fn stop_token_ids_error(fields: Map<Seq<char>, JsonView>) -> Option<Seq<char>> {
    match looked_up(fields, "stop_token_ids"@) {
        Some(value) => if as_tokens(value) is None {
            Some("`stop_token_ids` must be an array of token ids"@)
        } else {
            None
        },
        None => None,
    }
}

/// The first error in a list.
pub open spec fn first_error(found: Seq<Option<Seq<char>>>) -> Option<Seq<char>>
    decreases found.len(),
{
    if found.len() == 0 {
        None
    } else if found[0] is Some {
        found[0]
    } else {
        first_error(found.subrange(1, found.len() as int))
    }
}

/// All checks of a request, in the order in which their errors count.
pub open spec fn all_checks(r: NvCreateChatCompletionRequestView, c: RequestChecksView) -> Seq<
    Option<Seq<char>>,
> {
    Seq::<Option<Seq<char>>>::empty()
        .push(c.unsupported_fields)
        .push(stop_token_ids_error(r.unsupported_fields))
        .push(c.messages)
        .push(arguments_error(r.inner.messages, 0))
        .push(c.model)
        .push(c.reasoning_effort)
        .push(c.frequency_penalty)
        .push(c.logit_bias)
        .push(c.top_logprobs)
        .push(c.max_completion_tokens)
        .push(c.n)
        .push(token_ids_error(r))
        .push(c.presence_penalty)
        .push(c.response_format)
        .push(c.structured_outputs)
        .push(c.service_tier)
        .push(c.stop)
        .push(c.temperature)
        .push(c.top_p)
        .push(tools_error(r.inner.tools))
        .push(tool_choice_error(r.inner.tool_choice, r.inner.tools))
        .push(c.user)
        .push(c.repetition_penalty)
        .push(c.min_p)
        .push(c.top_k)
        .push(c.n_with_temperature)
}

/// Whether the text is a tool name.
fn valid_tool_name(name: &str) -> (r: bool)
    ensures
        r == is_tool_name(name@),
{
    let chars: Vec<char> = chars_of(name);
    let mut i: usize = 0;
    while i < chars.len()
        invariant
            chars@ == name@,
            i <= chars@.len(),
            forall|k: int| 0 <= k < i ==> is_name_char(#[trigger] name@[k]),
        decreases chars@.len() - i,
    {
        let c: char = chars[i];
        let ok: bool = ('a' <= c && c <= 'z') || ('A' <= c && c <= 'Z') || ('0' <= c && c <= '9')
            || c == '_' || c == '-';
        if !ok {
            assert(!is_name_char(name@[i as int]));
            return false;
        }
        i += 1;
    }
    chars.len() > 0
}

/// The error of the tools: the first name that is none.
pub fn validate_tools(tools: Option<&[ChatCompletionTool]>) -> (r: Option<String>)
    ensures
        r.deep_view() == tools_error(tools.deep_view()),
{
    match tools {
        Some(list) => {
            let ghost all = list.deep_view();
            let mut i: usize = 0;
            assert(all.subrange(0, all.len() as int) =~= all);
            while i < list.len()
                invariant
                    tools.deep_view() == Some(all),
                    all == list.deep_view(),
                    all.len() == list@.len(),
                    i <= all.len(),
                    bad_tool_name(all) == bad_tool_name(
                        all.subrange(i as int, all.len() as int),
                    ),
                decreases all.len() - i,
            {
                let ghost rest = all.subrange(i as int, all.len() as int);
                assert(rest[0] == list@[i as int].deep_view());
                assert(rest.subrange(1, rest.len() as int) =~= all.subrange(
                    i + 1,
                    all.len() as int,
                ));
                let name: &str = list[i].function.name.as_str();
                if !valid_tool_name(name) {
                    return Some(
                        join(
                            join("tool name \"", name).as_str(),
                            "\" must be letters, digits, `_` and `-`, and not empty",
                        ),
                    );
                }
                i += 1;
            }
            None
        },
        None => None,
    }
}

/// The error of the tool choice.
pub fn validate_tool_choice(
    choice: Option<&ChatCompletionToolChoiceOption>,
    tools: Option<&[ChatCompletionTool]>,
) -> (r: Option<String>)
    ensures
        r.deep_view() == tool_choice_error(choice.deep_view(), tools.deep_view()),
{
    match choice {
        Some(ChatCompletionToolChoiceOption::Required) => {
            let empty: bool = match tools {
                Some(tools) => tools.len() == 0,
                None => true,
            };
            if empty {
                Some(
                    "When using `tool_choice`, `tools` must be set: tool_choice is \"required\" but tools is empty".to_owned(),
                )
            } else {
                None
            }
        },
        Some(ChatCompletionToolChoiceOption::Named(name)) => {
            let found: bool = match tools {
                Some(tools) => find_tool(tools, name.as_str()).is_some(),
                None => false,
            };
            if found {
                None
            } else {
                Some(
                    join(
                        join("tool named \"", name.as_str()).as_str(),
                        "\" in tool_choice is not present in tools",
                    ),
                )
            }
        },
        _ => None,
    }
}

/// Whether arguments of an earlier tool call are blank or those of a JSON object.
/// `parsed` is the value that their text stands for, where it stands for one.
pub fn accepts_arguments(arguments: &str, parsed: &Option<Json>) -> (r: bool)
    ensures
        r == arguments_ok(arguments@, parsed.deep_view()),
{
    blank(arguments) || (match parsed {
        Some(value) => value.is_object(),
        None => false,
    })
}

/// The error of the calls of message `i`.
fn validate_calls(calls: &Vec<ChatCompletionMessageToolCall>, i: usize) -> (r: Option<String>)
    ensures
        r.deep_view() == calls_error(calls.deep_view(), i as int, 0),
{
    let ghost all = calls.deep_view();
    let mut j: usize = 0;
    while j < calls.len()
        invariant
            all == calls.deep_view(),
            all.len() == calls@.len(),
            j <= all.len(),
            calls_error(all, i as int, 0) == calls_error(all, i as int, j as int),
        decreases all.len() - j,
    {
        assert(all[j as int] == calls@[j as int].deep_view());
        let arguments: &str = calls[j].function.arguments.as_str();
        if !accepts_arguments(arguments, &Json::parse(arguments)) {
            let mut message: String = join("`messages[", decimal_text(i).as_str());
            message = join(message.as_str(), "].tool_calls[");
            message = join(message.as_str(), decimal_text(j).as_str());
            return Some(
                join(
                    message.as_str(),
                    "].function.arguments` must be a valid JSON object string",
                ),
            );
        }
        j += 1;
    }
    None
}

/// The error of the first message with a call with bad arguments.
pub fn validate_tool_call_arguments(messages: &Vec<ChatCompletionRequestMessage>) -> (r: Option<
    String,
>)
    ensures
        r.deep_view() == arguments_error(messages.deep_view(), 0),
{
    let ghost all = messages.deep_view();
    let mut i: usize = 0;
    while i < messages.len()
        invariant
            all == messages.deep_view(),
            all.len() == messages@.len(),
            i <= all.len(),
            arguments_error(all, 0) == arguments_error(all, i as int),
        decreases all.len() - i,
    {
        assert(all[i as int] == messages@[i as int].deep_view());
        let error: Option<String> = match &messages[i] {
            ChatCompletionRequestMessage::Assistant(assistant) => match &assistant.tool_calls {
                Some(calls) => validate_calls(calls, i),
                None => None,
            },
            _ => None,
        };
        if error.is_some() {
            return error;
        }
        i += 1;
    }
    None
}

/// The error of a request for completion token ids of several choices.
pub fn validate_completion_token_ids_single_choice(n: Option<u8>, nvext: Option<&NvExt>) -> (r:
    Option<String>)
    ensures
        r.deep_view() == (if n is Some && n->0 > 1 && nvext.deep_view() is Some
            && nvext.deep_view()->0.extra_fields is Some
            && nvext.deep_view()->0.extra_fields->0.contains("completion_token_ids"@) {
            Some("`completion_token_ids` is only supported for a single choice (n = 1)"@)
        } else {
            None
        }),
{
    let several: bool = match n {
        Some(n) => n > 1,
        None => false,
    };
    let wanted: bool = match nvext {
        Some(nvext) => match &nvext.extra_fields {
            Some(fields) => has_text(fields, "completion_token_ids"),
            None => false,
        },
        None => false,
    };
    if several && wanted {
        Some("`completion_token_ids` is only supported for a single choice (n = 1)".to_owned())
    } else {
        None
    }
}

/// The error of stop tokens that are none.
pub fn validate_stop_token_ids(fields: &JsonMap) -> (r: Option<String>)
    ensures
        r.deep_view() == stop_token_ids_error(fields@),
{
    match fields.get("stop_token_ids") {
        Some(value) => if tokens_of(value).is_none() {
            Some("`stop_token_ids` must be an array of token ids".to_owned())
        } else {
            None
        },
        None => None,
    }
}

/// Takes the first error out of a list.
fn take_first(found: Vec<Option<String>>) -> (r: Option<String>)
    ensures
        r.deep_view() == first_error(found.deep_view()),
{
    let ghost all = found.deep_view();
    let mut i: usize = 0;
    assert(all.subrange(0, all.len() as int) =~= all);
    while i < found.len()
        invariant
            all == found.deep_view(),
            all.len() == found@.len(),
            i <= all.len(),
            first_error(all) == first_error(all.subrange(i as int, all.len() as int)),
        decreases all.len() - i,
    {
        let ghost rest = all.subrange(i as int, all.len() as int);
        assert(rest[0] == found@[i as int].deep_view());
        assert(rest.subrange(1, rest.len() as int) =~= all.subrange(i + 1, all.len() as int));
        match &found[i] {
            Some(error) => {
                return Some(error.clone());
            },
            None => {},
        }
        i += 1;
    }
    None
}

impl NvCreateChatCompletionRequest {
    /// Checks the request, given what the checks of single fields found: the first error
    /// counts.
    pub fn validate(&self, checks: &RequestChecks) -> (r: Result<(), String>)
        ensures
            r is Ok ==> first_error(all_checks(self.deep_view(), checks.deep_view())) is None,
            r matches Err(error) ==> first_error(
                all_checks(self.deep_view(), checks.deep_view()),
            ) == Some(error@),
    {
        let tools: Option<&[ChatCompletionTool]> = self.tool_list();
        let ghost r = self.deep_view();
        let ghost c = checks.deep_view();
        let stop_tokens: Option<String> = validate_stop_token_ids(&self.unsupported_fields);
        assert(stop_tokens.deep_view() == stop_token_ids_error(r.unsupported_fields));
        let arguments: Option<String> = validate_tool_call_arguments(&self.inner.messages);
        assert(arguments.deep_view() == arguments_error(r.inner.messages, 0));
        let token_ids: Option<String> = validate_completion_token_ids_single_choice(
            self.inner.n,
            self.nvext.as_ref(),
        );
        assert(token_ids.deep_view() == token_ids_error(r));
        let tool_names: Option<String> = validate_tools(tools);
        assert(tool_names.deep_view() == tools_error(r.inner.tools));
        let tool_choice: Option<String> = validate_tool_choice(
            self.inner.tool_choice.as_ref(),
            tools,
        );
        assert(tool_choice.deep_view() == tool_choice_error(r.inner.tool_choice, r.inner.tools));
        let mut found: Vec<Option<String>> = no_items();
        push_item(&mut found, checks.unsupported_fields.duplicate());
        push_item(&mut found, stop_tokens);
        push_item(&mut found, checks.messages.duplicate());
        push_item(&mut found, arguments);
        push_item(&mut found, checks.model.duplicate());
        push_item(&mut found, checks.reasoning_effort.duplicate());
        push_item(&mut found, checks.frequency_penalty.duplicate());
        push_item(&mut found, checks.logit_bias.duplicate());
        push_item(&mut found, checks.top_logprobs.duplicate());
        push_item(&mut found, checks.max_completion_tokens.duplicate());
        push_item(&mut found, checks.n.duplicate());
        push_item(&mut found, token_ids);
        push_item(&mut found, checks.presence_penalty.duplicate());
        push_item(&mut found, checks.response_format.duplicate());
        push_item(&mut found, checks.structured_outputs.duplicate());
        push_item(&mut found, checks.service_tier.duplicate());
        push_item(&mut found, checks.stop.duplicate());
        push_item(&mut found, checks.temperature.duplicate());
        push_item(&mut found, checks.top_p.duplicate());
        push_item(&mut found, tool_names);
        push_item(&mut found, tool_choice);
        push_item(&mut found, checks.user.duplicate());
        push_item(&mut found, checks.repetition_penalty.duplicate());
        push_item(&mut found, checks.min_p.duplicate());
        push_item(&mut found, checks.top_k.duplicate());
        push_item(&mut found, checks.n_with_temperature.duplicate());
        match take_first(found) {
            Some(error) => Err(error),
            None => Ok(()),
        }
    }
}

/// A request passes exactly where no check finds an error.
pub proof fn law_valid_without_errors(r: NvCreateChatCompletionRequestView, c: RequestChecksView)
    ensures
        first_error(all_checks(r, c)) is None <==> (forall|i: int|
            0 <= i < all_checks(r, c).len() ==> #[trigger] all_checks(r, c)[i] is None),
{
    lemma_no_error(all_checks(r, c));
}

proof fn lemma_no_error(found: Seq<Option<Seq<char>>>)
    ensures
        first_error(found) is None <==> (forall|i: int|
            0 <= i < found.len() ==> #[trigger] found[i] is None),
    decreases found.len(),
{
    if found.len() > 0 {
        let rest = found.subrange(1, found.len() as int);
        lemma_no_error(rest);
        if first_error(found) is None {
            assert forall|i: int| 0 <= i < found.len() implies #[trigger] found[i] is None by {
                if i > 0 {
                    assert(rest[i - 1] == found[i]);
                }
            }
        } else if found[0] is None {
            let i = choose|i: int| 0 <= i < rest.len() && !(#[trigger] rest[i] is None);
            assert(found[i + 1] == rest[i]);
        } else {
            assert(found[0] is Some);
        }
    }
}

} // verus!
