//! What holds of the requests: which are valid, and what they ask of decoding.

use crate::chat_request::{
    as_token, as_tokens, client_schema, constrained, either, guided_json, guided_structural_tag,
    max_thinking_tokens, pure_json, some_object_schema, stop_texts, stop_tokens, thinking_enabled,
    uses_structural_tag, GuidedSchemaView, SchemaOrigin,
};
use crate::json::{looked_up, JsonNumberView, JsonView};
use crate::json_text::parsed_json;
use crate::reasoning::present;
use crate::request_types::{
    ChatCompletionRequestMessageView, ChatCompletionToolChoiceOptionView, ChatCompletionToolView,
    NvCreateChatCompletionRequestView, ResponseFormatView, StopView,
};
use crate::text::{is_blank, is_space, trim_spec};
use crate::text_laws::law_trimming_takes_the_ends;
use crate::tools::{schema_for, structural_tag_for, tool_named};
use crate::validate::{
    all_checks, arguments_error, arguments_message, bad_tool_name, calls_error, first_error,
    is_name_char, is_tool_name, message_error, tool_name_error, RequestChecksView,
};
use vstd::prelude::*;

verus! {

/// A character that a tool name may have.
pub open spec fn in_names(c: char) -> bool {
    'a' <= c <= 'z' || 'A' <= c <= 'Z' || '0' <= c <= '9' || c == '_' || c == '-'
}

/// A name that a tool may have.
pub open spec fn can_be_named(name: Seq<char>) -> bool {
    &&& name.len() > 0
    &&& forall|i: int| 0 <= i < name.len() ==> in_names(#[trigger] name[i])
}

/// Every tool has a name that it may have.
pub open spec fn tools_are_named(tools: Option<Seq<ChatCompletionToolView>>) -> bool {
    tools matches Some(tools) ==> forall|i: int|
        0 <= i < tools.len() ==> can_be_named((#[trigger] tools[i]).function.name)
}

/// The tools let the choice be made.
pub open spec fn choice_is_possible(
    choice: Option<ChatCompletionToolChoiceOptionView>,
    tools: Option<Seq<ChatCompletionToolView>>,
) -> bool {
    match choice {
        Some(ChatCompletionToolChoiceOptionView::Required) => tools is Some && tools->0.len() > 0,
        Some(ChatCompletionToolChoiceOptionView::Named(name)) => tools is Some && exists|i: int|
            0 <= i < tools->0.len() && (#[trigger] tools->0[i]).function.name == name,
        _ => true,
    }
}

/// The arguments of an earlier call are readable.
pub open spec fn readable(arguments: Seq<char>) -> bool {
    is_blank(arguments) || (parsed_json(arguments) matches Some(JsonView::Object(_)))
}

/// The arguments of call `j` of message `i` are readable, if there is such a call.
pub open spec fn call_is_readable(
    messages: Seq<ChatCompletionRequestMessageView>,
    i: int,
    j: int,
) -> bool {
    messages[i] matches ChatCompletionRequestMessageView::Assistant(assistant) ==> (
    assistant.tool_calls matches Some(calls) ==> (0 <= j < calls.len() ==> readable(
        calls[j].function.arguments,
    )))
}

/// No check that is made elsewhere found an error.
pub open spec fn checked_elsewhere(c: RequestChecksView) -> bool {
    &&& c.unsupported_fields is None
    &&& c.messages is None
    &&& c.model is None
    &&& c.reasoning_effort is None
    &&& c.frequency_penalty is None
    &&& c.logit_bias is None
    &&& c.top_logprobs is None
    &&& c.max_completion_tokens is None
    &&& c.n is None
    &&& c.presence_penalty is None
    &&& c.response_format is None
    &&& c.structured_outputs is None
    &&& c.service_tier is None
    &&& c.stop is None
    &&& c.temperature is None
    &&& c.top_p is None
    &&& c.user is None
    &&& c.repetition_penalty is None
    &&& c.min_p is None
    &&& c.top_k is None
    &&& c.n_with_temperature is None
}

/// The value is a token id.
pub open spec fn is_token(value: JsonView) -> bool {
    value matches JsonView::Number(JsonNumberView::Integer(n)) && 0 <= n <= u32::MAX
}

/// The value is a list of token ids.
pub open spec fn is_tokens(value: JsonView) -> bool {
    value matches JsonView::Array(items) && forall|i: int|
        0 <= i < items.len() ==> is_token(#[trigger] items[i])
}

/// A request is valid exactly where every tool has a name of letters, digits, underscores
/// and hyphens, the tools let the tool choice be made, the arguments of earlier calls are
/// blank or JSON objects, stop tokens are token ids, completion token ids are asked for of
/// one choice only, and no check that is made elsewhere found an error.
pub proof fn law_requests_are_valid(r: NvCreateChatCompletionRequestView, c: RequestChecksView)
    ensures
        first_error(all_checks(r, c)) is None <==> {
            &&& checked_elsewhere(c)
            &&& tools_are_named(r.inner.tools)
            &&& choice_is_possible(r.inner.tool_choice, r.inner.tools)
            &&& forall|i: int, j: int|
                0 <= i < r.inner.messages.len() ==> #[trigger] call_is_readable(
                    r.inner.messages,
                    i,
                    j,
                )
            &&& looked_up(r.unsupported_fields, "stop_token_ids"@) matches Some(value) ==> is_tokens(
                value,
            )
            &&& !(r.inner.n is Some && r.inner.n->0 > 1 && r.nvext is Some
                && r.nvext->0.extra_fields is Some && r.nvext->0.extra_fields->0.contains(
                "completion_token_ids"@,
            ))
        },
{
    let found = all_checks(r, c);
    lemma_first(found);
    if let Some(tools) = r.inner.tools {
        lemma_names(tools);
        if let Some(ChatCompletionToolChoiceOptionView::Named(name)) = r.inner.tool_choice {
            lemma_tool_named(tools, name);
        }
    }
    lemma_messages(r.inner.messages, 0);
    if first_error(found) is None {
        lemma_all_none(found);
        assert(found[0] is None && found[1] is None && found[2] is None && found[3] is None);
        assert(found[4] is None && found[5] is None && found[6] is None && found[7] is None);
        assert(found[8] is None && found[9] is None && found[10] is None && found[11] is None);
        assert(found[12] is None && found[13] is None && found[14] is None && found[15] is None);
        assert(found[16] is None && found[17] is None && found[18] is None && found[19] is None);
        assert(found[20] is None && found[21] is None && found[22] is None && found[23] is None);
        assert(found[24] is None && found[25] is None);
    }
    if let Some(value) = looked_up(r.unsupported_fields, "stop_token_ids"@) {
        lemma_tokens(value);
    }
}

/// Token ids are read where they are token ids.
proof fn lemma_tokens(value: JsonView)
    ensures
        as_tokens(value) is Some <==> is_tokens(value),
        as_tokens(value) matches Some(ids) ==> {
            &&& ids.len() == value->Array_0.len()
            &&& forall|i: int|
                0 <= i < ids.len() ==> value->Array_0[i] == JsonView::Number(
                    JsonNumberView::Integer(#[trigger] ids[i] as int),
                )
        },
{
    if let JsonView::Array(items) = value {
        if is_tokens(value) {
            assert forall|i: int| 0 <= i < items.len() implies as_token(
                #[trigger] items[i],
            ) is Some by {
                assert(is_token(items[i]));
            }
        }
        if as_tokens(value) is Some {
            assert forall|i: int| 0 <= i < items.len() implies is_token(#[trigger] items[i]) by {
                assert(as_token(items[i]) is Some);
            }
        }
    }
}

/// The first error is one of those found.
proof fn lemma_first(found: Seq<Option<Seq<char>>>)
    ensures
        first_error(found) matches Some(error) ==> exists|i: int|
            0 <= i < found.len() && #[trigger] found[i] == Some(error) && forall|j: int|
                0 <= j < i ==> (#[trigger] found[j]) is None,
    decreases found.len(),
{
    if found.len() > 0 {
        let rest = found.subrange(1, found.len() as int);
        lemma_first(rest);
        if let Some(error) = first_error(found) {
            if found[0] is Some {
                assert(found[0] == Some(error));
            } else {
                let i = choose|i: int|
                    0 <= i < rest.len() && #[trigger] rest[i] == Some(error) && forall|j: int|
                        0 <= j < i ==> (#[trigger] rest[j]) is None;
                assert(found[i + 1] == Some(error));
                assert forall|j: int| 0 <= j < i + 1 implies (#[trigger] found[j]) is None by {
                    if j > 0 {
                        assert(rest[j - 1] == found[j]);
                    }
                }
            }
        }
    }
}

/// Without a first error there is none.
proof fn lemma_all_none(found: Seq<Option<Seq<char>>>)
    requires
        first_error(found) is None,
    ensures
        forall|i: int| 0 <= i < found.len() ==> (#[trigger] found[i]) is None,
    decreases found.len(),
{
    if found.len() > 0 {
        let rest = found.subrange(1, found.len() as int);
        lemma_all_none(rest);
        assert forall|i: int| 0 <= i < found.len() implies (#[trigger] found[i]) is None by {
            if i > 0 {
                assert(rest[i - 1] == found[i]);
            }
        }
    }
}

/// Tools with bad names are found, the first of them first.
proof fn lemma_names(tools: Seq<ChatCompletionToolView>)
    ensures
        bad_tool_name(tools) is None <==> tools_are_named(Some(tools)),
        bad_tool_name(tools) matches Some(error) ==> exists|i: int|
            0 <= i < tools.len() && error == tool_name_error((#[trigger] tools[i]).function.name)
                && !can_be_named(tools[i].function.name) && forall|j: int|
                0 <= j < i ==> can_be_named((#[trigger] tools[j]).function.name),
    decreases tools.len(),
{
    if tools.len() > 0 {
        let rest = tools.subrange(1, tools.len() as int);
        lemma_names(rest);
        lemma_name(tools[0].function.name);
        if !can_be_named(tools[0].function.name) {
            assert(bad_tool_name(tools) == Some(tool_name_error(tools[0].function.name)));
        } else {
            if bad_tool_name(tools) is None {
                assert forall|i: int| 0 <= i < tools.len() implies can_be_named(
                    (#[trigger] tools[i]).function.name,
                ) by {
                    if i > 0 {
                        assert(rest[i - 1] == tools[i]);
                    }
                }
            } else {
                let error = bad_tool_name(tools)->0;
                let i = choose|i: int|
                    0 <= i < rest.len() && error == tool_name_error(
                        (#[trigger] rest[i]).function.name,
                    ) && !can_be_named(rest[i].function.name) && forall|j: int|
                        0 <= j < i ==> can_be_named((#[trigger] rest[j]).function.name);
                assert(tools[i + 1] == rest[i]);
                assert forall|j: int| 0 <= j < i + 1 implies can_be_named(
                    (#[trigger] tools[j]).function.name,
                ) by {
                    if j > 0 {
                        assert(rest[j - 1] == tools[j]);
                    }
                }
            }
        }
    }
}

/// A name is checked letter by letter.
proof fn lemma_name(name: Seq<char>)
    ensures
        is_tool_name(name) == can_be_named(name),
{
    if can_be_named(name) {
        assert forall|i: int| 0 <= i < name.len() implies is_name_char(
            #[trigger] name[i],
        ) by {
            assert(in_names(name[i]));
        }
    }
    if is_tool_name(name) {
        assert forall|i: int| 0 <= i < name.len() implies in_names(#[trigger] name[i]) by {
            assert(is_name_char(name[i]));
        }
    }
}

/// A named tool is found where there is one.
proof fn lemma_tool_named(tools: Seq<ChatCompletionToolView>, name: Seq<char>)
    ensures
        tool_named(tools, name) is Some <==> exists|i: int|
            0 <= i < tools.len() && (#[trigger] tools[i]).function.name == name,
    decreases tools.len(),
{
    if tools.len() > 0 {
        let rest = tools.subrange(1, tools.len() as int);
        lemma_tool_named(rest, name);
        if tools[0].function.name != name {
            if exists|i: int| 0 <= i < tools.len() && (#[trigger] tools[i]).function.name == name {
                let i = choose|i: int|
                    0 <= i < tools.len() && (#[trigger] tools[i]).function.name == name;
                assert(rest[i - 1] == tools[i]);
            }
            if exists|i: int| 0 <= i < rest.len() && (#[trigger] rest[i]).function.name == name {
                let i = choose|i: int|
                    0 <= i < rest.len() && (#[trigger] rest[i]).function.name == name;
                assert(tools[i + 1] == rest[i]);
            }
        }
    }
}

/// Bad arguments among the calls of a message are found, the first of them first.
proof fn lemma_calls(messages: Seq<ChatCompletionRequestMessageView>, i: int, from: int)
    requires
        0 <= i < messages.len(),
        0 <= from,
        messages[i] is Assistant,
        messages[i]->Assistant_0.tool_calls is Some,
    ensures
        ({
            let calls = messages[i]->Assistant_0.tool_calls->0;
            &&& calls_error(calls, i, from) is None <==> forall|j: int|
                from <= j ==> #[trigger] call_is_readable(messages, i, j)
            &&& calls_error(calls, i, from) matches Some(error) ==> exists|j: int|
                from <= j < calls.len() && !#[trigger] call_is_readable(messages, i, j) && error
                    == arguments_message(i, j) && forall|k: int|
                    from <= k < j ==> #[trigger] call_is_readable(messages, i, k)
        }),
    decreases messages[i]->Assistant_0.tool_calls->0.len() - from,
{
    let calls = messages[i]->Assistant_0.tool_calls->0;
    if from < calls.len() {
        if call_is_readable(messages, i, from) {
            lemma_calls(messages, i, from + 1);
        }
    }
}

/// Bad arguments among the messages are found.
proof fn lemma_messages(messages: Seq<ChatCompletionRequestMessageView>, from: int)
    requires
        0 <= from,
    ensures
        arguments_error(messages, from) is None <==> forall|i: int, j: int|
            from <= i < messages.len() ==> #[trigger] call_is_readable(messages, i, j),
        arguments_error(messages, from) matches Some(error) ==> exists|i: int, j: int|
            from <= i < messages.len() && !#[trigger] call_is_readable(messages, i, j) && error
                == arguments_message(i, j) && forall|k: int, l: int|
                from <= k < messages.len() && (k < i || (k == i && l < j))
                    ==> #[trigger] call_is_readable(messages, k, l),
    decreases messages.len() - from,
{
    if from < messages.len() {
        lemma_messages(messages, from + 1);
        if let ChatCompletionRequestMessageView::Assistant(assistant) = messages[from] {
            if assistant.tool_calls is Some {
                lemma_calls(messages, from, 0);
            }
        }
        if message_error(messages[from], from) is None {
            assert forall|j: int| #[trigger] call_is_readable(messages, from, j) by {
                if j >= 0 {
                }
            }
        }
    }
}

/// The error that counts is the first: of the tools the first with a bad name is named, and
/// of the calls the first with bad arguments.
pub proof fn law_the_first_error_counts(
    r: NvCreateChatCompletionRequestView,
    c: RequestChecksView,
)
    ensures
        first_error(all_checks(r, c)) matches Some(error) ==> exists|i: int|
            0 <= i < all_checks(r, c).len() && #[trigger] all_checks(r, c)[i] == Some(error)
                && forall|j: int| 0 <= j < i ==> (#[trigger] all_checks(r, c)[j]) is None,
        r.inner.tools matches Some(tools) ==> (bad_tool_name(tools) matches Some(error)
            ==> exists|i: int|
            0 <= i < tools.len() && error == tool_name_error((#[trigger] tools[i]).function.name)
                && !can_be_named(tools[i].function.name) && forall|j: int|
                0 <= j < i ==> can_be_named((#[trigger] tools[j]).function.name)),
        arguments_error(r.inner.messages, 0) matches Some(error) ==> exists|i: int, j: int|
            0 <= i < r.inner.messages.len() && !#[trigger] call_is_readable(r.inner.messages, i, j)
                && error == arguments_message(i, j) && forall|k: int, l: int|
                0 <= k < r.inner.messages.len() && (k < i || (k == i && l < j))
                    ==> #[trigger] call_is_readable(r.inner.messages, k, l),
{
    lemma_first(all_checks(r, c));
    if let Some(tools) = r.inner.tools {
        lemma_names(tools);
    }
    lemma_messages(r.inner.messages, 0);
}

/// The schema that guides a forced call is the one that the tool choice asks for, with a mark
/// that says so and nothing else changed. Where no call is forced, the schema is that of
/// the client. Beside a structural tag there is none.
pub proof fn law_forced_schemas_come_first(
    r: NvCreateChatCompletionRequestView,
    parser: Seq<char>,
    request_text_len: Option<usize>,
    key: Seq<char>,
)
    ensures
        ({
            let guided = guided_json(r, parser, request_text_len);
            let forced = schema_for(r.inner.tool_choice, r.inner.tools, request_text_len);
            if uses_structural_tag(r, parser) {
                guided is None
            } else {
                match forced {
                    Ok(Some(JsonView::Object(schema))) => {
                        &&& guided is Some
                        &&& guided->0.origin == SchemaOrigin::ToolChoice
                        &&& guided->0.schema matches JsonView::Object(marked) && {
                            &&& looked_up(marked, "x-dynamo-tool-choice-schema"@) == Some(
                                JsonView::Bool(true),
                            )
                            &&& key != "x-dynamo-tool-choice-schema"@ ==> looked_up(marked, key)
                                == looked_up(schema, key)
                        }
                    },
                    Ok(Some(schema)) => guided is Some && guided->0.schema == schema,
                    _ => guided == client_schema(r),
                }
            }
        }),
{
}

/// The schema of the client is that of the extension, whatever else is there; without it
/// that of the structured outputs; without that any object where one is asked for; and then
/// that of the response format. Where none of these is there, there is none.
pub proof fn law_client_schemas_come_in_order(r: NvCreateChatCompletionRequestView)
    ensures
        ({
            let given = client_schema(r);
            let structured = r.common.structured_outputs;
            let any_object = given matches Some(guided) && guided.origin == SchemaOrigin::AnyObject
                && (guided.schema matches JsonView::Object(m) && {
                &&& looked_up(m, "type"@) == Some(JsonView::Text("object"@))
                &&& looked_up(m, "minProperties"@) == Some(
                    JsonView::Number(JsonNumberView::Integer(1)),
                )
                &&& looked_up(m, "maxProperties"@) == Some(
                    JsonView::Number(JsonNumberView::Integer(64)),
                )
                &&& m.dom().len() == 3
            });
            &&& r.common.guided_json matches Some(schema) ==> given == Some(
                GuidedSchemaView { schema, origin: SchemaOrigin::Client },
            )
            &&& r.common.guided_json is None ==> {
                let free = structured is None || (structured->0.json is None
                    && structured->0.json_object != Some(true));
                &&& structured is Some ==> (structured->0.json matches Some(schema) ==> given
                    == Some(GuidedSchemaView { schema, origin: SchemaOrigin::Client }))
                &&& structured is Some && structured->0.json is None && structured->0.json_object
                    == Some(true) ==> any_object
                &&& free && r.inner.response_format == Some(ResponseFormatView::JsonObject)
                    ==> any_object
                &&& free ==> (r.inner.response_format matches Some(
                    ResponseFormatView::JsonSchema { schema: Some(schema) },
                ) ==> given == Some(GuidedSchemaView { schema, origin: SchemaOrigin::Client }))
                &&& free && (r.inner.response_format is None || r.inner.response_format == Some(
                    ResponseFormatView::Text,
                )) ==> given is None
            }
        }),
{
    reveal_strlit("type");
    reveal_strlit("minProperties");
    reveal_strlit("maxProperties");
    assert("type"@.len() == 4 && "minProperties"@.len() == 13 && "maxProperties"@.len() == 13);
    assert("minProperties"@[1] == 'i' && "maxProperties"@[1] == 'a');
    let none = Map::<Seq<char>, JsonView>::empty();
    let one = none.insert("type"@, JsonView::Text("object"@));
    let two = one.insert("minProperties"@, JsonView::Number(JsonNumberView::Integer(1)));
    let three = two.insert("maxProperties"@, JsonView::Number(JsonNumberView::Integer(64)));
    assert(none.dom().len() == 0);
    assert(one.dom().len() == 1);
    assert(!one.dom().contains("minProperties"@));
    assert(two.dom().len() == 2);
    assert(!two.dom().contains("maxProperties"@));
    assert(three.dom().len() == 3);
    assert(some_object_schema() == JsonView::Object(three));
}

/// A structural tag of the client comes before any other. Else there is one where the
/// calls are in the Qwen form and one tool is forced, that of the tool choice; and where no
/// tool is forced there is none.
pub proof fn law_client_tags_come_first(
    r: NvCreateChatCompletionRequestView,
    parser: Seq<char>,
    request_text_len: Option<usize>,
)
    ensures
        ({
            let tag = guided_structural_tag(r, parser, request_text_len);
            let structured = r.common.structured_outputs;
            let given = structured is Some && structured->0.structural_tag is Some;
            let forced = r.inner.tool_choice is Some && (r.inner.tool_choice->0 is Named
                || r.inner.tool_choice->0 is Required);
            &&& given ==> tag == structured->0.structural_tag
            &&& !given && !forced ==> tag is None
            &&& !given && r.inner.tool_choice == Some(ChatCompletionToolChoiceOptionView::Required)
                && (r.inner.tools is None || r.inner.tools->0.len() != 1) ==> tag is None
            &&& !given && r.inner.tool_choice == Some(ChatCompletionToolChoiceOptionView::Required)
                && r.inner.tools is Some && r.inner.tools->0.len() == 1 && (parser
                == "qwen3_coder"@ || parser == "qwen3_xml"@ || parser == "nemotron_nano"@) ==> (
            structural_tag_for(r.inner.tool_choice, r.inner.tools, request_text_len) matches Ok(
                made,
            ) ==> tag == made)
        }),
{
    reveal_strlit("qwen3_coder");
    reveal_strlit("qwen3_xml");
    reveal_strlit("nemotron_nano");
    lemma_trimmed(parser);
}

/// Text without white space at its ends is trimmed already.
proof fn lemma_trimmed(text: Seq<char>)
    ensures
        text.len() > 0 && !is_space(text[0]) && !is_space(text[text.len() - 1]) ==> trim_spec(text)
            == text,
{
    let none = Seq::<char>::empty();
    assert(none + text + none =~= text);
    if text.len() > 0 && !is_space(text[0]) && !is_space(text[text.len() - 1]) {
        law_trimming_takes_the_ends(none, text, none);
    }
}

/// A flag of the template arguments is on, or off.
pub open spec fn is_flag(r: NvCreateChatCompletionRequestView, key: Seq<char>, on: bool) -> bool {
    looked_up(present(r.chat_template_args), key) == Some(JsonView::Bool(on))
}

/// Thinking that is turned off is off, whatever else is said; it is on where one of its
/// flags is on and none turns it off; and where no flag says anything it is not on.
pub proof fn law_off_is_off(r: NvCreateChatCompletionRequestView)
    ensures
        is_flag(r, "enable_thinking"@, false) || is_flag(r, "thinking"@, false)
            ==> !thinking_enabled(r.chat_template_args),
        !is_flag(r, "enable_thinking"@, false) && !is_flag(r, "thinking"@, false) && (is_flag(
            r,
            "enable_thinking"@,
            true,
        ) || is_flag(r, "thinking"@, true) || is_flag(r, "low_effort"@, true) || is_flag(
            r,
            "medium_effort"@,
            true,
        )) ==> thinking_enabled(r.chat_template_args),
        r.chat_template_args is None ==> !thinking_enabled(r.chat_template_args),
        !is_flag(r, "enable_thinking"@, true) && !is_flag(r, "thinking"@, true) && !is_flag(
            r,
            "low_effort"@,
            true,
        ) && !is_flag(r, "medium_effort"@, true) ==> !thinking_enabled(r.chat_template_args),
{
}

/// The limit of thinking is that of the extension, whatever else is said. Else it is the
/// reasoning budget: of the request, of the template arguments, or under its other name
/// there; a budget that is no count is no limit and lets no default in. Without a budget
/// the default counts where thinking is on and decoding is constrained, and nowhere else.
pub proof fn law_thinking_is_limited(
    r: NvCreateChatCompletionRequestView,
    constrained_default: Option<u32>,
)
    ensures
        ({
            let limit = max_thinking_tokens(r, constrained_default);
            let args = present(r.chat_template_args);
            let given = r.nvext is Some && r.nvext->0.max_thinking_tokens is Some;
            let first = looked_up(r.unsupported_fields, "reasoning_budget"@);
            let second = looked_up(args, "reasoning_budget"@);
            let third = looked_up(args, "thinking_token_budget"@);
            let budget = if first is Some {
                first
            } else if second is Some {
                second
            } else {
                third
            };
            &&& given ==> limit == r.nvext->0.max_thinking_tokens
            &&& !given && budget is Some ==> if is_token(budget->0) {
                limit is Some && budget->0 == JsonView::Number(
                    JsonNumberView::Integer(limit->0 as int),
                )
            } else {
                limit is None
            }
            &&& !given && budget is None && thinking_enabled(r.chat_template_args) && constrained(r)
                ==> limit == constrained_default
            &&& !given && budget is None && !(thinking_enabled(r.chat_template_args)
                && constrained(r)) ==> limit is None
        }),
{
}

/// Decoding is constrained where a form is asked for in any way, or where there are tools
/// that may be called; and where nothing of this holds it is not.
pub proof fn law_forms_constrain(r: NvCreateChatCompletionRequestView)
    ensures
        ({
            let c = r.common;
            let s = c.structured_outputs;
            let tools = r.inner.tools is Some && r.inner.tools->0.len() > 0;
            let callable = tools && r.inner.tool_choice != Some(
                ChatCompletionToolChoiceOptionView::NoTool,
            );
            let structured = s is Some && (s->0.json is Some || s->0.json_object == Some(true)
                || s->0.regex is Some || s->0.grammar is Some || s->0.choice is Some
                || s->0.structural_tag is Some);
            let guided = c.guided_json is Some || c.guided_regex is Some || c.guided_grammar is Some
                || c.guided_choice is Some;
            let shaped = r.inner.response_format is Some && r.inner.response_format != Some(
                ResponseFormatView::Text,
            );
            let json = c.guided_json is Some || (s is Some && (s->0.json is Some || s->0.json_object
                == Some(true))) || shaped;
            &&& constrained(r) == (callable || structured || guided || shaped)
            &&& pure_json(r) == (json && !tools)
        }),
{
}

/// The texts that end a response are those of the stop condition, and so are the tokens;
/// where it has no tokens, those that pass through count where they are token ids.
pub proof fn law_stops_are_kept(r: NvCreateChatCompletionRequestView)
    ensures
        r.inner.stop matches Some(StopView::Text(text)) ==> stop_texts(r.inner.stop) == Some(
            seq![text],
        ),
        r.inner.stop matches Some(StopView::TextArray(texts)) ==> stop_texts(r.inner.stop) == Some(
            texts,
        ),
        r.inner.stop matches Some(StopView::TokenIds(ids)) ==> stop_texts(r.inner.stop) is None
            && stop_tokens(r) == Some(ids),
        r.inner.stop is None ==> stop_texts(r.inner.stop) is None,
        !(r.inner.stop is Some && r.inner.stop->0 is TokenIds) ==> (looked_up(
            r.unsupported_fields,
            "stop_token_ids"@,
        ) matches Some(value) ==> if is_tokens(value) {
            &&& stop_tokens(r) is Some
            &&& stop_tokens(r)->0.len() == value->Array_0.len()
            &&& forall|i: int|
                0 <= i < stop_tokens(r)->0.len() ==> value->Array_0[i] == JsonView::Number(
                    JsonNumberView::Integer(#[trigger] stop_tokens(r)->0[i] as int),
                )
        } else {
            stop_tokens(r) is None
        }),
        !(r.inner.stop is Some && r.inner.stop->0 is TokenIds) && looked_up(
            r.unsupported_fields,
            "stop_token_ids"@,
        ) is None ==> stop_tokens(r) is None,
{
    if let Some(value) = looked_up(r.unsupported_fields, "stop_token_ids"@) {
        lemma_tokens(value);
    }
}

/// What is given first counts, and what is given second only where it is not there.
pub proof fn law_the_first_given_counts<T>(first: T, second: Option<T>)
    ensures
        either(Some(first), second) == Some(first),
        either(None, second) == second,
{
}

} // verus!
