//! What a chat-completion request asks for: guided decoding, stop conditions,
//! sampling and output options.

use crate::copy::{one_item, Duplicate};
use crate::json::{looked_up, Json, JsonMap, JsonNumber, JsonNumberView, JsonView};
use crate::reasoning::{present, TemplateArgs};
use crate::request_types::{
    ChatCompletionTool, ChatCompletionToolChoiceOption, ChatCompletionToolChoiceOptionView,
    ChatCompletionToolView, CommonExt, NvCreateChatCompletionRequest,
    NvCreateChatCompletionRequestView, NvExt, ResponseFormat, ResponseFormatView, Stop, StopView,
    StructuredOutputsView,
};
use crate::text::{same_text, trim, trim_spec};
use crate::tools::{
    forces_freeform_text, get_json_schema_from_tools, get_qwen_xml_structural_tag_from_tools,
    json_int, named_tool_choice_has_freeform_text_field, schema_for, structural_tag_for,
};
use vstd::prelude::*;

verus! {

/// Where a guiding schema comes from.
#[derive(Debug, Clone, Copy, PartialEq, Eq, Structural)]
pub enum SchemaOrigin {
    /// The tool choice: the schema is final.
    ToolChoice,
    /// The request for some JSON object: the schema is final.
    AnyObject,
    /// The client: a deployment may bound it further.
    Client,
}

/// A schema that guides decoding.
#[derive(Debug, PartialEq, Eq)]
pub struct GuidedSchema {
    pub schema: Json,
    pub origin: SchemaOrigin,
}

/// The content of a [`GuidedSchema`].
#[verifier::ext_equal]
pub struct GuidedSchemaView {
    pub schema: JsonView,
    pub origin: SchemaOrigin,
}

impl DeepView for GuidedSchema {
    type V = GuidedSchemaView;

    open spec fn deep_view(&self) -> GuidedSchemaView {
        GuidedSchemaView { schema: self.schema@, origin: self.origin }
    }
}

/// There is at least one tool.
pub open spec fn some_tools(tools: Option<Seq<ChatCompletionToolView>>) -> bool {
    tools is Some && tools->0.len() > 0
}

/// The tools, none where the request has none.
pub open spec fn tools_or_none(tools: Option<Seq<ChatCompletionToolView>>) -> Seq<
    ChatCompletionToolView,
> {
    match tools {
        Some(tools) => tools,
        None => Seq::empty(),
    }
}

/// The structured outputs ask for JSON.
pub open spec fn structured_json(structured: Option<StructuredOutputsView>) -> bool {
    structured is Some && (structured->0.json is Some || structured->0.json_object == Some(true))
}

/// The response is to be JSON.
pub open spec fn json_response(format: Option<ResponseFormatView>) -> bool {
    format is Some && !(format->0 is Text)
}

/// The request asks for JSON and has no tools.
pub open spec fn pure_json(r: NvCreateChatCompletionRequestView) -> bool {
    !some_tools(r.inner.tools) && (r.common.guided_json is Some || structured_json(
        r.common.structured_outputs,
    ) || json_response(r.inner.response_format))
}

/// A parser of Qwen-style XML tool calls.
pub open spec fn is_qwen_xml_parser(parser: Seq<char>) -> bool {
    let name = trim_spec(parser);
    name == "qwen3_coder"@ || name == "qwen3_xml"@ || name == "nemotron_nano"@
}

/// A structural tag guides the call: one tool is forced, calls are in the Qwen XML
/// form, and the forced tool, where it is named, takes no free text.
pub open spec fn uses_structural_tag(
    r: NvCreateChatCompletionRequestView,
    parser: Seq<char>,
) -> bool {
    let tools = tools_or_none(r.inner.tools);
    &&& is_qwen_xml_parser(parser)
    &&& match r.inner.tool_choice {
        Some(ChatCompletionToolChoiceOptionView::Named(_)) => tools.len() > 0
            && !forces_freeform_text(r.inner.tool_choice, Some(tools)),
        Some(ChatCompletionToolChoiceOptionView::Required) => tools.len() == 1,
        _ => false,
    }
}

/// The schema for a tool choice, marked as such.
pub open spec fn marked_tool_schema(schema: JsonView) -> JsonView {
    match schema {
        JsonView::Object(m) => JsonView::Object(
            m.insert("x-dynamo-tool-choice-schema"@, JsonView::Bool(true)),
        ),
        other => other,
    }
}

/// A schema for some object that is not empty and has at most 64 members.
pub open spec fn some_object_schema() -> JsonView {
    JsonView::Object(
        Map::empty().insert("type"@, JsonView::Text("object"@)).insert(
            "minProperties"@,
            json_int(1),
        ).insert("maxProperties"@, json_int(64)),
    )
}

/// The schema of the client: that of the extension, of the structured outputs, or of
/// the response format, in this order.
pub open spec fn client_schema(r: NvCreateChatCompletionRequestView) -> Option<GuidedSchemaView> {
    if r.common.guided_json is Some {
        Some(GuidedSchemaView { schema: r.common.guided_json->0, origin: SchemaOrigin::Client })
    } else if r.common.structured_outputs is Some && r.common.structured_outputs->0.json is Some {
        Some(
            GuidedSchemaView {
                schema: r.common.structured_outputs->0.json->0,
                origin: SchemaOrigin::Client,
            },
        )
    } else if structured_json(r.common.structured_outputs) {
        Some(GuidedSchemaView { schema: some_object_schema(), origin: SchemaOrigin::AnyObject })
    } else {
        match r.inner.response_format {
            Some(ResponseFormatView::JsonObject) => Some(
                GuidedSchemaView { schema: some_object_schema(), origin: SchemaOrigin::AnyObject },
            ),
            Some(ResponseFormatView::JsonSchema { schema: Some(schema) }) => Some(
                GuidedSchemaView { schema, origin: SchemaOrigin::Client },
            ),
            _ => None,
        }
    }
}

/// The schema that guides decoding: none beside a structural tag, else that of the
/// tool choice, else that of the client.
pub open spec fn guided_json(
    r: NvCreateChatCompletionRequestView,
    parser: Seq<char>,
    request_text_len: Option<usize>,
) -> Option<GuidedSchemaView> {
    if uses_structural_tag(r, parser) {
        None
    } else {
        match schema_for(r.inner.tool_choice, r.inner.tools, request_text_len) {
            Ok(Some(schema)) => Some(
                GuidedSchemaView {
                    schema: marked_tool_schema(schema),
                    origin: SchemaOrigin::ToolChoice,
                },
            ),
            _ => client_schema(r),
        }
    }
}

/// The structural tag that guides decoding: that of the client, else that of the tool
/// choice.
pub open spec fn guided_structural_tag(
    r: NvCreateChatCompletionRequestView,
    parser: Seq<char>,
    request_text_len: Option<usize>,
) -> Option<JsonView> {
    if r.common.structured_outputs is Some && r.common.structured_outputs->0.structural_tag is Some {
        r.common.structured_outputs->0.structural_tag
    } else if !uses_structural_tag(r, parser) {
        None
    } else {
        match structural_tag_for(r.inner.tool_choice, r.inner.tools, request_text_len) {
            Ok(tag) => tag,
            Err(_) => None,
        }
    }
}

/// The first choice, else the second.
pub open spec fn either<T>(first: Option<T>, second: Option<T>) -> Option<T> {
    if first is Some {
        first
    } else {
        second
    }
}

/// The template argument is that boolean.
pub open spec fn flag_is(args: TemplateArgs, key: Seq<char>, value: bool) -> bool {
    looked_up(present(args), key) == Some(JsonView::Bool(value))
}

/// The template arguments turn thinking on, and nothing in them turns it off.
pub open spec fn thinking_enabled(args: TemplateArgs) -> bool {
    &&& !flag_is(args, "enable_thinking"@, false)
    &&& !flag_is(args, "thinking"@, false)
    &&& (flag_is(args, "enable_thinking"@, true) || flag_is(args, "thinking"@, true) || flag_is(
        args,
        "low_effort"@,
        true,
    ) || flag_is(args, "medium_effort"@, true))
}

/// Decoding is constrained: by tools that may be called, or by a form that the
/// response is to have.
pub open spec fn constrained(r: NvCreateChatCompletionRequestView) -> bool {
    ||| some_tools(r.inner.tools) && r.inner.tool_choice != Some(
        ChatCompletionToolChoiceOptionView::NoTool,
    )
    ||| r.common.guided_json is Some
    ||| r.common.guided_regex is Some
    ||| r.common.guided_grammar is Some
    ||| r.common.guided_choice is Some
    ||| match r.common.structured_outputs {
        Some(structured) => structured_json(r.common.structured_outputs) || structured.regex is Some
            || structured.grammar is Some || structured.choice is Some
            || structured.structural_tag is Some,
        None => false,
    }
    ||| json_response(r.inner.response_format)
}

/// A whole number that a token count or a token id can be.
pub open spec fn as_token(value: JsonView) -> Option<u32> {
    match value {
        JsonView::Number(JsonNumberView::Integer(n)) => if 0 <= n <= u32::MAX {
            Some(n as u32)
        } else {
            None
        },
        _ => None,
    }
}

/// A list of token ids.
pub open spec fn as_tokens(value: JsonView) -> Option<Seq<u32>> {
    match value {
        JsonView::Array(items) => if forall|i: int|
            0 <= i < items.len() ==> as_token(#[trigger] items[i]) is Some {
            Some(Seq::new(items.len(), |i: int| as_token(items[i])->0))
        } else {
            None
        },
        _ => None,
    }
}

/// The value that limits thinking: of the request, else of the template arguments.
pub open spec fn thinking_budget(r: NvCreateChatCompletionRequestView) -> Option<JsonView> {
    let args = present(r.chat_template_args);
    either(
        looked_up(r.unsupported_fields, "reasoning_budget"@),
        either(looked_up(args, "reasoning_budget"@), looked_up(args, "thinking_token_budget"@)),
    )
}

/// How many tokens thinking may take: what the extension says, else what the budget
/// says, which counts even where it is no count; else, for thinking with constrained
/// decoding, the default of the deployment.
pub open spec fn max_thinking_tokens(
    r: NvCreateChatCompletionRequestView,
    constrained_default: Option<u32>,
) -> Option<u32> {
    if r.nvext is Some && r.nvext->0.max_thinking_tokens is Some {
        r.nvext->0.max_thinking_tokens
    } else if thinking_budget(r) is Some {
        as_token(thinking_budget(r)->0)
    } else if thinking_enabled(r.chat_template_args) && constrained(r) {
        constrained_default
    } else {
        None
    }
}

/// The texts that end a response.
pub open spec fn stop_texts(stop: Option<StopView>) -> Option<Seq<Seq<char>>> {
    match stop {
        Some(StopView::Text(text)) => Some(seq![text]),
        Some(StopView::TextArray(texts)) => Some(texts),
        _ => None,
    }
}

/// The tokens that end a response: those of the stop condition, else those of the
/// field that passes them through.
pub open spec fn stop_tokens(r: NvCreateChatCompletionRequestView) -> Option<Seq<u32>> {
    match r.inner.stop {
        Some(StopView::TokenIds(ids)) => Some(ids),
        _ => match looked_up(r.unsupported_fields, "stop_token_ids"@) {
            Some(value) => as_tokens(value),
            None => None,
        },
    }
}

/// A request whose decoding a structural tag guides is guided by no tool-choice schema,
/// and the tag is there.
pub proof fn law_tag_or_schema(
    r: NvCreateChatCompletionRequestView,
    parser: Seq<char>,
    request_text_len: Option<usize>,
)
    requires
        uses_structural_tag(r, parser),
    ensures
        guided_json(r, parser, request_text_len) is None,
        guided_structural_tag(r, parser, request_text_len) is Some || (
        r.inner.tool_choice matches Some(ChatCompletionToolChoiceOptionView::Named(name))
            && crate::tools::tool_named(r.inner.tools->0, name) is None),
{
}

/// The number as a token count or a token id.
fn token_of(value: &Json) -> (r: Option<u32>)
    ensures
        r == as_token(value@),
{
    match value {
        Json::Number(JsonNumber::Unsigned(n)) => if *n <= 0xffff_ffff {
            Some(*n as u32)
        } else {
            None
        },
        Json::Number(JsonNumber::Negative(n)) => if 0 <= *n && *n <= 0xffff_ffff {
            Some(*n as u32)
        } else {
            None
        },
        _ => None,
    }
}

/// The list as token ids.
pub(crate) fn tokens_of(value: &Json) -> (r: Option<Vec<u32>>)
    ensures
        r.deep_view() == as_tokens(value@),
{
    match value {
        Json::Array(items) => {
            let ghost all = value@->Array_0;
            let mut tokens: Vec<u32> = Vec::new();
            let mut i: usize = 0;
            while i < items.len()
                invariant
                    *value == Json::Array(*items),
                    all == value@->Array_0,
                    i <= items@.len(),
                    tokens@.len() == i,
                    forall|k: int|
                        0 <= k < i ==> as_token(#[trigger] all[k]) == Some(tokens@[k]),
                decreases items@.len() - i,
            {
                assert(all[i as int] == items@[i as int]@);
                match token_of(&items[i]) {
                    Some(token) => {
                        tokens.push(token);
                    },
                    None => {
                        assert(as_token(all[i as int]) is None);
                        return None;
                    },
                }
                i += 1;
            }
            assert(tokens.deep_view() =~= Seq::new(all.len(), |i: int| as_token(all[i])->0));
            Some(tokens)
        },
        _ => None,
    }
}

/// Whether the template argument is that boolean.
fn flag(args: &Option<JsonMap>, key: &str, value: bool) -> (r: bool)
    ensures
        r == flag_is(args.deep_view(), key@, value),
{
    match args {
        Some(args) => match args.get(key) {
            Some(Json::Bool(set)) => *set == value,
            _ => false,
        },
        None => false,
    }
}

/// A schema for some object that is not empty and has at most 64 members.
fn json_object_schema() -> (r: Json)
    ensures
        r@ == some_object_schema(),
{
    Json::empty_object().with("type", Json::text("object")).with(
        "minProperties",
        Json::unsigned(1),
    ).with("maxProperties", Json::unsigned(64))
}

impl NvCreateChatCompletionRequest {
    /// The tools of the request.
    pub(crate) fn tool_list(&self) -> (r: Option<&[ChatCompletionTool]>)
        ensures
            r.deep_view() == self.deep_view().inner.tools,
    {
        match &self.inner.tools {
            Some(tools) => {
                let list: &[ChatCompletionTool] = tools.as_slice();
                assert(list.deep_view() =~= tools.deep_view());
                Some(list)
            },
            None => None,
        }
    }

    /// Whether there is at least one tool.
    fn has_tools(&self) -> (r: bool)
        ensures
            r == some_tools(self.deep_view().inner.tools),
    {
        match &self.inner.tools {
            Some(tools) => tools.len() > 0,
            None => false,
        }
    }

    /// Whether the structured outputs ask for JSON.
    fn has_structured_json(&self) -> (r: bool)
        ensures
            r == structured_json(self.deep_view().common.structured_outputs),
    {
        match &self.common.structured_outputs {
            Some(structured) => structured.json.is_some() || (match structured.json_object {
                Some(wanted) => wanted,
                None => false,
            }),
            None => false,
        }
    }

    /// Whether the response is to be JSON.
    fn has_json_response(&self) -> (r: bool)
        ensures
            r == json_response(self.deep_view().inner.response_format),
    {
        match &self.inner.response_format {
            Some(ResponseFormat::Text) => false,
            Some(_) => true,
            None => false,
        }
    }

    /// Whether the request asks for JSON and has no tools.
    pub fn uses_pure_json_structured_output(&self) -> (r: bool)
        ensures
            r == pure_json(self.deep_view()),
    {
        !self.has_tools() && (self.common.guided_json.is_some() || self.has_structured_json()
            || self.has_json_response())
    }

    /// Whether a structural tag guides the tool call, with that tool-call parser.
    pub fn uses_qwen_xml_tool_structural_tag(&self, parser: &str) -> (r: bool)
        ensures
            r == uses_structural_tag(self.deep_view(), parser@),
    {
        let forced: bool = match &self.inner.tool_choice {
            Some(ChatCompletionToolChoiceOption::Named(_)) => self.has_tools()
                && !named_tool_choice_has_freeform_text_field(
                self.inner.tool_choice.as_ref(),
                self.tool_list(),
            ),
            Some(ChatCompletionToolChoiceOption::Required) => match &self.inner.tools {
                Some(tools) => tools.len() == 1,
                None => false,
            },
            _ => false,
        };
        if !forced {
            return false;
        }
        let name: String = trim(parser);
        same_text(name.as_str(), "qwen3_coder") || same_text(name.as_str(), "qwen3_xml")
            || same_text(name.as_str(), "nemotron_nano")
    }

    /// Whether the template arguments turn thinking on.
    pub fn template_thinking_enabled(&self) -> (r: bool)
        ensures
            r == thinking_enabled(self.deep_view().chat_template_args),
    {
        let args: &Option<JsonMap> = &self.chat_template_args;
        if flag(args, "enable_thinking", false) || flag(args, "thinking", false) {
            return false;
        }
        flag(args, "enable_thinking", true) || flag(args, "thinking", true) || flag(
            args,
            "low_effort",
            true,
        ) || flag(args, "medium_effort", true)
    }

    /// Whether decoding is constrained.
    pub fn uses_constrained_decoding(&self) -> (r: bool)
        ensures
            r == constrained(self.deep_view()),
    {
        let tools_enabled: bool = self.has_tools() && (match &self.inner.tool_choice {
            Some(ChatCompletionToolChoiceOption::NoTool) => false,
            _ => true,
        });
        if tools_enabled {
            return true;
        }
        if self.common.guided_json.is_some() || self.common.guided_regex.is_some()
            || self.common.guided_grammar.is_some() || self.common.guided_choice.is_some() {
            return true;
        }
        if self.has_structured_json() {
            return true;
        }
        let structured: bool = match &self.common.structured_outputs {
            Some(structured) => structured.regex.is_some() || structured.grammar.is_some()
                || structured.choice.is_some() || structured.structural_tag.is_some(),
            None => false,
        };
        structured || self.has_json_response()
    }

    /// The schema of the client.
    fn client_guided_json(&self) -> (r: Option<GuidedSchema>)
        ensures
            r.deep_view() == client_schema(self.deep_view()),
    {
        match &self.common.guided_json {
            Some(schema) => {
                return Some(
                    GuidedSchema { schema: schema.duplicate(), origin: SchemaOrigin::Client },
                );
            },
            None => {},
        }
        match &self.common.structured_outputs {
            Some(structured) => {
                match &structured.json {
                    Some(schema) => {
                        return Some(
                            GuidedSchema {
                                schema: schema.duplicate(),
                                origin: SchemaOrigin::Client,
                            },
                        );
                    },
                    None => {},
                }
            },
            None => {},
        }
        if self.has_structured_json() {
            return Some(
                GuidedSchema { schema: json_object_schema(), origin: SchemaOrigin::AnyObject },
            );
        }
        match &self.inner.response_format {
            Some(ResponseFormat::JsonObject) => Some(
                GuidedSchema { schema: json_object_schema(), origin: SchemaOrigin::AnyObject },
            ),
            Some(ResponseFormat::JsonSchema { schema: Some(schema) }) => Some(
                GuidedSchema { schema: schema.duplicate(), origin: SchemaOrigin::Client },
            ),
            _ => None,
        }
    }

    /// The schema that guides decoding, with that tool-call parser and for a request
    /// whose text has that length.
    pub fn get_guided_json(&self, parser: &str, request_text_len: Option<usize>) -> (r: Option<
        GuidedSchema,
    >)
        ensures
            r.deep_view() == guided_json(self.deep_view(), parser@, request_text_len),
    {
        if self.uses_qwen_xml_tool_structural_tag(parser) {
            return None;
        }
        match get_json_schema_from_tools(
            self.inner.tool_choice.as_ref(),
            self.tool_list(),
            request_text_len,
        ) {
            Ok(Some(tool_schema)) => {
                let mut schema: Json = tool_schema;
                schema.set("x-dynamo-tool-choice-schema", Json::Bool(true));
                Some(GuidedSchema { schema, origin: SchemaOrigin::ToolChoice })
            },
            _ => self.client_guided_json(),
        }
    }

    /// The structural tag that guides decoding, with that tool-call parser and for a
    /// request whose text has that length.
    pub fn get_guided_structural_tag(&self, parser: &str, request_text_len: Option<usize>) -> (r:
        Option<Json>)
        ensures
            r.deep_view() == guided_structural_tag(self.deep_view(), parser@, request_text_len),
    {
        match &self.common.structured_outputs {
            Some(structured) => {
                match &structured.structural_tag {
                    Some(tag) => {
                        return Some(tag.duplicate());
                    },
                    None => {},
                }
            },
            None => {},
        }
        if !self.uses_qwen_xml_tool_structural_tag(parser) {
            return None;
        }
        match get_qwen_xml_structural_tag_from_tools(
            self.inner.tool_choice.as_ref(),
            self.tool_list(),
            request_text_len,
        ) {
            Ok(tag) => tag,
            Err(_) => None,
        }
    }

    /// The regex that guides decoding: that of the extension, else that of the structured
    /// outputs.
    pub fn get_guided_regex(&self) -> (r: Option<String>)
        ensures
            r.deep_view() == either(
                self.deep_view().common.guided_regex,
                match self.deep_view().common.structured_outputs {
                    Some(structured) => structured.regex,
                    None => None,
                },
            ),
    {
        match &self.common.guided_regex {
            Some(regex) => Some(regex.duplicate()),
            None => match &self.common.structured_outputs {
                Some(structured) => structured.regex.duplicate(),
                None => None,
            },
        }
    }

    /// The grammar that guides decoding: that of the extension, else that of the structured
    /// outputs.
    pub fn get_guided_grammar(&self) -> (r: Option<String>)
        ensures
            r.deep_view() == either(
                self.deep_view().common.guided_grammar,
                match self.deep_view().common.structured_outputs {
                    Some(structured) => structured.grammar,
                    None => None,
                },
            ),
    {
        match &self.common.guided_grammar {
            Some(grammar) => Some(grammar.duplicate()),
            None => match &self.common.structured_outputs {
                Some(structured) => structured.grammar.duplicate(),
                None => None,
            },
        }
    }

    /// The choice that guides decoding: that of the extension, else that of the structured
    /// outputs.
    pub fn get_guided_choice(&self) -> (r: Option<Vec<String>>)
        ensures
            r.deep_view() == either(
                self.deep_view().common.guided_choice,
                match self.deep_view().common.structured_outputs {
                    Some(structured) => structured.choice,
                    None => None,
                },
            ),
    {
        match &self.common.guided_choice {
            Some(choice) => Some(choice.duplicate()),
            None => match &self.common.structured_outputs {
                Some(structured) => structured.choice.duplicate(),
                None => None,
            },
        }
    }

    /// The texts that end a response.
    pub fn get_stop(&self) -> (r: Option<Vec<String>>)
        ensures
            r.deep_view() == stop_texts(self.deep_view().inner.stop),
    {
        match &self.inner.stop {
            Some(Stop::Text(text)) => Some(one_item(text.duplicate())),
            Some(Stop::TextArray(texts)) => Some(texts.duplicate()),
            _ => None,
        }
    }

    /// The tokens that end a response.
    pub fn get_stop_token_ids(&self) -> (r: Option<Vec<u32>>)
        ensures
            r.deep_view() == stop_tokens(self.deep_view()),
    {
        match &self.inner.stop {
            Some(Stop::TokenIds(ids)) => Some(ids.duplicate()),
            _ => match self.unsupported_fields.get("stop_token_ids") {
                Some(value) => tokens_of(value),
                None => None,
            },
        }
    }

    /// How many tokens thinking may take; `constrained_default` is the default of the
    /// deployment for thinking with constrained decoding.
    pub fn get_max_thinking_tokens(&self, constrained_default: Option<u32>) -> (r: Option<u32>)
        ensures
            r == max_thinking_tokens(self.deep_view(), constrained_default),
    {
        match &self.nvext {
            Some(nvext) => {
                match nvext.max_thinking_tokens {
                    Some(value) => {
                        return Some(value);
                    },
                    None => {},
                }
            },
            None => {},
        }
        match self.unsupported_fields.get("reasoning_budget") {
            Some(value) => {
                return token_of(value);
            },
            None => {},
        }
        match &self.chat_template_args {
            Some(args) => {
                match args.get("reasoning_budget") {
                    Some(value) => {
                        return token_of(value);
                    },
                    None => {},
                }
                match args.get("thinking_token_budget") {
                    Some(value) => {
                        return token_of(value);
                    },
                    None => {},
                }
            },
            None => {},
        }
        if self.template_thinking_enabled() && self.uses_constrained_decoding() {
            constrained_default
        } else {
            None
        }
    }

    /// How many tokens a response may have.
    pub fn get_max_tokens(&self) -> (r: Option<u32>)
        ensures
            r == either(self.inner.max_completion_tokens, self.inner.max_tokens),
    {
        match self.inner.max_completion_tokens {
            Some(limit) => Some(limit),
            None => self.inner.max_tokens,
        }
    }

    /// How many alternatives to report for each token: one where the request leaves the
    /// number open, none where it does not ask.
    pub fn get_logprobs(&self) -> (r: Option<u32>)
        ensures
            r == (match self.inner.logprobs {
                Some(true) => match self.inner.top_logprobs {
                    Some(top) => Some(top as u32),
                    None => Some(1u32),
                },
                _ => None,
            }),
    {
        match self.inner.logprobs {
            Some(true) => match self.inner.top_logprobs {
                Some(top) => Some(top as u32),
                None => Some(1),
            },
            _ => None,
        }
    }

    /// The annotations that the request asks for.
    pub fn annotations(&self) -> (r: Option<Vec<String>>)
        ensures
            r.deep_view() == (match self.deep_view().nvext {
                Some(nvext) => nvext.annotations,
                None => None,
            }),
    {
        match &self.nvext {
            Some(nvext) => nvext.annotations.duplicate(),
            None => None,
        }
    }

    /// Whether the request asks for that annotation.
    pub fn has_annotation(&self, annotation: &str) -> (r: bool)
        ensures
            r == (match self.deep_view().nvext {
                Some(nvext) => nvext.annotations is Some && nvext.annotations->0.contains(
                    annotation@,
                ),
                None => false,
            }),
    {
        match &self.nvext {
            Some(nvext) => match &nvext.annotations {
                Some(annotations) => has_text(annotations, annotation),
                None => false,
            },
            None => false,
        }
    }

    /// The extension parameters.
    pub fn nvext(&self) -> (r: Option<&NvExt>)
        ensures
            r.deep_view() == self.deep_view().nvext,
    {
        self.nvext.as_ref()
    }

    /// The prompt as raw text: chat requests have none.
    pub fn raw_prompt(&self) -> (r: Option<String>)
        ensures
            r is None,
    {
        None
    }

    /// The fields that no other field holds.
    pub fn unsupported_fields(&self) -> (r: Option<&JsonMap>)
        ensures
            r == Some(&self.unsupported_fields),
    {
        Some(&self.unsupported_fields)
    }

    /// The common extension parameters.
    pub fn common_ext(&self) -> (r: Option<&CommonExt>)
        ensures
            r == Some(&self.common),
    {
        Some(&self.common)
    }

    /// How many candidates to choose the best of: chat requests do not say.
    pub fn get_best_of(&self) -> (r: Option<u8>)
        ensures
            r is None,
    {
        None
    }

    /// Whether to return the formatted prompt: chat requests do not say.
    pub fn get_formatted_prompt(&self) -> (r: Option<bool>)
        ensures
            r is None,
    {
        None
    }

    /// The sampling temperature, as the bits of its number.
    pub fn get_temperature(&self) -> (r: Option<u32>)
        ensures
            r == self.inner.temperature,
    {
        self.inner.temperature
    }

    /// The share of nucleus sampling, as the bits of its number.
    pub fn get_top_p(&self) -> (r: Option<u32>)
        ensures
            r == self.inner.top_p,
    {
        self.inner.top_p
    }

    /// The frequency penalty, as the bits of its number.
    pub fn get_frequency_penalty(&self) -> (r: Option<u32>)
        ensures
            r == self.inner.frequency_penalty,
    {
        self.inner.frequency_penalty
    }

    /// The presence penalty, as the bits of its number.
    pub fn get_presence_penalty(&self) -> (r: Option<u32>)
        ensures
            r == self.inner.presence_penalty,
    {
        self.inner.presence_penalty
    }

    /// The seed for random numbers.
    pub fn get_seed(&self) -> (r: Option<i64>)
        ensures
            r == self.inner.seed,
    {
        self.inner.seed
    }

    /// How many choices to generate.
    pub fn get_n(&self) -> (r: Option<u8>)
        ensures
            r == self.inner.n,
    {
        self.inner.n
    }

    /// From how many most likely tokens to sample.
    pub fn get_top_k(&self) -> (r: Option<i32>)
        ensures
            r == self.common.top_k,
    {
        self.common.top_k
    }

    /// The least share of a token's likelihood, as the bits of its number.
    pub fn get_min_p(&self) -> (r: Option<u32>)
        ensures
            r == self.common.min_p,
    {
        self.common.min_p
    }

    /// The repetition penalty, as the bits of its number.
    pub fn get_repetition_penalty(&self) -> (r: Option<u32>)
        ensures
            r == self.common.repetition_penalty,
    {
        self.common.repetition_penalty
    }

    /// Whether the text that ends a response is part of it.
    pub fn get_include_stop_str_in_output(&self) -> (r: Option<bool>)
        ensures
            r == self.common.include_stop_str_in_output,
    {
        self.common.include_stop_str_in_output
    }

    /// Whether special tokens are left out.
    pub fn get_skip_special_tokens(&self) -> (r: Option<bool>)
        ensures
            r == self.common.skip_special_tokens,
    {
        self.common.skip_special_tokens
    }

    /// How many alternatives to report for each token of the prompt.
    pub fn get_prompt_logprobs_count(&self) -> (r: Option<u32>)
        ensures
            r == self.common.prompt_logprobs,
    {
        self.common.prompt_logprobs
    }

    /// How many alternatives to report for each token of the prompt.
    pub fn get_prompt_logprobs(&self) -> (r: Option<u32>)
        ensures
            r == self.common.prompt_logprobs,
    {
        self.common.prompt_logprobs
    }

    /// How many tokens a response must have.
    pub fn get_min_tokens(&self) -> (r: Option<u32>)
        ensures
            r == self.common.min_tokens,
    {
        self.common.min_tokens
    }

    /// Whether generation goes on past the end of the sequence.
    pub fn get_common_ignore_eos(&self) -> (r: Option<bool>)
        ensures
            r == self.common.ignore_eos,
    {
        self.common.ignore_eos
    }

    /// Whether generation goes on past the end of the sequence.
    pub fn get_ignore_eos(&self) -> (r: Option<bool>)
        ensures
            r == self.common.ignore_eos,
    {
        self.common.ignore_eos
    }

    /// Whether token fields hold token ids in place of texts.
    pub fn get_return_tokens_as_token_ids(&self) -> (r: Option<bool>)
        ensures
            r == self.return_tokens_as_token_ids,
    {
        self.return_tokens_as_token_ids
    }

    /// The backend that guides decoding.
    pub fn get_guided_decoding_backend(&self) -> (r: Option<String>)
        ensures
            r.deep_view() == self.deep_view().common.guided_decoding_backend,
    {
        self.common.guided_decoding_backend.duplicate()
    }

    /// The pattern for white space in guided decoding.
    pub fn get_guided_whitespace_pattern(&self) -> (r: Option<String>)
        ensures
            r.deep_view() == self.deep_view().common.guided_whitespace_pattern,
    {
        self.common.guided_whitespace_pattern.duplicate()
    }
}

/// Whether the text is in the list.
pub fn has_text(list: &Vec<String>, text: &str) -> (r: bool)
    ensures
        r == list.deep_view().contains(text@),
{
    let ghost all = list.deep_view();
    let mut i: usize = 0;
    while i < list.len()
        invariant
            all == list.deep_view(),
            all.len() == list@.len(),
            i <= list@.len(),
            forall|k: int| 0 <= k < i ==> #[trigger] all[k] != text@,
        decreases list@.len() - i,
    {
        assert(all[i as int] == list@[i as int]@);
        if same_text(list[i].as_str(), text) {
            return true;
        }
        i += 1;
    }
    false
}

} // verus!
