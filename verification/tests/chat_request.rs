use dynamo_llm::aggregator::{
    tool_call_response_chunk_to_protocol, tool_call_response_to_protocol,
};
use dynamo_llm::chat_request::{has_text, GuidedSchema, SchemaOrigin};
use dynamo_llm::chat_types::{
    CalledFunction, CalledFunctionStream, ChatCompletionMessageToolCall,
    ChatCompletionMessageToolCallChunk, FunctionCall, FunctionCallStream, FunctionType,
    ToolCallResponse, ToolCallResponseChunk,
};
use dynamo_llm::json::{json_equal, Json, JsonMap};
use dynamo_llm::reasoning::{openai_thinking_mode, OpenAiThinkingMode};
use dynamo_llm::request_types::{
    ChatCompletionRequestAssistantMessage, ChatCompletionRequestMessage, ChatCompletionTool,
    ChatCompletionToolChoiceOption, CommonExt, CreateChatCompletionRequest, FunctionObject,
    NvCreateChatCompletionRequest, NvExt, ReasoningEffort, ResponseFormat, Stop,
    StructuredOutputs,
};
use dynamo_llm::validate::{
    accepts_arguments, validate_stop_token_ids, validate_tools, RequestChecks,
};

fn parse(text: &str) -> Json {
    Json::parse(text).expect("JSON text")
}

fn at<'a>(value: &'a Json, path: &[&str]) -> &'a Json {
    let mut here = value;
    for step in path {
        here = match here {
            Json::Array(items) => &items[step.parse::<usize>().unwrap()],
            _ => here.get(step).expect("object member"),
        };
    }
    here
}

fn assert_json(value: &Json, expected: &str) {
    assert!(json_equal(value, &parse(expected)), "{} is not {}", value.to_text(), expected);
}

fn map(text: &str) -> JsonMap {
    match parse(text) {
        Json::Object(fields) => JsonMap { fields },
        _ => panic!("expected an object"),
    }
}

fn user(text: &str) -> ChatCompletionRequestMessage {
    ChatCompletionRequestMessage::User { content: text.to_string() }
}

fn request(content: &str) -> NvCreateChatCompletionRequest {
    NvCreateChatCompletionRequest {
        inner: CreateChatCompletionRequest {
            model: "test-model".to_string(),
            messages: vec![user(content)],
            temperature: None,
            top_p: None,
            frequency_penalty: None,
            presence_penalty: None,
            max_tokens: None,
            max_completion_tokens: None,
            n: None,
            seed: None,
            stop: None,
            tools: None,
            tool_choice: None,
            stream: None,
            stream_options: None,
            logprobs: None,
            top_logprobs: None,
            response_format: None,
            reasoning_effort: None,
        },
        common: CommonExt {
            ignore_eos: None,
            min_tokens: None,
            top_k: None,
            min_p: None,
            repetition_penalty: None,
            include_stop_str_in_output: None,
            skip_special_tokens: None,
            prompt_logprobs: None,
            guided_json: None,
            guided_regex: None,
            guided_grammar: None,
            guided_choice: None,
            guided_decoding_backend: None,
            guided_whitespace_pattern: None,
            structured_outputs: None,
        },
        nvext: None,
        chat_template_args: None,
        thinking: None,
        return_tokens_as_token_ids: None,
        unsupported_fields: JsonMap::new(),
    }
}

fn structured() -> StructuredOutputs {
    StructuredOutputs {
        json: None,
        json_object: None,
        regex: None,
        grammar: None,
        choice: None,
        structural_tag: None,
    }
}

fn tool(name: &str, parameters: &str) -> ChatCompletionTool {
    ChatCompletionTool {
        tool_type: FunctionType::Function,
        function: FunctionObject {
            name: name.to_string(),
            description: None,
            parameters: Some(parse(parameters)),
            strict: None,
        },
    }
}

fn object_of(field: &str) -> String {
    format!(
        r#"{{"type":"object","properties":{{"{field}":{{"type":"string"}}}},"required":["{field}"]}}"#
    )
}

fn named(name: &str) -> Option<ChatCompletionToolChoiceOption> {
    Some(ChatCompletionToolChoiceOption::Named(name.to_string()))
}

fn calling(field: &str) -> NvCreateChatCompletionRequest {
    let mut request = request("Call send_message");
    request.inner.tools = Some(vec![tool("send_message", &object_of(field))]);
    request.inner.tool_choice = named("send_message");
    request
}

fn weather_request(args: &str) -> NvCreateChatCompletionRequest {
    let mut request = request("Call get_weather");
    request.inner.max_tokens = Some(65536);
    request.chat_template_args = Some(map(args));
    request.inner.tools = Some(vec![tool("get_weather", &object_of("location"))]);
    request.inner.tool_choice = Some(ChatCompletionToolChoiceOption::Auto);
    request
}

fn answer_request() -> NvCreateChatCompletionRequest {
    let mut request = request("Answer as JSON");
    request.inner.max_tokens = Some(65536);
    request.chat_template_args = Some(map(r#"{"enable_thinking":true,"reasoning_budget":1024}"#));
    request.common.structured_outputs =
        Some(StructuredOutputs { json: Some(parse(&object_of("answer"))), ..structured() });
    request
}

fn check(request: &NvCreateChatCompletionRequest) -> Result<(), String> {
    request.validate(&RequestChecks::default())
}

fn assert_args(args: &JsonMap, key: &str, expected: &str) {
    assert_json(args.get(key).expect("template argument"), expected);
}

// "Call send_message" and its tool are short.
const SHORT: Option<usize> = Some(64);

#[test]
fn test_skip_special_tokens_none() {
    let request = request("Hello");
    assert_eq!(request.common.skip_special_tokens, None);
    assert_eq!(request.get_skip_special_tokens(), None);
}

#[test]
fn test_skip_special_tokens_propagates() {
    for skip_value in [true, false] {
        let mut request = request("Hello");
        request.common.skip_special_tokens = Some(skip_value);
        assert_eq!(request.get_skip_special_tokens(), Some(skip_value));
    }
}

#[test]
fn test_reasoning_effort_low_sets_size_specific_template_flags() {
    let mut request = request("Hello");
    request.inner.reasoning_effort = Some(ReasoningEffort::Low);
    request.normalize_reasoning_controls();
    let args = request.chat_template_args.unwrap();
    assert_args(&args, "enable_thinking", "true");
    assert_args(&args, "low_effort", "true");
    assert_args(&args, "medium_effort", "true");
}

#[test]
fn test_reasoning_effort_high_sets_max_thinking_template_flags() {
    let mut request = request("Hello");
    request.inner.reasoning_effort = Some(ReasoningEffort::Max);
    request.normalize_reasoning_controls();
    let args = request.chat_template_args.unwrap();
    assert_args(&args, "enable_thinking", "true");
    assert!(!args.contains_key("low_effort"));
    assert!(!args.contains_key("medium_effort"));
}

#[test]
fn test_reasoning_effort_none_disables_template_thinking() {
    let mut request = request("Hello");
    request.inner.reasoning_effort = Some(ReasoningEffort::NoEffort);
    request.normalize_reasoning_controls();
    let args = request.chat_template_args.unwrap();
    assert_args(&args, "enable_thinking", "false");
}

#[test]
fn test_template_thinking_alias_sets_enable_thinking() {
    let mut request = request("Hello");
    request.chat_template_args = Some(map(r#"{"thinking": false}"#));
    request.normalize_reasoning_controls();
    let args = request.chat_template_args.unwrap();
    assert_args(&args, "thinking", "false");
    assert_args(&args, "enable_thinking", "false");
}

#[test]
fn test_explicit_template_reasoning_flags_win() {
    let mut request = request("Hello");
    request.inner.reasoning_effort = Some(ReasoningEffort::Low);
    request.chat_template_args = Some(map(r#"{"enable_thinking": false}"#));
    request.normalize_reasoning_controls();
    let args = request.chat_template_args.unwrap();
    assert_args(&args, "enable_thinking", "false");
    assert!(!args.contains_key("low_effort"));
    assert!(!args.contains_key("medium_effort"));
}

#[test]
fn test_structured_outputs_alias_maps_to_guided_decoding() {
    let schema = object_of("answer");
    let mut request = request("Answer as JSON");
    request.common.structured_outputs = Some(StructuredOutputs {
        json: Some(parse(&schema)),
        json_object: None,
        regex: Some("[A-Z]{2}-\\d{3}".to_string()),
        grammar: Some("root ::= \"PASS\"".to_string()),
        choice: Some(vec!["PASS".to_string(), "FAIL".to_string()]),
        structural_tag: Some(parse(r#"{"type": "structural_tag", "format": {"type": "tag"}}"#)),
    });

    assert!(request.unsupported_fields.fields.is_empty());
    let guided = request.get_guided_json("", SHORT).expect("guided json");
    assert_json(&guided.schema, &schema);
    assert_eq!(guided.origin, SchemaOrigin::Client);
    assert_eq!(request.get_guided_regex().as_deref(), Some("[A-Z]{2}-\\d{3}"));
    assert_eq!(request.get_guided_grammar().as_deref(), Some("root ::= \"PASS\""));
    assert_eq!(
        request.get_guided_choice(),
        Some(vec!["PASS".to_string(), "FAIL".to_string()])
    );
    assert_json(
        &request.get_guided_structural_tag("", SHORT).expect("structural tag"),
        r#"{"type": "structural_tag", "format": {"type": "tag"}}"#,
    );
}

#[test]
fn test_structured_outputs_json_object_maps_to_bounded_object_schema() {
    let mut request = request("Answer as JSON");
    request.common.structured_outputs =
        Some(StructuredOutputs { json_object: Some(true), ..structured() });
    let guided = request.get_guided_json("", SHORT).expect("guided json").schema;
    assert_json(at(&guided, &["type"]), r#""object""#);
    assert_json(at(&guided, &["minProperties"]), "1");
    assert_json(at(&guided, &["maxProperties"]), "64");
}

#[test]
fn test_tool_choice_requires_tools() {
    let mut request = request("Call a tool");
    request.inner.tool_choice = Some(ChatCompletionToolChoiceOption::Required);
    let err = check(&request).expect_err("tool_choice requires tools");
    assert!(err.contains("When using `tool_choice`, `tools` must be set"));
}

#[test]
fn test_named_tool_choice_schema_precedes_structured_outputs_json() {
    let mut request = request("Call get_weather");
    request.inner.tools = Some(vec![tool("get_weather", &object_of("location"))]);
    request.inner.tool_choice = named("get_weather");
    request.common.structured_outputs =
        Some(StructuredOutputs { json: Some(parse(&object_of("wrong"))), ..structured() });

    let guided = request.get_guided_json("hermes", SHORT).expect("guided json");
    assert_json(
        &guided.schema,
        r#"{
            "type": "object",
            "properties": {"location": {"type": "string", "maxLength": 1024}},
            "required": ["location"],
            "additionalProperties": false,
            "x-dynamo-tool-choice-schema": true
        }"#,
    );
    assert_eq!(guided.origin, SchemaOrigin::ToolChoice);
}

#[test]
fn test_named_tool_choice_qwen_parser_uses_structural_tag() {
    let request = calling("note");
    assert_eq!(request.get_guided_json("qwen3_coder", SHORT), None);
    let structural_tag =
        request.get_guided_structural_tag("qwen3_coder", SHORT).expect("structural tag");
    let tag_format = at(&structural_tag, &["format"]);
    assert_json(at(tag_format, &["type"]), r#""tags_with_separator""#);
    assert_json(at(tag_format, &["at_least_one"]), "true");
    assert_json(at(tag_format, &["stop_after_first"]), "true");
    let tag = at(tag_format, &["tags", "0"]);
    assert_json(at(tag, &["begin"]), r#""<tool_call>\n<function=send_message>\n""#);
    assert_json(at(tag, &["content", "style"]), r#""qwen_xml""#);
    assert_json(
        at(tag, &["content", "json_schema", "properties", "note"]),
        r#"{"type": "string", "maxLength": 1024}"#,
    );
}

fn assert_body_schema(guided: Option<GuidedSchema>) {
    assert_json(
        &guided.expect("guided json").schema,
        r#"{
            "type": "object",
            "properties": {"body": {"type": "string", "maxLength": 256}},
            "required": ["body"],
            "additionalProperties": false,
            "x-dynamo-tool-choice-schema": true
        }"#,
    );
}

#[test]
fn test_named_tool_choice_qwen_parser_text_field_uses_json_schema() {
    let request = calling("body");
    assert!(request.get_guided_structural_tag("qwen3_coder", SHORT).is_none());
    assert_body_schema(request.get_guided_json("qwen3_coder", SHORT));
}

#[test]
fn test_named_tool_choice_non_qwen_parser_keeps_json_schema() {
    let request = calling("body");
    assert!(request.get_guided_structural_tag("hermes", SHORT).is_none());
    assert_body_schema(request.get_guided_json("hermes", SHORT));
}

#[test]
fn test_named_tool_choice_long_request_expands_body_budget() {
    let mut request = calling("body");
    let content = "Send this exact long body: ".to_string() + &"abcdef ".repeat(600);
    request.inner.model = "nvidia/nemotron-3-nano-30b-a3b".to_string();
    request.inner.messages = vec![user(&content)];
    // The length of the whole request, its messages written out more than once.
    let request_text_len = Some(2 * content.len());

    assert!(request.get_guided_structural_tag("qwen3_coder", request_text_len).is_none());
    let guided = request.get_guided_json("qwen3_coder", request_text_len).expect("guided json");
    assert_json(
        at(&guided.schema, &["properties", "body"]),
        r#"{"type": "string", "maxLength": 8192}"#,
    );
}

#[test]
fn test_named_tool_choice_nemotron_model_uses_structural_tag() {
    let mut request = calling("note");
    request.inner.model = "nvidia/nemotron-3-nano-30b-a3b".to_string();
    assert!(request.get_guided_json("qwen3_coder", SHORT).is_none());
    let structural_tag =
        request.get_guided_structural_tag("qwen3_coder", SHORT).expect("structural tag");
    let format = at(&structural_tag, &["format"]);
    assert_json(at(format, &["type"]), r#""tags_with_separator""#);
    assert_json(at(format, &["at_least_one"]), "true");
    assert_json(at(format, &["stop_after_first"]), "true");
}

#[test]
fn test_required_tool_choice_nemotron_model_uses_structural_tag() {
    let mut request = calling("body");
    request.inner.model = "nvidia/nemotron-3-nano-30b-a3b".to_string();
    request.inner.tool_choice = Some(ChatCompletionToolChoiceOption::Required);
    assert!(request.get_guided_json("qwen3_coder", SHORT).is_none());
    let structural_tag =
        request.get_guided_structural_tag("qwen3_coder", SHORT).expect("structural tag");
    let format = at(&structural_tag, &["format"]);
    assert_json(at(format, &["type"]), r#""tags_with_separator""#);
    assert_json(at(format, &["at_least_one"]), "true");
    assert_json(at(format, &["stop_after_first"]), "true");
    match at(format, &["tags"]) {
        Json::Array(tags) => assert_eq!(tags.len(), 1),
        _ => panic!("expected an array"),
    }
}

#[test]
fn test_required_multi_tool_choice_nemotron_model_keeps_json_array_schema() {
    let mut request = request("Call the needed tools");
    request.inner.model = "nvidia/nemotron-3-nano-30b-a3b".to_string();
    request.inner.tools = Some(vec![
        tool("calculate", &object_of("expression")),
        tool("get_weather", &object_of("location")),
    ]);
    request.inner.tool_choice = Some(ChatCompletionToolChoiceOption::Required);

    assert!(request.get_guided_structural_tag("qwen3_coder", SHORT).is_none());
    let guided = request.get_guided_json("qwen3_coder", SHORT).expect("guided json").schema;
    assert_json(at(&guided, &["type"]), r#""array""#);
    assert_json(at(&guided, &["x-dynamo-tool-choice-schema"]), "true");
    match at(&guided, &["items", "anyOf"]) {
        Json::Array(any_of) => assert_eq!(any_of.len(), 2),
        _ => panic!("expected an array"),
    }
}

#[test]
fn test_explicit_reasoning_budget_maps_to_max_thinking_tokens() {
    assert_eq!(answer_request().get_max_thinking_tokens(None), Some(1024));
}

#[test]
fn test_root_reasoning_budget_maps_to_max_thinking_tokens() {
    let mut request = weather_request(r#"{"enable_thinking": true}"#);
    request.unsupported_fields = map(r#"{"reasoning_budget": 1024}"#);
    assert_eq!(request.get_max_thinking_tokens(None), Some(1024));
}

#[test]
fn test_constrained_thinking_default_applies_to_tool_requests() {
    let request = weather_request(r#"{"enable_thinking": true}"#);
    assert_eq!(request.get_max_thinking_tokens(Some(0)), Some(0));
}

#[test]
fn test_constrained_thinking_default_does_not_override_explicit_budget() {
    assert_eq!(answer_request().get_max_thinking_tokens(Some(0)), Some(1024));
}

#[test]
fn test_constrained_thinking_default_skips_plain_chat_and_thinking_off() {
    let mut plain_chat = request("Hello");
    plain_chat.inner.max_tokens = Some(65536);
    plain_chat.chat_template_args = Some(map(r#"{"enable_thinking": true}"#));
    assert_eq!(plain_chat.get_max_thinking_tokens(Some(0)), None);

    let thinking_off_tool = weather_request(r#"{"enable_thinking": false}"#);
    assert_eq!(thinking_off_tool.get_max_thinking_tokens(Some(0)), None);
}

#[test]
fn test_stop_contract() {
    let stopping = |stop: Stop| {
        let mut request = request("Hello");
        request.inner.stop = Some(stop);
        request
    };

    let one_stop = stopping(Stop::Text(" The".to_string()));
    assert_eq!(one_stop.get_stop(), Some(vec![" The".to_string()]));
    assert_eq!(one_stop.get_stop_token_ids(), None);

    let many_stops = stopping(Stop::TextArray(vec!["A".to_string(), "B".to_string()]));
    assert_eq!(many_stops.get_stop(), Some(vec!["A".to_string(), "B".to_string()]));
    assert_eq!(many_stops.get_stop_token_ids(), None);

    let token_id_stops = stopping(Stop::TokenIds(vec![32, 34]));
    assert_eq!(token_id_stops.get_stop(), None);
    assert_eq!(token_id_stops.get_stop_token_ids(), Some(vec![32, 34]));

    let display_stop = stopping(Stop::Text("token_id:576".to_string()));
    assert_eq!(display_stop.get_stop(), Some(vec!["token_id:576".to_string()]));
    assert_eq!(display_stop.get_stop_token_ids(), None);

    let display_stops = stopping(Stop::TextArray(vec!["token_id:576".to_string()]));
    assert_eq!(display_stops.get_stop(), Some(vec!["token_id:576".to_string()]));
    assert_eq!(display_stops.get_stop_token_ids(), None);

    // `stop_token_ids` is accepted and plumbed by the provider trait.
    let mut accepted = request("Hello");
    accepted.unsupported_fields = map(r#"{"stop_token_ids": [576]}"#);
    assert_eq!(accepted.get_stop_token_ids(), Some(vec![576]));
    assert!(check(&accepted).is_ok(), "stop_token_ids must be accepted");

    let mut invalid = request("Hello");
    invalid.unsupported_fields = map(r#"{"stop_token_ids": "bad"}"#);
    let err = check(&invalid).expect_err("invalid stop_token_ids");
    assert!(err.contains("stop_token_ids"));
}

#[test]
fn test_passthrough_token_constraints_validate() {
    let mut request = request("Hello");
    request.unsupported_fields =
        map(r#"{"allowed_token_ids": [10, 11], "bad_words_token_ids": [[12, 13]]}"#);
    assert_json(request.unsupported_fields.get("allowed_token_ids").unwrap(), "[10, 11]");
    assert_json(request.unsupported_fields.get("bad_words_token_ids").unwrap(), "[[12, 13]]");
    assert!(check(&request).is_ok());
}

#[test]
fn test_completion_token_ids_rejected_for_multi_choice() {
    let mut request = request("Hello");
    request.inner.n = Some(2);
    request.nvext = Some(NvExt {
        annotations: None,
        max_thinking_tokens: None,
        extra_fields: Some(vec!["completion_token_ids".to_string()]),
    });
    let err = check(&request).expect_err("multi-choice token ids");
    assert!(err.contains("completion_token_ids"));
    request.inner.n = Some(1);
    assert!(check(&request).is_ok());
}

#[test]
fn test_validate_tool_choice_required_rejects_empty_tools() {
    let mut request = request("Hello");
    request.inner.tool_choice = Some(ChatCompletionToolChoiceOption::Required);
    let err = check(&request).expect_err("required needs tools");
    assert!(err.contains("tool_choice is \"required\" but tools is empty"));
}

#[test]
fn test_validate_tool_choice_named_rejects_missing_tool() {
    let mut request = request("Hello");
    request.inner.tools =
        Some(vec![tool("get_weather", r#"{"type": "object", "properties": {}}"#)]);
    request.inner.tool_choice = named("search");
    let err = check(&request).expect_err("named tool must exist");
    assert!(err.contains("tool named \"search\" in tool_choice is not present in tools"));
}

fn native_call(id: &str, name: &str, args: &str) -> ToolCallResponse {
    ToolCallResponse {
        id: id.to_string(),
        tp: FunctionType::Function,
        function: CalledFunction { name: name.to_string(), arguments: args.to_string() },
    }
}

fn native_chunk(index: u32, id: &str, name: &str, args: &str) -> ToolCallResponseChunk {
    ToolCallResponseChunk {
        index,
        id: Some(id.to_string()),
        tp: Some(FunctionType::Function),
        function: Some(CalledFunctionStream {
            name: Some(name.to_string()),
            arguments: Some(args.to_string()),
        }),
    }
}

fn legacy_unary(id: &str, name: &str, args: &str) -> ChatCompletionMessageToolCall {
    ChatCompletionMessageToolCall {
        id: id.to_string(),
        tool_type: FunctionType::Function,
        function: FunctionCall { name: name.to_string(), arguments: args.to_string() },
    }
}

fn legacy_chunk(
    index: u32,
    id: &str,
    name: &str,
    args: &str,
) -> ChatCompletionMessageToolCallChunk {
    ChatCompletionMessageToolCallChunk {
        index,
        id: Some(id.to_string()),
        tool_type: Some(FunctionType::Function),
        function: Some(FunctionCallStream {
            name: Some(name.to_string()),
            arguments: Some(args.to_string()),
        }),
    }
}

#[test]
fn unary_mapping_matches_legacy_struct_and_json() {
    for (id, name, args) in [
        ("call_1", "get_weather", r#"{"location":"SF","unit":"celsius"}"#),
        ("call_2", "ping", "{}"),
    ] {
        let mapped = tool_call_response_to_protocol(&native_call(id, name, args));
        assert_eq!(mapped, legacy_unary(id, name, args), "struct mismatch for {name}");
    }
}

#[test]
fn unary_mapping_multi_call_matches_legacy() {
    let inputs = [("a", "first", r#"{"k":"v1"}"#), ("b", "second", r#"{"k":"v2"}"#)];
    let mapped: Vec<_> = inputs
        .iter()
        .map(|(id, n, a)| tool_call_response_to_protocol(&native_call(id, n, a)))
        .collect();
    let legacy: Vec<_> = inputs.iter().map(|(id, n, a)| legacy_unary(id, n, a)).collect();
    assert_eq!(mapped, legacy);
}

#[test]
fn stream_mapping_matches_legacy_struct_and_json() {
    for (idx, id, name, args) in [
        (0u32, "call_1", "get_weather", r#"{"location":"SF"}"#),
        (1u32, "call_2", "ping", "{}"),
    ] {
        let mapped = tool_call_response_chunk_to_protocol(native_chunk(idx, id, name, args));
        assert_eq!(mapped, legacy_chunk(idx, id, name, args), "struct mismatch for {name}");
    }
}

#[test]
fn stream_mapping_multi_call_indexes_and_matches_legacy() {
    let inputs =
        [(0u32, "a", "first", r#"{"k":"v1"}"#), (1u32, "b", "second", r#"{"k":"v2"}"#)];
    let mapped: Vec<_> = inputs
        .iter()
        .map(|(i, id, n, a)| tool_call_response_chunk_to_protocol(native_chunk(*i, id, n, a)))
        .collect();
    let legacy: Vec<_> =
        inputs.iter().map(|(i, id, n, a)| legacy_chunk(*i, id, n, a)).collect();
    assert_eq!(mapped, legacy);
}

fn answered(arguments: &str) -> NvCreateChatCompletionRequest {
    let mut request = request("weather?");
    request.inner.messages.push(ChatCompletionRequestMessage::Assistant(
        ChatCompletionRequestAssistantMessage {
            content: None,
            reasoning_content: None,
            tool_calls: Some(vec![legacy_unary("call_1", "get_weather", arguments)]),
        },
    ));
    request.inner.messages.push(ChatCompletionRequestMessage::Tool {
        content: "sunny".to_string(),
        tool_call_id: "call_1".to_string(),
    });
    request.inner.tools =
        Some(vec![tool("get_weather", r#"{"type": "object", "properties": {}}"#)]);
    request
}

#[test]
fn test_validate_messages_rejects_bad_tool_call_arguments() {
    for arguments in ["{invalid json}", "[]", "null", "\"not an object\""] {
        let err = check(&answered(arguments))
            .expect_err("bad tool_call arguments should fail validation");
        assert!(
            err.contains("`messages[1].tool_calls[0].function.arguments`"),
            "unexpected error for {arguments:?}: {err}"
        );
        assert!(
            err.contains("valid JSON object string"),
            "unexpected error for {arguments:?}: {err}"
        );
    }
}

#[test]
fn test_validate_messages_accepts_empty_tool_call_arguments() {
    for arguments in ["", " \n\t ", "{}"] {
        check(&answered(arguments))
            .unwrap_or_else(|err| panic!("empty tool_call arguments should validate: {err}"));
    }
}

#[test]
fn test_validate_tools_valid_names() {
    let make_tool = |name: &str| tool(name, r#"{"type": "object", "properties": {}}"#);
    let tools = vec![
        make_tool("func_name"),
        make_tool("func-name_v2"),
        make_tool("FuncName"),
        make_tool("Func_Name-123"),
    ];
    assert!(validate_tools(Some(&tools)).is_none());
}

#[test]
fn test_validate_tools_invalid_names() {
    for name in ["<func_name>", "func name", "func@name", "func,name", ""] {
        let tools = vec![tool(name, r#"{"type": "object", "properties": {}}"#)];
        assert!(validate_tools(Some(&tools)).is_some(), "expected error for name: {name:?}");
    }
}

fn thinking(payload: &str) -> NvCreateChatCompletionRequest {
    let mut request = request("Hello");
    request.thinking = Some(parse(payload));
    request
}

#[test]
fn test_openai_thinking_payload_normalizes_to_template_args() {
    let mut request = thinking(r#"{"type": "enabled"}"#);
    request.inner.reasoning_effort = Some(ReasoningEffort::Max);
    request.normalize_reasoning_template_args().expect("thinking payload should normalize");
    let args = request.chat_template_args.as_ref().unwrap();
    assert_args(args, "thinking", "true");
    assert_args(args, "thinking_mode", r#""enabled""#);
    assert_args(args, "reasoning_effort", r#""max""#);
}

#[test]
fn test_openai_thinking_adaptive_normalizes_to_template_mode() {
    let mut request = thinking(r#"{"type": "adaptive"}"#);
    request.normalize_reasoning_template_args().expect("adaptive thinking should normalize");
    let args = request.chat_template_args.as_ref().unwrap();
    assert_args(args, "thinking_mode", r#""adaptive""#);
    assert!(args.get("thinking").is_none());
    assert!(request.thinking.is_none());
}

#[test]
fn test_openai_thinking_disabled_normalizes_to_template_mode() {
    let mut request = thinking(r#"{"type": "disabled"}"#);
    request.normalize_reasoning_template_args().expect("disabled thinking should normalize");
    let args = request.chat_template_args.as_ref().unwrap();
    assert_args(args, "thinking", "false");
    assert_args(args, "thinking_mode", r#""disabled""#);
}

#[test]
fn test_openai_thinking_top_level_overrides_stale_template_args() {
    let mut request = thinking(r#"{"type": "disabled"}"#);
    request.chat_template_args = Some(map(
        r#"{"thinking": true, "thinking_mode": "thinking", "reasoning_effort": "high"}"#,
    ));
    request.inner.reasoning_effort = Some(ReasoningEffort::NoEffort);
    request.normalize_reasoning_template_args().expect("top-level thinking should normalize");
    let args = request.chat_template_args.as_ref().unwrap();
    assert_args(args, "thinking", "false");
    assert_args(args, "thinking_mode", r#""disabled""#);
    assert_args(args, "reasoning_effort", r#""none""#);
    assert!(request.thinking.is_none());
}

#[test]
fn test_invalid_openai_thinking_payload_is_rejected() {
    for invalid in [r#""enabled""#, r#"{"type": "auto"}"#, r#"{"type": true}"#, "{}"] {
        assert!(thinking(invalid).normalize_reasoning_template_args().is_err());
    }
}

#[test]
fn normalizing_twice_changes_nothing() {
    let mut once = thinking(r#"{"type": "enabled"}"#);
    once.inner.reasoning_effort = Some(ReasoningEffort::Low);
    once.normalize_reasoning_template_args().unwrap();
    once.normalize_reasoning_controls();
    let mut twice = thinking(r#"{"type": "enabled"}"#);
    twice.inner.reasoning_effort = Some(ReasoningEffort::Low);
    twice.normalize_reasoning_template_args().unwrap();
    twice.normalize_reasoning_controls();
    twice.normalize_reasoning_controls();
    let text = |request: NvCreateChatCompletionRequest| {
        Json::Object(request.chat_template_args.unwrap().fields).to_text()
    };
    assert_eq!(text(once), text(twice));
}

#[test]
fn efforts_have_names() {
    for (effort, name) in [
        (ReasoningEffort::NoEffort, "none"),
        (ReasoningEffort::Minimal, "minimal"),
        (ReasoningEffort::Low, "low"),
        (ReasoningEffort::Medium, "medium"),
        (ReasoningEffort::High, "high"),
        (ReasoningEffort::Xhigh, "xhigh"),
        (ReasoningEffort::Max, "max"),
    ] {
        assert_eq!(effort.name(), name);
        assert_eq!(ReasoningEffort::named(name), Some(effort));
    }
    assert_eq!(ReasoningEffort::named("other"), None);
    assert_eq!(
        openai_thinking_mode(&parse(r#"{"type":"adaptive"}"#)),
        Ok(OpenAiThinkingMode::Adaptive)
    );
    assert!(openai_thinking_mode(&Json::Null).is_err());
}

#[test]
fn an_error_of_any_check_is_returned() {
    let request = request("Hello");
    assert!(check(&request).is_ok());
    let mut checks = RequestChecks::default();
    checks.top_p = Some("top_p is out of range".to_string());
    assert_eq!(request.validate(&checks), Err("top_p is out of range".to_string()));
    checks.model = Some("no model".to_string());
    assert_eq!(request.validate(&checks), Err("no model".to_string()));
}

#[test]
fn arguments_and_token_ids_are_checked() {
    assert!(accepts_arguments("  ", &None));
    assert!(!accepts_arguments("{", &None));
    assert!(accepts_arguments("{}", &Some(Json::empty_object())));
    assert!(!accepts_arguments("[]", &Some(parse("[]"))));
    assert_eq!(validate_stop_token_ids(&map(r#"{"stop_token_ids": [1, 2]}"#)), None);
    assert!(validate_stop_token_ids(&map(r#"{"stop_token_ids": [1, -2]}"#)).is_some());
    assert_eq!(validate_stop_token_ids(&JsonMap::new()), None);
}

#[test]
fn response_formats_guide_decoding() {
    let mut request = request("Answer as JSON");
    assert!(request.get_guided_json("", SHORT).is_none());
    assert!(!request.uses_constrained_decoding());
    request.inner.response_format = Some(ResponseFormat::JsonObject);
    assert_eq!(
        request.get_guided_json("", SHORT).unwrap().origin,
        SchemaOrigin::AnyObject
    );
    assert!(request.uses_pure_json_structured_output());
    request.inner.response_format =
        Some(ResponseFormat::JsonSchema { schema: Some(parse(r#"{"type":"integer"}"#)) });
    assert_json(
        &request.get_guided_json("", SHORT).unwrap().schema,
        r#"{"type":"integer"}"#,
    );
    assert!(request.uses_constrained_decoding());
    request.inner.response_format = Some(ResponseFormat::Text);
    assert!(request.get_guided_json("", SHORT).is_none());
}

#[test]
fn getters_give_back_what_was_asked() {
    let mut request = request("Hello");
    request.inner.max_tokens = Some(7);
    assert_eq!(request.get_max_tokens(), Some(7));
    request.inner.max_completion_tokens = Some(9);
    assert_eq!(request.get_max_tokens(), Some(9));
    request.inner.temperature = Some(0.5f32.to_bits());
    assert_eq!(request.get_temperature().map(f32::from_bits), Some(0.5));
    request.inner.seed = Some(-3);
    assert_eq!(request.get_seed(), Some(-3));
    request.common.ignore_eos = Some(true);
    assert_eq!(request.get_common_ignore_eos(), Some(true));
    request.common.min_tokens = Some(2);
    assert_eq!(request.get_min_tokens(), Some(2));
    assert_eq!(request.get_best_of(), None);
    request.nvext = Some(NvExt {
        annotations: Some(vec!["formatted_prompt".to_string()]),
        max_thinking_tokens: Some(5),
        extra_fields: None,
    });
    assert!(request.has_annotation("formatted_prompt"));
    assert!(!request.has_annotation("token_ids"));
    assert_eq!(request.annotations(), Some(vec!["formatted_prompt".to_string()]));
    assert_eq!(request.get_max_thinking_tokens(None), Some(5));
    assert!(request.nvext().is_some());
    assert!(request.common_ext().is_some());
    assert!(has_text(&vec!["a".to_string()], "a"));
    assert!(!has_text(&vec!["a".to_string()], "b"));
}
