use dynamo_llm::aggregator::{
    filter_tool_calls_by_name, finalize_merged_tool_chunk, merge_response_nvext,
    merge_tool_call_chunk, try_jsonish_tool_call_parse_aggregate_finalize, DeltaAggregator,
    DeltaChoice, ParsingOptions,
};
use dynamo_llm::chat_types::{
    Annotated, CalledFunction, ChatChoiceLogprobs, ChatChoiceStream,
    ChatCompletionMessageContent, ChatCompletionMessageToolCallChunk,
    ChatCompletionStreamResponseDelta, CompletionUsage, CreateChatCompletionStreamResponse,
    FinishReason, FunctionCallStream, FunctionType, NvCreateChatCompletionResponse,
    NvCreateChatCompletionStreamResponse, ParsedToolCalls, Role, ToolCallResponse,
};
use dynamo_llm::json::{json_equal, Json};
use dynamo_llm::parser_facts::{ParserFacts, ParserQuery, TextFact};

fn between<'a>(text: &'a str, open: &str, close: &str) -> Vec<&'a str> {
    let mut found = Vec::new();
    let mut rest = text;
    while let Some(start) = rest.find(open) {
        let inner = &rest[start + open.len()..];
        match inner.find(close) {
            Some(end) => {
                found.push(&inner[..end]);
                rest = &inner[end + close.len()..];
            }
            None => break,
        }
    }
    found
}

fn json_call(text: &str) -> Option<ToolCallResponse> {
    let value = Json::parse(text)?;
    Some(ToolCallResponse {
        id: "call-1".to_string(),
        tp: FunctionType::Function,
        function: CalledFunction {
            name: value.get("name")?.as_str()?.to_string(),
            arguments: value.get("arguments")?.to_text(),
        },
    })
}

fn found(calls: Vec<ToolCallResponse>, normal_text: &str) -> Option<ParsedToolCalls> {
    Some(ParsedToolCalls { calls, normal_text: Some(normal_text.to_string()) })
}

// Answers what the parsers of the usual formats would.
fn answer(facts: &mut ParserFacts, query: ParserQuery) {
    match query {
        ParserQuery::ToolCalls { text, finalize } => {
            let blocks = between(&text, "<tool_call>", "</tool_call>");
            let calls: Vec<ToolCallResponse> =
                blocks.iter().filter_map(|block| json_call(block)).collect();
            let before = text.split("<tool_call>").next().unwrap_or("").trim();
            let answer = Some(ParsedToolCalls { calls, normal_text: Some(before.to_string()) });
            let list = if finalize { &mut facts.final_tool_calls } else { &mut facts.tool_calls };
            list.push(TextFact { text, answer });
        }
        ParserQuery::TaggedJson { text, recover } => {
            let blocks = between(&text, "<tools>", "</tools>");
            let answer = found(blocks.iter().filter_map(|block| json_call(block)).collect(), "");
            let list =
                if recover { &mut facts.recovered_tagged_json } else { &mut facts.tagged_json };
            list.push(TextFact { text, answer });
        }
        ParserQuery::BareJson { text, recover } => {
            let answer = found(json_call(&text).into_iter().collect(), "");
            let list = if recover { &mut facts.recovered_bare_json } else { &mut facts.bare_json };
            list.push(TextFact { text, answer });
        }
        ParserQuery::Repair { text } => facts.repairs.push(TextFact { text, answer: None }),
        other => panic!("unexpected question: {other:?}"),
    }
}

fn plain() -> ParsingOptions {
    ParsingOptions {
        tool_call_parser: None,
        parse_bare_json_tool_calls: false,
        tool_names: None,
    }
}

fn parsing(parser: &str) -> ParsingOptions {
    ParsingOptions { tool_call_parser: Some(parser.to_string()), ..plain() }
}

fn apply(
    deltas: Vec<Annotated>,
    options: ParsingOptions,
) -> Result<NvCreateChatCompletionResponse, String> {
    let mut aggregator = DeltaAggregator::new();
    for delta in &deltas {
        aggregator.observe(delta);
    }
    let mut facts = ParserFacts::new();
    loop {
        match aggregator.finalize(&options, &facts) {
            Ok(result) => return result,
            Err(query) => answer(&mut facts, query),
        }
    }
}

fn choice_of(
    index: u32,
    content: Option<&str>,
    role: Option<Role>,
    finish_reason: Option<FinishReason>,
    tool_calls: Option<Vec<ChatCompletionMessageToolCallChunk>>,
) -> ChatChoiceStream {
    ChatChoiceStream {
        index,
        delta: ChatCompletionStreamResponseDelta {
            role,
            content: content.map(|text| ChatCompletionMessageContent::Text(text.to_string())),
            tool_calls,
            function_call: None,
            refusal: None,
            reasoning_content: None,
        },
        finish_reason,
        logprobs: None,
    }
}

fn delta_of(choices: Vec<ChatChoiceStream>) -> Annotated {
    Annotated {
        data: Some(NvCreateChatCompletionStreamResponse {
            inner: CreateChatCompletionStreamResponse {
                id: "test_id".to_string(),
                object: "chat.completion".to_string(),
                created: 1234567890,
                model: "meta/llama-3.1-8b-instruct".to_string(),
                choices,
                usage: None,
                service_tier: None,
                system_fingerprint: None,
            },
            nvext: None,
        }),
        id: Some("test_id".to_string()),
        event: None,
        comment: None,
        error: None,
    }
}

// A delta with text and, where one is given, a tool call.
fn create_test_delta(
    index: u32,
    text: &str,
    role: Option<Role>,
    finish_reason: Option<FinishReason>,
    logprob: Option<f32>,
    tool_call: Option<&str>,
) -> Annotated {
    let chunks = tool_call.map(|text| {
        let call = Json::parse(text).unwrap();
        vec![ChatCompletionMessageToolCallChunk {
            index: 0,
            id: Some("test_id".to_string()),
            tool_type: Some(FunctionType::Function),
            function: Some(FunctionCallStream {
                name: call.get("name").and_then(|n| n.as_str()).map(|n| n.to_string()),
                arguments: call.get("arguments").map(|a| a.to_text()),
            }),
        }]
    });
    let mut choice = choice_of(index, Some(text), role, finish_reason, chunks);
    choice.logprobs = logprob.map(|lp| ChatChoiceLogprobs {
        content: Some(vec![u64::from(lp.to_bits())]),
        refusal: None,
    });
    delta_of(vec![choice])
}

fn create_test_delta_with_tool_chunks(
    index: u32,
    tool_chunks: Vec<ChatCompletionMessageToolCallChunk>,
    finish_reason: Option<FinishReason>,
    role: Option<Role>,
) -> Annotated {
    delta_of(vec![choice_of(index, None, role, finish_reason, Some(tool_chunks))])
}

fn make_name(index: u32, id: &str, name: &str) -> ChatCompletionMessageToolCallChunk {
    ChatCompletionMessageToolCallChunk {
        index,
        id: Some(id.to_string()),
        tool_type: Some(FunctionType::Function),
        function: Some(FunctionCallStream { name: Some(name.to_string()), arguments: None }),
    }
}

fn make_args(index: u32, fragment: &str) -> ChatCompletionMessageToolCallChunk {
    ChatCompletionMessageToolCallChunk {
        index,
        id: None,
        tool_type: None,
        function: Some(FunctionCallStream {
            name: None,
            arguments: Some(fragment.to_string()),
        }),
    }
}

fn text(content: &str) -> Option<ChatCompletionMessageContent> {
    Some(ChatCompletionMessageContent::Text(content.to_string()))
}

#[test]
fn test_issue_8640_split_tool_call_arguments_reconstructed() {
    let response = apply(
        vec![
            create_test_delta_with_tool_chunks(
                0,
                vec![make_name(0, "tc1", "get_weather")],
                None,
                Some(Role::Assistant),
            ),
            create_test_delta_with_tool_chunks(0, vec![make_args(0, "{\"city\":")], None, None),
            create_test_delta_with_tool_chunks(
                0,
                vec![make_args(0, "\"Tokyo\"}")],
                Some(FinishReason::ToolCalls),
                None,
            ),
        ],
        plain(),
    )
    .expect("aggregation should not error");
    assert_eq!(response.inner.choices.len(), 1);
    let tool_calls = response.inner.choices[0].message.tool_calls.as_ref().unwrap();
    assert_eq!(tool_calls.len(), 1);
    assert_eq!(tool_calls[0].id, "tc1");
    assert_eq!(tool_calls[0].function.name, "get_weather");
    assert_eq!(tool_calls[0].function.arguments, "{\"city\":\"Tokyo\"}");
}

#[test]
fn test_parallel_tool_calls_interleaved_chunks_aggregate_independently() {
    let one = |chunk, finish| create_test_delta_with_tool_chunks(0, vec![chunk], finish, None);
    let response = apply(
        vec![
            create_test_delta_with_tool_chunks(
                0,
                vec![make_name(0, "tc0", "get_weather")],
                None,
                Some(Role::Assistant),
            ),
            one(make_name(1, "tc1", "get_time"), None),
            one(make_args(0, "{\"city\":"), None),
            one(make_args(1, "{\"tz\":"), None),
            one(make_args(0, "\"Tokyo\"}"), None),
            one(make_args(1, "\"JST\"}"), Some(FinishReason::ToolCalls)),
        ],
        plain(),
    )
    .expect("aggregation should succeed");
    assert_eq!(response.inner.choices.len(), 1);
    let tool_calls = response.inner.choices[0].message.tool_calls.as_ref().unwrap();
    assert_eq!(tool_calls.len(), 2, "must produce both parallel tool calls");
    assert_eq!(tool_calls[0].id, "tc0");
    assert_eq!(tool_calls[0].function.name, "get_weather");
    assert_eq!(tool_calls[0].function.arguments, "{\"city\":\"Tokyo\"}");
    assert_eq!(tool_calls[1].id, "tc1");
    assert_eq!(tool_calls[1].function.name, "get_time");
    assert_eq!(tool_calls[1].function.arguments, "{\"tz\":\"JST\"}");
}

#[test]
fn test_fragment_only_chunks_without_opener_drop_cleanly() {
    let response = apply(
        vec![create_test_delta_with_tool_chunks(
            0,
            vec![make_args(0, "{\"orphaned\":true}")],
            Some(FinishReason::Stop),
            Some(Role::Assistant),
        )],
        plain(),
    )
    .expect("aggregation should succeed even with dropped chunk");
    assert!(response.inner.choices[0].message.tool_calls.is_none());
}

#[test]
fn test_empty_stream() {
    let response = apply(vec![], plain()).unwrap();
    assert_eq!(response.inner.id, "");
    assert_eq!(response.inner.model, "");
    assert_eq!(response.inner.created, 0);
    assert!(response.inner.usage.is_none());
    assert!(response.inner.system_fingerprint.is_none());
    assert_eq!(response.inner.choices.len(), 0);
    assert!(response.inner.service_tier.is_none());
}

#[test]
fn test_single_delta() {
    let response =
        apply(vec![create_test_delta(0, "Hello,", Some(Role::User), None, None, None)], plain())
            .unwrap();
    assert_eq!(response.inner.id, "test_id");
    assert_eq!(response.inner.model, "meta/llama-3.1-8b-instruct");
    assert_eq!(response.inner.created, 1234567890);
    assert!(response.inner.usage.is_none());
    assert!(response.inner.system_fingerprint.is_none());
    assert_eq!(response.inner.choices.len(), 1);
    let choice = &response.inner.choices[0];
    assert_eq!(choice.index, 0);
    assert_eq!(choice.message.content, text("Hello,"));
    assert!(choice.finish_reason.is_none());
    assert_eq!(choice.message.role, Role::User);
    assert!(response.inner.service_tier.is_none());
}

#[test]
fn test_multiple_deltas_same_choice() {
    let response = apply(
        vec![
            create_test_delta(0, "Hello,", Some(Role::User), None, Some(-0.1), None),
            create_test_delta(0, " world!", None, Some(FinishReason::Stop), Some(-0.2), None),
        ],
        plain(),
    )
    .unwrap();
    assert_eq!(response.inner.choices.len(), 1);
    let choice = &response.inner.choices[0];
    assert_eq!(choice.index, 0);
    assert_eq!(choice.message.content, text("Hello, world!"));
    assert_eq!(choice.finish_reason, Some(FinishReason::Stop));
    assert_eq!(choice.message.role, Role::User);
    let content = choice.logprobs.as_ref().unwrap().content.as_ref().unwrap();
    assert_eq!(content.len(), 2);
    assert_eq!(f32::from_bits(content[0] as u32), -0.1);
    assert_eq!(f32::from_bits(content[1] as u32), -0.2);
}

#[test]
fn test_preserves_intermediate_whitespace_chunks() {
    let response = apply(
        vec![
            create_test_delta(0, "Hello", Some(Role::User), None, None, None),
            create_test_delta(0, " ", None, None, None, None),
            create_test_delta(0, "world", None, Some(FinishReason::Stop), None, None),
        ],
        plain(),
    )
    .unwrap();
    assert_eq!(response.inner.choices.len(), 1);
    let choice = &response.inner.choices[0];
    assert_eq!(choice.index, 0);
    assert_eq!(choice.message.content, text("Hello world"));
    assert_eq!(choice.finish_reason, Some(FinishReason::Stop));
    assert_eq!(choice.message.role, Role::User);
}

#[test]
fn test_multiple_deltas_merge_nvext_fields() {
    let mut first = create_test_delta(0, "Hello", Some(Role::Assistant), None, None, None);
    first.data.as_mut().unwrap().nvext =
        Json::parse(r#"{"engine_data": {"trace_id": "abc"}}"#);
    let mut second = create_test_delta(0, " world", None, Some(FinishReason::Stop), None, None);
    second.data.as_mut().unwrap().nvext = Json::parse(r#"{"stop_reason": 128001}"#);
    let response = apply(vec![first, second], plain()).expect("aggregate stream");
    let expected =
        Json::parse(r#"{"engine_data": {"trace_id": "abc"}, "stop_reason": 128001}"#).unwrap();
    assert!(json_equal(&response.nvext.unwrap(), &expected));
}

#[test]
fn test_multiple_choices() {
    let stop = Some(FinishReason::Stop);
    let response = apply(
        vec![delta_of(vec![
            choice_of(0, Some("Choice 0"), Some(Role::Assistant), stop, None),
            choice_of(1, Some("Choice 1"), Some(Role::Assistant), stop, None),
        ])],
        plain(),
    )
    .unwrap();
    assert_eq!(response.inner.choices.len(), 2);
    for (i, content) in [(0usize, "Choice 0"), (1, "Choice 1")] {
        let choice = &response.inner.choices[i];
        assert_eq!(choice.index, i as u32);
        assert_eq!(choice.message.content, text(content));
        assert_eq!(choice.finish_reason, stop);
        assert_eq!(choice.message.role, Role::Assistant);
    }
}

fn with_tool_call(
    content: &str,
    finish_reason: Option<FinishReason>,
    call: &str,
) -> NvCreateChatCompletionResponse {
    let delta =
        create_test_delta(0, content, Some(Role::Assistant), finish_reason, None, Some(call));
    apply(vec![delta], plain()).unwrap()
}

fn assert_ends_with_one_call(response: &NvCreateChatCompletionResponse) {
    assert_eq!(response.inner.choices.len(), 1);
    let choice = &response.inner.choices[0];
    let tool_calls = choice.message.tool_calls.as_ref().unwrap();
    assert_eq!(tool_calls.len(), 1);
    assert_eq!(tool_calls[0].tool_type, FunctionType::Function);
    assert_eq!(choice.finish_reason, Some(FinishReason::ToolCalls));
}

#[test]
fn test_tool_calling_finish_reason_override_from_stop() {
    assert_ends_with_one_call(&with_tool_call(
        "I'll check the weather for you.",
        Some(FinishReason::Stop),
        r#"{"name": "get_weather", "arguments": {"location": "New York", "unit": "celsius"}}"#,
    ));
}

#[test]
fn test_tool_calling_finish_reason_override_from_length() {
    assert_ends_with_one_call(&with_tool_call(
        "Let me search for that.",
        Some(FinishReason::Length),
        r#"{"name": "search", "arguments": {"query": "rust programming"}}"#,
    ));
}

#[test]
fn test_tool_calling_finish_reason_override_from_none() {
    assert_ends_with_one_call(&with_tool_call(
        "I'll calculate that for you.",
        None,
        r#"{"name": "calculate", "arguments": {"expression": "2+2"}}"#,
    ));
}

#[test]
fn test_no_tool_calling_preserves_original_finish_reason() {
    let delta = create_test_delta(
        0,
        "This is a regular response without tool calls.",
        Some(Role::Assistant),
        Some(FinishReason::Stop),
        None,
        None,
    );
    let response = apply(vec![delta], plain()).unwrap();
    assert_eq!(response.inner.choices.len(), 1);
    let choice = &response.inner.choices[0];
    assert!(choice.message.tool_calls.is_none());
    assert_eq!(choice.finish_reason, Some(FinishReason::Stop));
}

#[test]
fn test_empty_tool_calls_preserves_original_finish_reason() {
    let response = apply(
        vec![delta_of(vec![choice_of(
            0,
            Some("Response with empty tool calls array."),
            Some(Role::Assistant),
            Some(FinishReason::Length),
            Some(vec![]),
        )])],
        plain(),
    )
    .unwrap();
    assert_eq!(response.inner.choices.len(), 1);
    let choice = &response.inner.choices[0];
    assert!(choice.message.tool_calls.is_none());
    assert_eq!(choice.finish_reason, Some(FinishReason::Length));
}

#[test]
fn test_tool_calling_output() {
    let content = "Hey Dude ! What's the weather in San Francisco in Fahrenheit?";
    let response = with_tool_call(
        content,
        Some(FinishReason::ToolCalls),
        r#"{"name": "get_weather", "arguments": {"location": "San Francisco, CA", "unit": "fahrenheit"}}"#,
    );
    assert_ends_with_one_call(&response);
    let choice = &response.inner.choices[0];
    let tool_call = &choice.message.tool_calls.as_ref().unwrap()[0];
    assert_eq!(tool_call.function.name, "get_weather");
    let args = Json::parse(&tool_call.function.arguments).unwrap();
    assert_eq!(args.get("location").and_then(|v| v.as_str()), Some("San Francisco, CA"));
    assert_eq!(args.get("unit").and_then(|v| v.as_str()), Some("fahrenheit"));
    assert_eq!(choice.message.content, text(content));
    assert_eq!(choice.message.role, Role::Assistant);
}

#[test]
fn test_tool_calling_finish_reason_override_from_stop_alternative() {
    let response = with_tool_call(
        "Getting weather for New York",
        Some(FinishReason::Stop),
        r#"{"name": "get_weather", "arguments": {"location": "New York", "unit": "celsius"}}"#,
    );
    assert_ends_with_one_call(&response);
    let tool_calls = response.inner.choices[0].message.tool_calls.as_ref().unwrap();
    assert_eq!(tool_calls[0].function.name, "get_weather");
}

fn stopped(content: &str, options: ParsingOptions) -> NvCreateChatCompletionResponse {
    let delta = create_test_delta(
        0,
        content,
        Some(Role::Assistant),
        Some(FinishReason::Stop),
        None,
        None,
    );
    apply(vec![delta], options).unwrap()
}

#[test]
fn test_parses_aggregated_tool_call_text_into_tool_calls() {
    let response = stopped(
        "<tool_call>\n{\"name\":\"get_weather\",\"arguments\":{\"location\":\"SF\"}}\n</tool_call>",
        parsing("hermes"),
    );
    assert_ends_with_one_call(&response);
    let choice = &response.inner.choices[0];
    assert_eq!(choice.message.content, None);
    let tool_calls = choice.message.tool_calls.as_ref().unwrap();
    assert_eq!(tool_calls[0].function.name, "get_weather");
    assert_eq!(tool_calls[0].function.arguments, "{\"location\":\"SF\"}");
}

#[test]
fn test_preserves_non_tool_content_when_parsing_aggregated_tool_calls() {
    let response = stopped(
        "hello\n<tool_call>\n{\"name\":\"get_weather\",\"arguments\":{\"location\":\"SF\"}}\n</tool_call>",
        parsing("hermes"),
    );
    assert_ends_with_one_call(&response);
    assert_eq!(response.inner.choices[0].message.content, text("hello"));
}

fn gated(names: &[&str]) -> ParsingOptions {
    ParsingOptions {
        tool_call_parser: Some("qwen3_coder".to_string()),
        parse_bare_json_tool_calls: true,
        tool_names: Some(names.iter().map(|name| name.to_string()).collect()),
    }
}

const BARE: &str = "{\"name\":\"get_weather\",\"arguments\":{\"location\":\"Boston, MA\",\"unit\":\"celsius\"}}";

#[test]
fn test_parses_gated_bare_json_tool_call_text_into_tool_calls() {
    let response = stopped(BARE, gated(&["get_weather"]));
    assert_ends_with_one_call(&response);
    let choice = &response.inner.choices[0];
    assert_eq!(choice.message.content, None);
    let tool_calls = choice.message.tool_calls.as_ref().unwrap();
    assert_eq!(tool_calls[0].function.name, "get_weather");
    assert!(json_equal(
        &Json::parse(&tool_calls[0].function.arguments).unwrap(),
        &Json::parse(r#"{"location": "Boston, MA", "unit": "celsius"}"#).unwrap()
    ));
}

#[test]
fn test_parses_gated_tools_json_blocks_into_tool_calls() {
    let response = stopped(
        "\n<tools>\n{\"name\":\"get_weather\",\"arguments\":{\"location\":\"Boston, MA\",\"unit\":\"celsius\"}}\n</tools>\n<tools>\n{\"name\":\"calculate\",\"arguments\":{\"expression\":\"128*47\"}}\n</tools>",
        gated(&["get_weather", "calculate"]),
    );
    let choice = &response.inner.choices[0];
    assert_eq!(choice.finish_reason, Some(FinishReason::ToolCalls));
    assert_eq!(choice.message.content, None);
    let tool_calls = choice.message.tool_calls.as_ref().unwrap();
    assert_eq!(tool_calls.len(), 2);
    assert_eq!(tool_calls[0].function.name, "get_weather");
    assert_eq!(tool_calls[1].function.name, "calculate");
}

#[test]
fn test_bare_json_tool_call_text_preserved_without_gate() {
    let response = stopped(BARE, parsing("qwen3_coder"));
    let choice = &response.inner.choices[0];
    assert_eq!(choice.finish_reason, Some(FinishReason::Stop));
    assert!(choice.message.tool_calls.is_none());
    assert_eq!(choice.message.content, text(BARE));
}

fn delta_choice() -> DeltaChoice {
    DeltaChoice {
        index: 0,
        text: String::new(),
        role: Some(Role::Assistant),
        finish_reason: Some(FinishReason::Stop),
        logprobs: None,
        tool_call_chunks: vec![],
        tool_calls: None,
        reasoning_content: None,
        content_parts: vec![],
    }
}

#[test]
fn test_reasoning_only_response_serializes_content_key_as_null() {
    let mut delta = delta_choice();
    delta.reasoning_content = Some("Analyzing the question.".to_string());
    let choice = delta.into_chat_choice();
    assert!(choice.message.content.is_none());
    assert_eq!(choice.message.reasoning_content.as_deref(), Some("Analyzing the question."));
}

#[test]
fn an_error_ends_the_aggregation() {
    let mut failed = delta_of(vec![]);
    failed.data = None;
    failed.event = Some("error".to_string());
    failed.error = Some("engine failed".to_string());
    let later = create_test_delta(0, "late", Some(Role::Assistant), None, None, None);
    let err = apply(vec![failed, later], plain()).unwrap_err();
    assert!(err.contains("engine failed"), "{err}");
}

#[test]
fn the_last_usage_counts() {
    let usage = |completion_tokens| CompletionUsage {
        prompt_tokens: 1,
        completion_tokens,
        total_tokens: 1 + completion_tokens,
        cached_tokens: None,
        reasoning_tokens: None,
    };
    let mut first = delta_of(vec![]);
    first.data.as_mut().unwrap().inner.usage = Some(usage(2));
    let mut second = delta_of(vec![]);
    second.data.as_mut().unwrap().inner.usage = Some(usage(3));
    let response = apply(vec![first, second], plain()).unwrap();
    assert_eq!(response.inner.usage.unwrap().completion_tokens, 3);
}

#[test]
fn choices_come_in_order() {
    let response = apply(
        vec![
            create_test_delta(2, "c", Some(Role::Assistant), None, None, None),
            create_test_delta(0, "a", Some(Role::Assistant), None, None, None),
            create_test_delta(1, "b", Some(Role::Assistant), None, None, None),
        ],
        plain(),
    )
    .unwrap();
    let indices: Vec<u32> = response.inner.choices.iter().map(|choice| choice.index).collect();
    assert_eq!(indices, vec![0, 1, 2]);
}

#[test]
fn chunks_are_merged_field_by_field() {
    let merged = merge_tool_call_chunk(make_name(0, "tc", "f"), &make_args(0, "{}"));
    let merged = merge_tool_call_chunk(merged, &make_args(0, "!"));
    let function = merged.function.as_ref().unwrap();
    assert_eq!(function.name.as_deref(), Some("f"));
    assert_eq!(function.arguments.as_deref(), Some("{}!"));
    assert_eq!(merged.id.as_deref(), Some("tc"));
    let call = finalize_merged_tool_chunk(&merged).unwrap();
    assert_eq!(call.function.arguments, "{}!");
    assert!(finalize_merged_tool_chunk(&make_args(0, "{}")).is_none());
}

#[test]
fn later_extension_fields_win() {
    let merge = |a: &str, b: &str| {
        merge_response_nvext(Json::parse(a), &Json::parse(b)).unwrap().to_text()
    };
    assert_eq!(merge(r#"{"a":1,"b":2}"#, r#"{"b":3}"#), r#"{"a":1,"b":3}"#);
    assert_eq!(merge_response_nvext(None, &None), None);
    assert_eq!(merge_response_nvext(Json::parse("1"), &None), Json::parse("1"));
}

#[test]
fn only_known_tools_are_called() {
    let call = json_call(BARE).unwrap();
    let known = vec!["get_weather".to_string()];
    let calls = vec![call];
    assert_eq!(filter_tool_calls_by_name(&calls, &known).len(), 1);
    assert_eq!(filter_tool_calls_by_name(&calls, &vec![]).len(), 0);
    let mut facts = ParserFacts::new();
    let found = loop {
        match try_jsonish_tool_call_parse_aggregate_finalize(BARE, &known, &facts) {
            Ok(found) => break found,
            Err(query) => answer(&mut facts, query),
        }
    };
    assert_eq!(found.unwrap().calls.len(), 1);
}

#[test]
fn reasoning_stands_in_for_missing_content() {
    let mut choice = delta_choice();
    assert!(!choice.has_reasoning_content());
    choice.reasoning_content = Some("thought".to_string());
    assert!(choice.has_reasoning_content());
    assert!(!choice.has_tool_calls());
    assert!(!choice.has_tool_calls_or_chunks());
    choice.tool_call_chunks = vec![make_name(0, "a", "f")];
    assert!(choice.has_tool_calls_or_chunks());
}
