use dynamo_llm::anthropic_json::{read_system_prompt, InvalidContent};
use dynamo_llm::anthropic_response::{
    anthropic_response_with_id, chat_completion_to_anthropic_response, tool_use_block,
};
use dynamo_llm::anthropic_types::{
    AnthropicContentBlock, AnthropicCountTokensRequest, AnthropicCreateMessageRequest,
    AnthropicErrorResponse, AnthropicImageSource, AnthropicMessage, AnthropicMessageContent,
    AnthropicResponseContentBlock, AnthropicRole, AnthropicStopReason, AnthropicTool,
    AnthropicToolChoice, AnthropicToolChoiceMode, AnthropicToolChoiceNamed,
    AnthropicToolChoiceSimple, ToolResultContent, ToolResultContentBlock,
};
use dynamo_llm::chat_types::{
    ChatChoice, ChatCompletionMessageContent, ChatCompletionMessageToolCall,
    ChatCompletionResponseMessage, CompletionUsage, CreateChatCompletionResponse, FinishReason,
    FunctionCall, FunctionType, NvCreateChatCompletionResponse, Role,
};
use dynamo_llm::json::{json_equal, Json};
use dynamo_llm::request_types::{
    ChatCompletionRequestAssistantMessage, ChatCompletionRequestMessage,
    ChatCompletionToolChoiceOption, NvCreateChatCompletionRequest, ReasoningContent, Stop,
};

fn text_message(role: AnthropicRole, text: &str) -> AnthropicMessage {
    AnthropicMessage { role, content: AnthropicMessageContent::Text { content: text.to_string() } }
}

fn block_message(role: AnthropicRole, content: Vec<AnthropicContentBlock>) -> AnthropicMessage {
    AnthropicMessage { role, content: AnthropicMessageContent::Blocks { content } }
}

fn request(messages: Vec<AnthropicMessage>) -> AnthropicCreateMessageRequest {
    AnthropicCreateMessageRequest {
        model: "test-model".to_string(),
        max_tokens: 100,
        messages,
        system: None,
        temperature: None,
        top_p: None,
        top_k: None,
        stop_sequences: None,
        stream: false,
        metadata: None,
        tools: None,
        tool_choice: None,
    }
}

fn converted(req: AnthropicCreateMessageRequest) -> NvCreateChatCompletionRequest {
    NvCreateChatCompletionRequest::try_from(req).unwrap()
}

fn content(text: &str) -> AnthropicMessageContent {
    AnthropicMessageContent::from_json(&Json::parse(text).unwrap()).unwrap()
}

fn blocks(text: &str) -> Vec<AnthropicContentBlock> {
    match content(text) {
        AnthropicMessageContent::Blocks { content } => content,
        AnthropicMessageContent::Text { .. } => panic!("expected blocks content"),
    }
}

fn choice(
    message: Option<&str>,
    tool_calls: Option<Vec<ChatCompletionMessageToolCall>>,
    finish_reason: Option<FinishReason>,
) -> ChatChoice {
    ChatChoice {
        index: 0,
        message: ChatCompletionResponseMessage {
            role: Role::Assistant,
            content: message.map(|text| ChatCompletionMessageContent::Text(text.to_string())),
            tool_calls,
            refusal: None,
            function_call: None,
            audio: None,
            reasoning_content: None,
        },
        finish_reason,
        logprobs: None,
    }
}

fn response(
    choices: Vec<ChatChoice>,
    usage: Option<CompletionUsage>,
) -> NvCreateChatCompletionResponse {
    NvCreateChatCompletionResponse {
        inner: CreateChatCompletionResponse {
            id: "chatcmpl-xyz".to_string(),
            object: "chat.completion".to_string(),
            created: 1726000000,
            model: "test-model".to_string(),
            choices,
            usage,
            service_tier: None,
            system_fingerprint: None,
        },
        nvext: None,
    }
}

fn call(arguments: &str) -> ChatCompletionMessageToolCall {
    ChatCompletionMessageToolCall {
        id: "call_1".to_string(),
        tool_type: FunctionType::Function,
        function: FunctionCall { name: "fn".to_string(), arguments: arguments.to_string() },
    }
}

#[test]
fn test_simple_user_message_conversion() {
    let mut req = request(vec![text_message(AnthropicRole::User, "Hello!")]);
    req.temperature = Some(0.7f32.to_bits());

    let chat_req = converted(req);
    assert_eq!(chat_req.inner.model, "test-model");
    assert_eq!(chat_req.inner.max_completion_tokens, Some(100));
    assert_eq!(chat_req.inner.temperature.map(f32::from_bits), Some(0.7));
    assert_eq!(chat_req.inner.messages.len(), 1);
    match &chat_req.inner.messages[0] {
        ChatCompletionRequestMessage::User { content } => assert_eq!(content, "Hello!"),
        _ => panic!("expected user message"),
    }
}

#[test]
fn test_system_message_prepended() {
    let mut req = request(vec![text_message(AnthropicRole::User, "Hi")]);
    req.system = Some("You are helpful.".to_string());

    let chat_req = converted(req);
    assert_eq!(chat_req.inner.messages.len(), 2);
    assert!(matches!(
        &chat_req.inner.messages[0],
        ChatCompletionRequestMessage::System { .. }
    ));
    assert!(matches!(&chat_req.inner.messages[1], ChatCompletionRequestMessage::User { .. }));
}

#[test]
fn test_tool_use_blocks_conversion() {
    let req = request(vec![
        text_message(AnthropicRole::User, "What's the weather?"),
        block_message(
            AnthropicRole::Assistant,
            vec![AnthropicContentBlock::ToolUse {
                id: "tool_123".to_string(),
                name: "get_weather".to_string(),
                input: Json::empty_object().with("location", Json::text("SF")),
            }],
        ),
        block_message(
            AnthropicRole::User,
            vec![AnthropicContentBlock::ToolResult {
                tool_use_id: "tool_123".to_string(),
                content: Some(ToolResultContent::Text("72F and sunny".to_string())),
                is_error: None,
            }],
        ),
    ]);

    let chat_req = converted(req);
    assert_eq!(chat_req.inner.messages.len(), 3);
    assert!(matches!(&chat_req.inner.messages[0], ChatCompletionRequestMessage::User { .. }));
    match &chat_req.inner.messages[1] {
        ChatCompletionRequestMessage::Assistant(message) => {
            let calls = message.tool_calls.as_ref().unwrap();
            assert_eq!(calls[0].function.arguments, r#"{"location":"SF"}"#);
        }
        other => panic!("expected assistant message, got {other:?}"),
    }
    match &chat_req.inner.messages[2] {
        ChatCompletionRequestMessage::Tool { content, tool_call_id } => {
            assert_eq!(content, "72F and sunny");
            assert_eq!(tool_call_id, "tool_123");
        }
        other => panic!("expected tool message, got {other:?}"),
    }
}

#[test]
fn test_stop_sequences_conversion() {
    let mut req = request(vec![text_message(AnthropicRole::User, "Hi")]);
    req.stop_sequences = Some(vec!["STOP".to_string(), "END".to_string()]);

    let chat_req = converted(req);
    assert!(chat_req.inner.stop.is_some());
    assert_eq!(
        chat_req.inner.stop,
        Some(Stop::TextArray(vec!["STOP".to_string(), "END".to_string()]))
    );
}

#[test]
fn test_tools_conversion() {
    let mut req = request(vec![text_message(AnthropicRole::User, "Hi")]);
    let schema = Json::parse(
        r#"{"type":"object","properties":{"location":{"type":"string"}},"required":["location"]}"#,
    )
    .unwrap();
    req.tools = Some(vec![AnthropicTool {
        name: "get_weather".to_string(),
        description: Some("Get weather info".to_string()),
        input_schema: schema,
    }]);
    req.tool_choice = Some(AnthropicToolChoice::Simple(AnthropicToolChoiceSimple {
        choice_type: AnthropicToolChoiceMode::Auto,
    }));

    let chat_req = converted(req);
    assert!(chat_req.inner.tools.is_some());
    let tools = chat_req.inner.tools.unwrap();
    assert_eq!(tools.len(), 1);
    assert_eq!(tools[0].function.name, "get_weather");
    assert!(matches!(
        chat_req.inner.tool_choice,
        Some(ChatCompletionToolChoiceOption::Auto)
    ));
}

#[test]
fn test_chat_completion_to_anthropic_response() {
    let chat_resp = response(
        vec![choice(Some("Hello!"), None, Some(FinishReason::Stop))],
        Some(CompletionUsage {
            prompt_tokens: 10,
            completion_tokens: 5,
            total_tokens: 15,
            cached_tokens: None,
            reasoning_tokens: None,
        }),
    );

    let response = chat_completion_to_anthropic_response(chat_resp, "test-model");
    assert!(response.id.starts_with("msg_"));
    assert_eq!(response.object_type, "message");
    assert_eq!(response.role, "assistant");
    assert_eq!(response.model, "test-model");
    assert_eq!(response.stop_reason, Some(AnthropicStopReason::EndTurn));
    assert_eq!(response.usage.input_tokens, 10);
    assert_eq!(response.usage.output_tokens, 5);
    assert_eq!(response.content.len(), 1);
    match &response.content[0] {
        AnthropicResponseContentBlock::Text { text } => assert_eq!(text, "Hello!"),
        _ => panic!("expected text block"),
    }
}

#[test]
fn identifiers_are_hexadecimal_and_new() {
    let make = || chat_completion_to_anthropic_response(response(vec![], None), "m").id;
    let one = make();
    let digits = one.strip_prefix("msg_").unwrap();
    assert_eq!(digits.len(), 32);
    assert!(digits.chars().all(|c| c.is_ascii_hexdigit() && !c.is_ascii_uppercase()));
    assert_ne!(one, make());
}

#[test]
fn test_deserialize_content_blocks() {
    let content = blocks(
        r#"[
            {"type": "text", "text": "What is this?"},
            {"type": "tool_result", "tool_use_id": "tool_1", "content": "result text"}
        ]"#,
    );
    assert_eq!(content.len(), 2);
}

#[test]
fn test_deserialize_thinking_block() {
    let content = blocks(
        r#"[
            {"type": "thinking", "thinking": "Let me reason about this...", "signature": "sig123"},
            {"type": "text", "text": "Here is my answer."}
        ]"#,
    );
    assert_eq!(content.len(), 2);
    match &content[0] {
        AnthropicContentBlock::Thinking { thinking, signature } => {
            assert_eq!(thinking, "Let me reason about this...");
            assert_eq!(signature, "sig123");
        }
        other => panic!("expected Thinking, got {other:?}"),
    }
}

#[test]
fn test_thinking_block_becomes_reasoning_content() {
    let req = request(vec![block_message(
        AnthropicRole::Assistant,
        vec![
            AnthropicContentBlock::Thinking {
                thinking: "I should think...".to_string(),
                signature: "sig".to_string(),
            },
            AnthropicContentBlock::Text { text: "Answer".to_string() },
        ],
    )]);

    let chat_req = converted(req);
    match &chat_req.inner.messages[0] {
        ChatCompletionRequestMessage::Assistant(a) => {
            assert_eq!(
                a.reasoning_content,
                Some(ReasoningContent::Text("I should think...".to_string()))
            );
            match &a.content {
                Some(t) => assert_eq!(t, "Answer"),
                other => panic!("expected text content, got {other:?}"),
            }
        }
        other => panic!("expected assistant message, got {other:?}"),
    }
}

#[test]
fn test_unknown_block_type_does_not_fail() {
    let content = blocks(
        r#"[
            {"type": "text", "text": "hello"},
            {"type": "server_tool_use", "id": "stu_1", "name": "web_search", "input": {}},
            {"type": "redacted_thinking", "data": "encrypted"},
            {"type": "text", "text": "world"}
        ]"#,
    );
    assert_eq!(content.len(), 4);
    assert!(matches!(&content[0], AnthropicContentBlock::Text { .. }));
    assert!(matches!(
        &content[1],
        AnthropicContentBlock::Unknown { block_type } if block_type == "server_tool_use"
    ));
    assert!(matches!(
        &content[2],
        AnthropicContentBlock::Unknown { block_type } if block_type == "redacted_thinking"
    ));
    assert!(matches!(&content[3], AnthropicContentBlock::Text { .. }));

    // Conversion should succeed, skipping unknown blocks
    let chat_req = converted(request(vec![block_message(AnthropicRole::Assistant, content)]));
    assert_eq!(chat_req.inner.messages.len(), 1);
}

#[test]
fn test_tool_result_string_content() {
    let content =
        blocks(r#"[{"type": "tool_result", "tool_use_id": "t1", "content": "simple text"}]"#);
    match content.into_iter().next().unwrap() {
        AnthropicContentBlock::ToolResult { content, .. } => {
            assert_eq!(content.unwrap().into_text(), "simple text");
        }
        other => panic!("expected ToolResult, got {other:?}"),
    }
}

#[test]
fn test_tool_result_array_content() {
    let content = blocks(
        r#"[{"type": "tool_result", "tool_use_id": "t1", "content": [
            {"type": "text", "text": "line 1"},
            {"type": "text", "text": "line 2"}
        ]}]"#,
    );
    match content.into_iter().next().unwrap() {
        AnthropicContentBlock::ToolResult { content, .. } => {
            assert_eq!(content.unwrap().into_text(), "line 1line 2");
        }
        other => panic!("expected ToolResult, got {other:?}"),
    }
}

#[test]
fn test_count_tokens_estimate() {
    let req = AnthropicCountTokensRequest {
        model: "test".to_string(),
        messages: vec![text_message(AnthropicRole::User, "Hello, world! This is a test message.")],
        system: Some("You are helpful.".to_string()),
        tools: None,
    };

    let tokens = req.estimate_tokens();
    assert!(tokens > 0, "should estimate non-zero tokens");
    // "Hello, world! This is a test message." (37) + "You are helpful." (16) + role (4) = 57 / 3 = 19
    assert_eq!(tokens, 19);
}

#[test]
fn every_kind_of_block_counts() {
    let req = AnthropicCountTokensRequest {
        model: "test".to_string(),
        messages: vec![block_message(
            AnthropicRole::Assistant,
            vec![
                AnthropicContentBlock::Text { text: "abc".to_string() },
                AnthropicContentBlock::ToolUse {
                    id: "i".to_string(),
                    name: "fn".to_string(),
                    input: Json::empty_object(),
                },
                AnthropicContentBlock::ToolResult {
                    tool_use_id: "i".to_string(),
                    content: Some(ToolResultContent::Blocks(vec![
                        ToolResultContentBlock::Text { text: "de".to_string() },
                        ToolResultContentBlock::Other(Json::Null),
                    ])),
                    is_error: None,
                },
                AnthropicContentBlock::Thinking {
                    thinking: "ghi".to_string(),
                    signature: "long signature".to_string(),
                },
                AnthropicContentBlock::Unknown { block_type: "x".to_string() },
                AnthropicContentBlock::Image {
                    source: AnthropicImageSource {
                        source_type: "base64".to_string(),
                        media_type: "image/png".to_string(),
                        data: "AAAA".to_string(),
                    },
                },
            ],
        )],
        system: None,
        tools: None,
    };
    // 9 for the role, 3 + (2 + 2) + (2 + 4) + 3 + 0 + 256.
    assert_eq!(req.estimate_tokens(), 281 / 3);
}

#[test]
fn an_empty_request_still_counts() {
    let req = AnthropicCountTokensRequest {
        model: "test".to_string(),
        messages: vec![],
        system: Some("x".to_string()),
        tools: None,
    };
    assert_eq!(req.estimate_tokens(), 1);
}

fn make_req(blocks: Vec<AnthropicContentBlock>) -> ChatCompletionRequestAssistantMessage {
    let chat_req = converted(request(vec![block_message(AnthropicRole::Assistant, blocks)]));
    match chat_req.inner.messages.into_iter().next().unwrap() {
        ChatCompletionRequestMessage::Assistant(a) => a,
        other => panic!("expected assistant, got {other:?}"),
    }
}

fn tool_use(id: &str) -> AnthropicContentBlock {
    AnthropicContentBlock::ToolUse {
        id: id.to_string(),
        name: "fn".to_string(),
        input: Json::empty_object(),
    }
}

fn thinking(text: &str) -> AnthropicContentBlock {
    AnthropicContentBlock::Thinking { thinking: text.to_string(), signature: "sig".to_string() }
}

fn segments(msg: &ChatCompletionRequestAssistantMessage) -> &Vec<String> {
    msg.reasoning_content
        .as_ref()
        .expect("reasoning_content should be set")
        .segments()
        .expect("should be Segments variant")
}

fn flat(msg: &ChatCompletionRequestAssistantMessage) -> String {
    msg.reasoning_content.as_ref().unwrap().to_flat_string()
}

#[test]
fn test_interleaved_thinking_and_tool_calls() {
    let msg = make_req(vec![thinking("A"), tool_use("t1"), thinking("B"), tool_use("t2")]);

    let segs = segments(&msg);
    assert_eq!(segs.len(), 3);
    assert_eq!(segs[0], "A");
    assert_eq!(segs[1], "B");
    assert_eq!(segs[2], "");
    assert_eq!(flat(&msg), "A\nB");

    let tcs = msg.tool_calls.as_ref().expect("tool_calls should be set");
    assert_eq!(tcs.len(), 2);
    assert_eq!(tcs[0].id, "t1");
    assert_eq!(tcs[1].id, "t2");
}

#[test]
fn test_trailing_reasoning_preserved_in_segments() {
    let msg = make_req(vec![thinking("A"), tool_use("t1"), thinking("B")]);

    let segs = segments(&msg);
    assert_eq!(segs.len(), 2);
    assert_eq!(segs[0], "A");
    assert_eq!(segs[1], "B");
    assert_eq!(flat(&msg), "A\nB");
}

#[test]
fn test_tool_use_before_thinking() {
    let msg = make_req(vec![tool_use("t1"), thinking("A"), tool_use("t2")]);

    let segs = segments(&msg);
    assert_eq!(segs.len(), 3);
    assert_eq!(segs[0], "");
    assert_eq!(segs[1], "A");
    assert_eq!(segs[2], "");
    assert_eq!(flat(&msg), "A");
}

#[test]
fn test_all_thinking_then_all_tools() {
    let msg = make_req(vec![thinking("A"), thinking("B"), tool_use("t1"), tool_use("t2")]);

    let segs = segments(&msg);
    assert_eq!(segs.len(), 3);
    assert_eq!(segs[0], "A\nB");
    assert_eq!(segs[1], "");
    assert_eq!(segs[2], "");
    assert_eq!(flat(&msg), "A\nB");
}

#[test]
fn test_tool_calls_no_thinking_produces_no_segments() {
    let msg = make_req(vec![tool_use("t1"), tool_use("t2")]);
    assert!(msg.reasoning_content.is_none(), "no reasoning means no reasoning_content");
}

#[test]
fn test_thinking_only_no_tools_produces_text_variant() {
    let msg = make_req(vec![
        thinking("A"),
        AnthropicContentBlock::Text { text: "answer".to_string() },
    ]);

    assert_eq!(msg.reasoning_content, Some(ReasoningContent::Text("A".to_string())));
    assert!(msg.reasoning_content.as_ref().unwrap().segments().is_none());
    assert!(matches!(msg.content, Some(ref t) if t == "answer"));
}

#[test]
fn test_single_thinking_then_single_tool() {
    let msg = make_req(vec![thinking("reason"), tool_use("t1")]);

    let segs = segments(&msg);
    assert_eq!(segs.len(), 2);
    assert_eq!(segs[0], "reason");
    assert_eq!(segs[1], "");
    assert_eq!(flat(&msg), "reason");
}

#[test]
fn test_interleaved_reasoning_not_flattened_regression() {
    let msg = make_req(vec![thinking("A"), tool_use("t1"), thinking("B"), tool_use("t2")]);

    assert!(
        !matches!(msg.reasoning_content, Some(ReasoningContent::Text(_))),
        "reasoning between tool calls must keep its place"
    );

    let segs = segments(&msg);
    assert_eq!(segs[0], "A", "reasoning before t1");
    assert_eq!(segs[1], "B", "reasoning before t2");
    assert_eq!(segs[2], "", "no trailing reasoning");

    let tools = msg.tool_calls.as_ref().unwrap();
    assert_eq!(tools[0].id, "t1");
    assert_eq!(tools[1].id, "t2");
}

#[test]
fn tool_choices_keep_their_meaning() {
    let simple = |choice_type| {
        let mut req = request(vec![text_message(AnthropicRole::User, "Hi")]);
        req.tool_choice =
            Some(AnthropicToolChoice::Simple(AnthropicToolChoiceSimple { choice_type }));
        converted(req).inner.tool_choice
    };
    assert_eq!(
        simple(AnthropicToolChoiceMode::Any),
        Some(ChatCompletionToolChoiceOption::Required)
    );
    assert_eq!(
        simple(AnthropicToolChoiceMode::NoTool),
        Some(ChatCompletionToolChoiceOption::NoTool)
    );
    let mut req = request(vec![text_message(AnthropicRole::User, "Hi")]);
    req.tool_choice = Some(AnthropicToolChoice::Named(AnthropicToolChoiceNamed {
        choice_type: AnthropicToolChoiceMode::Tool,
        name: "fn".to_string(),
    }));
    assert_eq!(
        converted(req).inner.tool_choice,
        Some(ChatCompletionToolChoiceOption::Named("fn".to_string()))
    );
}

#[test]
fn content_is_read_from_json() {
    assert_eq!(
        content(r#""Hello""#),
        AnthropicMessageContent::Text { content: "Hello".to_string() }
    );
    assert_eq!(
        AnthropicMessageContent::from_json(&Json::parse("3").unwrap()),
        Err(InvalidContent)
    );
    // A block of an image needs its source.
    assert_eq!(
        AnthropicContentBlock::from_json(&Json::parse(r#"{"type":"image"}"#).unwrap()),
        Err(InvalidContent)
    );
    assert_eq!(
        AnthropicContentBlock::from_json(
            &Json::parse(
                r#"{"type":"image","source":
                    {"type":"base64","media_type":"image/png","data":"AAAA"}}"#
            )
            .unwrap()
        ),
        Ok(AnthropicContentBlock::Image {
            source: AnthropicImageSource {
                source_type: "base64".to_string(),
                media_type: "image/png".to_string(),
                data: "AAAA".to_string(),
            },
        })
    );
}

#[test]
fn system_prompts_are_texts_or_blocks() {
    assert_eq!(
        read_system_prompt(&Json::text("Be brief.")),
        Ok(Some("Be brief.".to_string()))
    );
    assert_eq!(read_system_prompt(&Json::Null), Ok(None));
    assert_eq!(
        read_system_prompt(
            &Json::parse(r#"[{"type":"text","text":"a"},{"type":"text","text":"b"}]"#).unwrap()
        ),
        Ok(Some("a\nb".to_string()))
    );
    assert_eq!(read_system_prompt(&Json::Bool(true)), Err(InvalidContent));
}

#[test]
fn tool_input_falls_back_to_an_empty_object() {
    let input = |arguments: &str| match tool_use_block(&call(arguments), Json::parse(arguments)) {
        AnthropicResponseContentBlock::ToolUse { input, .. } => input,
        AnthropicResponseContentBlock::Text { .. } => panic!("expected tool use"),
    };
    assert!(json_equal(
        &input(r#"{"a":1}"#),
        &Json::empty_object().with("a", Json::unsigned(1))
    ));
    assert!(json_equal(&input("no json"), &Json::empty_object()));
}

#[test]
fn responses_keep_text_before_calls() {
    let chat_resp = response(
        vec![choice(Some("Let me see."), Some(vec![call("{}")]), Some(FinishReason::ToolCalls))],
        None,
    );
    let out = anthropic_response_with_id(&chat_resp, "m", "msg_1".to_string());
    assert_eq!(out.id, "msg_1");
    assert_eq!(out.content.len(), 2);
    assert!(matches!(&out.content[0], AnthropicResponseContentBlock::Text { text } if text == "Let me see."));
    assert!(matches!(&out.content[1], AnthropicResponseContentBlock::ToolUse { .. }));
    assert_eq!(out.stop_reason, Some(AnthropicStopReason::ToolUse));
    assert_eq!(out.usage.input_tokens, 0);

    let cut = response(vec![choice(Some("x"), None, Some(FinishReason::Length))], None);
    assert_eq!(
        anthropic_response_with_id(&cut, "m", "i".to_string()).stop_reason,
        Some(AnthropicStopReason::MaxTokens)
    );
    // A response without anything to say still has a block.
    let empty = anthropic_response_with_id(&response(vec![], None), "m", "i".to_string());
    assert_eq!(empty.content.len(), 1);
}

#[test]
fn errors_name_their_kind() {
    let invalid = AnthropicErrorResponse::invalid_request("bad".to_string());
    assert_eq!(invalid.object_type, "error");
    assert_eq!(invalid.error.error_type, "invalid_request_error");
    assert_eq!(invalid.error.message, "bad");
    assert_eq!(
        AnthropicErrorResponse::api_error("x".to_string()).error.error_type,
        "api_error"
    );
    assert_eq!(
        AnthropicErrorResponse::not_found("x".to_string()).error.error_type,
        "not_found_error"
    );
}
