use dynamo_llm::chat_types::{
    Annotated, CalledFunction, ChatChoiceLogprobs, ChatChoiceStream,
    ChatCompletionMessageContent, ChatCompletionMessageToolCallChunk,
    ChatCompletionStreamResponseDelta, CompletionUsage, CreateChatCompletionStreamResponse,
    FinishReason, FunctionCallStream, FunctionType, NvCreateChatCompletionStreamResponse,
    ParsedToolCalls, Role, ToolCallResponse, ToolDefinition,
};
use dynamo_llm::finish_reason::FinishFixer;
use dynamo_llm::jail_builder::{JailedStreamBuilder, ParserTokens};
use dynamo_llm::jail_state::tool_call_dedupe_key;
use dynamo_llm::jail_stream::JailRun;
use dynamo_llm::jail_text::{escape_json_string_control_chars, immediate_tool_choice_json_fragment};
use dynamo_llm::jail_types::{EmissionMode, JailedStream};
use dynamo_llm::json::Json;
use dynamo_llm::json_text::{json_escape_string_content, quote};
use dynamo_llm::parser_facts::{MarkerFact, MatchResult, ParserFacts, ParserQuery, TextFact};

// The formats of tool calls that the streams below are written in.
#[derive(Clone, Copy, PartialEq)]
enum Format {
    Plain,
    Hermes,
    QwenXml,
}

const OPEN: &str = "<tool_call>";
const CLOSE: &str = "</tool_call>";

fn between<'a>(text: &'a str, open: &str, close: &str) -> Vec<&'a str> {
    let mut found = Vec::new();
    let mut rest = text;
    while let Some(start) = rest.find(open) {
        let inner = &rest[start + open.len()..];
        match inner.find(close) {
            Some(end) => {
                found.push(&inner[..end]);
                rest = &inner[end + close.len()..];
            }
            None => break,
        }
    }
    found
}

fn response(id: usize, name: &str, arguments: String) -> ToolCallResponse {
    ToolCallResponse {
        id: format!("call-{id}"),
        tp: FunctionType::Function,
        function: CalledFunction { name: name.to_string(), arguments },
    }
}

fn json_call(id: usize, text: &str) -> Option<ToolCallResponse> {
    let value = Json::parse(text)?;
    let name = value.get("name")?.as_str()?;
    let arguments = value.get("arguments").or_else(|| value.get("parameters"))?;
    Some(response(id, name, arguments.to_text()))
}

fn xml_call(id: usize, text: &str) -> Option<ToolCallResponse> {
    let function = between(text, "<function=", "</function>");
    let function = function.first()?;
    let name = &function[..function.find('>')?];
    let mut arguments = Json::empty_object();
    for parameter in between(function, "<parameter=", "</parameter>") {
        let split = parameter.find('>')?;
        let value = parameter[split + 1..].trim_matches('\n');
        arguments = arguments.with(&parameter[..split], Json::text(value));
    }
    Some(response(id, name, arguments.to_text()))
}

fn tool_calls(format: Format, text: &str) -> ParsedToolCalls {
    let mut calls = Vec::new();
    for block in between(text, OPEN, CLOSE) {
        let call = match format {
            Format::Plain => None,
            Format::Hermes => json_call(calls.len(), block),
            Format::QwenXml => xml_call(calls.len(), block),
        };
        calls.extend(call);
    }
    let normal_text = if calls.is_empty() {
        text.to_string()
    } else {
        text[..text.find(OPEN).unwrap()].to_string()
    };
    ParsedToolCalls { calls, normal_text: Some(normal_text) }
}

fn tagged_calls(text: &str) -> Option<ParsedToolCalls> {
    let calls: Vec<ToolCallResponse> = between(text, "<tools>", "</tools>")
        .iter()
        .enumerate()
        .filter_map(|(i, block)| json_call(i, block))
        .collect();
    if calls.is_empty() {
        None
    } else {
        Some(ParsedToolCalls { calls, normal_text: None })
    }
}

fn marker(patterns: &[String], content: &str, partial: &str) -> MatchResult {
    let text = format!("{partial}{content}");
    let first = patterns
        .iter()
        .filter_map(|pattern| text.find(pattern.as_str()).map(|start| (start, pattern)))
        .min_by_key(|(start, pattern)| (*start, usize::MAX - pattern.len()));
    if let Some((start, pattern)) = first {
        return MatchResult::Complete {
            prefix: text[..start].to_string(),
            marker: pattern.clone(),
            suffix: text[start + pattern.len()..].to_string(),
        };
    }
    let held = (1..text.len())
        .filter(|n| {
            let tail = &text[text.len() - n..];
            patterns.iter().any(|pattern| pattern.starts_with(tail))
        })
        .max();
    match held {
        Some(n) => MatchResult::Partial {
            prefix: text[..text.len() - n].to_string(),
            partial: text[text.len() - n..].to_string(),
        },
        None => MatchResult::NoMatch { content: text },
    }
}

fn answer(facts: &mut ParserFacts, query: ParserQuery, format: Format, jail: &JailedStream) {
    match query {
        ParserQuery::Marker { content, partial } => {
            let answer = marker(&jail.marker_patterns, &content, &partial);
            facts.markers.push(MarkerFact { content, partial, answer });
        }
        ParserQuery::ToolCalls { text, finalize } => {
            let answer = Some(tool_calls(format, &text));
            let list = if finalize { &mut facts.final_tool_calls } else { &mut facts.tool_calls };
            list.push(TextFact { text, answer });
        }
        ParserQuery::CallStart { text } => {
            let answer = text.contains(OPEN);
            facts.call_starts.push(TextFact { text, answer });
        }
        ParserQuery::CallEnd { text } => {
            let answer = text.rfind(CLOSE).map(|start| text[..start + CLOSE.len()].chars().count());
            facts.call_ends.push(TextFact { text, answer });
        }
        ParserQuery::TaggedJson { text, recover } => {
            let answer = tagged_calls(&text);
            let list =
                if recover { &mut facts.recovered_tagged_json } else { &mut facts.tagged_json };
            list.push(TextFact { text, answer });
        }
        ParserQuery::BareJson { text, recover } => {
            let list = if recover { &mut facts.recovered_bare_json } else { &mut facts.bare_json };
            list.push(TextFact { text, answer: None });
        }
        ParserQuery::Literal { text } => {
            let answer = match Json::parse(&text) {
                Some(value) => value.to_text(),
                None => quote(&text),
            };
            facts.literals.push(TextFact { text, answer });
        }
        ParserQuery::Repair { text } => {
            facts.repairs.push(TextFact { text, answer: None });
        }
        ParserQuery::FreshId => facts.add_fresh_id(),
    }
}

fn facts_of(facts: &mut Vec<ParserFacts>, choice: usize) -> &mut ParserFacts {
    while facts.len() <= choice {
        facts.push(ParserFacts::new());
    }
    &mut facts[choice]
}

// Runs a stream through a jail, answering what it asks.
fn jailed(jail: &JailedStream, format: Format, chunks: Vec<Annotated>) -> Vec<Annotated> {
    let mut run = JailRun::new();
    let mut out = Vec::new();
    for chunk in chunks {
        assert!(run.has_room_for(&chunk, jail));
        let mut facts = Vec::new();
        let (emitted, over) = loop {
            match run.process_response(&chunk, jail, &facts) {
                Ok(passed) => break passed,
                Err((choice, query)) => {
                    answer(facts_of(&mut facts, choice), query, format, jail);
                }
            }
        };
        out.extend(emitted);
        if over {
            break;
        }
    }
    let mut facts = Vec::new();
    let last = loop {
        match run.end_stream(jail, &facts) {
            Ok(chunks) => break chunks,
            Err((choice, query)) => answer(facts_of(&mut facts, choice), query, format, jail),
        }
    };
    out.extend(last);
    out
}

fn apply(jail: JailedStream, format: Format, chunks: Vec<Annotated>) -> Vec<Annotated> {
    let mut fixer = FinishFixer::new();
    let mut out: Vec<Annotated> =
        jailed(&jail, format, chunks).into_iter().map(|chunk| fixer.fix(chunk)).collect();
    out.extend(fixer.finish());
    out
}

fn tokens() -> Option<ParserTokens> {
    Some(ParserTokens {
        start_tokens: vec![OPEN.to_string()],
        end_tokens: vec![CLOSE.to_string()],
    })
}

fn definition(name: &str) -> ToolDefinition {
    ToolDefinition { name: name.to_string(), parameters: None }
}

fn chunk_of(choices: Vec<ChatChoiceStream>, usage: Option<CompletionUsage>) -> Annotated {
    Annotated {
        data: Some(NvCreateChatCompletionStreamResponse {
            inner: CreateChatCompletionStreamResponse {
                id: "id-42".to_string(),
                object: "chat.completion.chunk".to_string(),
                created: 0,
                model: "test-model".to_string(),
                choices,
                usage,
                service_tier: None,
                system_fingerprint: None,
            },
            nvext: None,
        }),
        id: None,
        event: None,
        comment: None,
        error: None,
    }
}

fn choice_of(content: Option<&str>, finish_reason: Option<FinishReason>) -> ChatChoiceStream {
    ChatChoiceStream {
        index: 0,
        delta: ChatCompletionStreamResponseDelta {
            role: Some(Role::Assistant),
            content: content.map(|text| ChatCompletionMessageContent::Text(text.to_string())),
            tool_calls: None,
            function_call: None,
            refusal: None,
            reasoning_content: None,
        },
        finish_reason,
        logprobs: None,
    }
}

fn text_chunk(text: &str) -> Annotated {
    chunk_of(vec![choice_of(Some(text), None)], None)
}

fn finish_chunk(finish_reason: FinishReason) -> Annotated {
    chunk_of(vec![choice_of(None, Some(finish_reason))], None)
}

fn usage_chunk(prompt_tokens: u32, completion_tokens: u32) -> Annotated {
    chunk_of(
        vec![],
        Some(CompletionUsage {
            prompt_tokens,
            completion_tokens,
            total_tokens: prompt_tokens + completion_tokens,
            cached_tokens: None,
            reasoning_tokens: None,
        }),
    )
}

fn choices(responses: &[Annotated]) -> Vec<&ChatChoiceStream> {
    responses.iter().flat_map(|r| r.data.iter()).flat_map(|d| d.inner.choices.iter()).collect()
}

fn collect_tool_calls(responses: &[Annotated]) -> Vec<(String, String)> {
    let mut tool_calls = Vec::new();
    for choice in choices(responses) {
        for call in choice.delta.tool_calls.iter().flatten() {
            if let Some(function) = &call.function {
                let text = |part: &Option<String>| part.as_deref().unwrap_or("").to_string();
                tool_calls.push((text(&function.name), text(&function.arguments)));
            }
        }
    }
    tool_calls
}

fn collect_text_content(responses: &[Annotated]) -> String {
    choices(responses)
        .iter()
        .filter_map(|choice| match &choice.delta.content {
            Some(ChatCompletionMessageContent::Text(text)) => Some(text.as_str()),
            _ => None,
        })
        .collect()
}

fn ends_with_tool_calls(responses: &[Annotated]) -> bool {
    choices(responses)
        .iter()
        .any(|choice| choice.finish_reason == Some(FinishReason::ToolCalls))
}

fn argument(arguments: &str, key: &str) -> String {
    Json::parse(arguments).unwrap().get(key).and_then(|v| v.as_str()).unwrap().to_string()
}

const COLOR_CALL: &str = "<tool_call>\n<function=name_a_color>\n<parameter=color_hex>\n#ff00ee\n</parameter>\n</function>\n</tool_call>";
const SQL_CALL: &str = "<tool_call>\n<function=execute_sql>\n<parameter=query>\nSELECT COUNT(*) AS n FROM users;\n</parameter>\n<parameter=dialect>\nsqlite\n</parameter>\n</function>\n</tool_call>";
const SQL_CALL_REORDERED: &str = "<tool_call>\n<function=execute_sql>\n<parameter=dialect>\nsqlite\n</parameter>\n<parameter=query>\nSELECT COUNT(*) AS n FROM users;\n</parameter>\n</function>\n</tool_call>";
const WEATHER_JSON_CALL: &str = "<tool_call>\n{\"name\": \"get_weather\", \"arguments\": {\"location\": \"SF\"}}\n</tool_call>";

fn qwen(tools: &[&str]) -> JailedStreamBuilder {
    JailedStream::builder()
        .tool_call_parser("qwen3_coder")
        .tool_definitions(tools.iter().map(|name| definition(name)).collect())
}

fn hermes() -> JailedStream {
    JailedStream::builder().tool_call_parser("hermes").build(tokens())
}

#[test]
fn test_immediate_named_tool_choice_skips_reasoning_prefix() {
    let jail = JailedStream::builder().tool_choice_named("get_weather".to_string()).build(None);
    let responses = apply(
        jail,
        Format::Plain,
        vec![text_chunk(
            "I should call the weather tool.</think>{\"location\":{\"city\":\"Paris\"}}",
        )],
    );
    let tool_calls = collect_tool_calls(&responses);
    assert_eq!(tool_calls.len(), 1, "Expected named tool call");
    assert_eq!(tool_calls[0].0, "get_weather");
    assert_eq!(tool_calls[0].1, "{\"location\":{\"city\":\"Paris\"}}");
    assert_eq!(collect_text_content(&responses).trim(), "");
}

#[test]
fn test_immediate_named_tool_choice_preserves_usage_chunk() {
    let jail = JailedStream::builder()
        .tool_choice_named("get_weather".to_string())
        .defer_terminal_until_usage(true)
        .build(None);
    let responses = apply(
        jail,
        Format::Plain,
        vec![text_chunk("{\"location\":{\"city\":\"Paris\"}}"), usage_chunk(11, 7)],
    );
    let usage = responses
        .iter()
        .filter_map(|r| r.data.as_ref())
        .find_map(|d| d.inner.usage.as_ref())
        .expect("usage chunk should pass through after terminal tool call");
    assert_eq!(collect_tool_calls(&responses).len(), 1, "Expected named tool call");
    assert_eq!(usage.completion_tokens, 7);
    assert!(ends_with_tool_calls(&responses));
}

#[test]
fn test_marker_jail_parses_content_with_empty_tool_calls_delta() {
    let mut choice = choice_of(Some(COLOR_CALL), None);
    choice.delta.tool_calls = Some(Vec::new());
    let responses = apply(
        qwen(&["name_a_color"]).build(tokens()),
        Format::QwenXml,
        vec![chunk_of(vec![choice], None)],
    );
    let tool_calls = collect_tool_calls(&responses);
    assert_eq!(tool_calls.len(), 1);
    assert_eq!(tool_calls[0].0, "name_a_color");
    assert_eq!(argument(&tool_calls[0].1, "color_hex"), "#ff00ee");
    assert_eq!(collect_text_content(&responses).trim(), "");
}

#[test]
fn test_marker_jail_drops_whitespace_after_tool_call() {
    let responses = apply(
        qwen(&["name_a_color"]).build(tokens()),
        Format::QwenXml,
        vec![text_chunk(COLOR_CALL), text_chunk("\n"), finish_chunk(FinishReason::Stop)],
    );
    let tool_calls = collect_tool_calls(&responses);
    assert_eq!(tool_calls.len(), 1, "responses: {responses:#?}");
    assert_eq!(tool_calls[0].0, "name_a_color");
    assert_eq!(collect_text_content(&responses), "");
}

#[test]
fn test_marker_jail_parses_split_qwen_xml_before_stop_chunk() {
    let mut chunks: Vec<Annotated> = [
        "<tool_call>",
        "\n<function=name_a_color>",
        "\n<parameter=color_hex>",
        "\n#",
        "ff",
        "00",
        "ee",
        "\n</parameter>",
        "\n</function>",
        "\n</tool_call>",
    ]
    .iter()
    .map(|text| text_chunk(text))
    .collect();
    chunks.push(finish_chunk(FinishReason::Stop));
    let responses = apply(qwen(&["name_a_color"]).build(tokens()), Format::QwenXml, chunks);
    let tool_calls = collect_tool_calls(&responses);
    assert_eq!(tool_calls.len(), 1, "responses: {responses:#?}");
    assert_eq!(tool_calls[0].0, "name_a_color");
    assert_eq!(argument(&tool_calls[0].1, "color_hex"), "#ff00ee");
    assert_eq!(collect_text_content(&responses).trim(), "");
    assert!(ends_with_tool_calls(&responses));
}

#[test]
fn test_immediate_named_tool_choice_jails_after_role_only_chunk() {
    let jail = JailedStream::builder().tool_choice_named("send_message".to_string()).build(None);
    let responses = apply(
        jail,
        Format::Plain,
        vec![
            chunk_of(vec![choice_of(None, None)], None),
            text_chunk(
                "I should send it.</think>{\"to\":\"ops@test.com\",\"body\":\"line1\\nline2\\tquoted\"}",
            ),
        ],
    );
    let tool_calls = collect_tool_calls(&responses);
    assert_eq!(tool_calls.len(), 1, "Expected named tool call");
    assert_eq!(tool_calls[0].0, "send_message");
    assert!(tool_calls[0].1.contains("ops@test.com"));
    assert_eq!(collect_text_content(&responses).trim(), "");
}

#[test]
fn test_immediate_named_tool_choice_escapes_raw_control_chars() {
    let jail = JailedStream::builder().tool_choice_named("send_message".to_string()).build(None);
    let responses = apply(
        jail,
        Format::Plain,
        vec![text_chunk("{\"to\":\"ops@test.com\",\"body\":\"line1\tquoted\"}")],
    );
    let tool_calls = collect_tool_calls(&responses);
    assert_eq!(tool_calls.len(), 1, "Expected named tool call");
    assert_eq!(tool_calls[0].0, "send_message");
    assert_eq!(argument(&tool_calls[0].1, "body"), "line1\tquoted");
    assert!(tool_calls[0].1.contains("\\t"));
    assert_eq!(collect_text_content(&responses).trim(), "");
}

#[test]
fn test_immediate_named_tool_choice_exits_on_native_xml_tool_call() {
    let jail =
        qwen(&["send_message"]).tool_choice_named("send_message".to_string()).build(tokens());
    let native_call = "<tool_call>\n<function=send_message>\n<parameter=to>\nops@test.com\n</parameter>\n<parameter=body>\nline1\nline2\tquoted\n</parameter>\n</function>\n</tool_call>";
    let mut facts = ParserFacts::new();
    let (should_end, split_pos) = loop {
        match jail.should_end_jail(native_call, &facts) {
            Ok(end) => break end,
            Err(query) => answer(&mut facts, query, Format::QwenXml, &jail),
        }
    };
    assert!(should_end, "native tool parser should end immediate jail");
    assert_eq!(split_pos, native_call.len());
}

#[test]
fn test_immediate_named_tool_choice_emits_only_first_native_xml_tool_call() {
    let jail = qwen(&["send_message"])
        .tool_choice_named("send_message".to_string())
        .named_tool_filter("send_message")
        .build(tokens());
    let native_call = "<tool_call>\n<function=send_message>\n<parameter=to>\nops@test.com\n</parameter>\n<parameter=body>\nline1\n</parameter>\n</function>\n</tool_call>";
    let responses = apply(
        jail,
        Format::QwenXml,
        vec![text_chunk(native_call), text_chunk(native_call)],
    );
    let tool_calls = collect_tool_calls(&responses);
    assert_eq!(tool_calls.len(), 1, "named tool_choice must emit one call");
    assert_eq!(tool_calls[0].0, "send_message");
    assert_eq!(collect_text_content(&responses).trim(), "");
}

#[test]
fn test_immediate_required_tool_choice_drops_native_xml_final_answer_spill() {
    let jail = qwen(&["get_weather", "calculate"]).tool_choice_required().build(tokens());
    let native_calls = "<tool_call>\n<function=get_weather>\n<parameter=location>\nNew York, NY\n</parameter>\n<parameter=unit>\nfahrenheit\n</parameter>\n</function>\n</tool_call><tool_call>\n<function=calculate>\n<parameter=expression>\n(99 - 17) / 4\n</parameter>\n<parameter=precision>\n2\n</parameter>\n</function>\n</tool_call>";
    let final_answer_spill = "\n<tool_call>\n<final_answer>\nThe weather is being fetched and the result is 20.5.\n</final_answer>\n</tool_call>";
    let responses = apply(
        jail,
        Format::QwenXml,
        vec![text_chunk(native_calls), text_chunk(final_answer_spill)],
    );
    let tool_calls = collect_tool_calls(&responses);
    assert_eq!(tool_calls.len(), 2, "required tool_choice should emit both calls");
    assert_eq!(tool_calls[0].0, "get_weather");
    assert_eq!(tool_calls[1].0, "calculate");
    assert_eq!(collect_text_content(&responses).trim(), "");
}

#[test]
fn test_immediate_required_single_tool_choice_stops_after_first_native_xml_call() {
    let jail = qwen(&["execute_sql"]).tool_choice_required().build(tokens());
    let native_call = "<tool_call>\n<function=execute_sql>\n<parameter=query>\nSELECT 42 AS answer\n</parameter>\n<parameter=dialect>\nsqlite\n</parameter>\n</function>\n</tool_call>";
    let responses = apply(
        jail,
        Format::QwenXml,
        vec![text_chunk(native_call), text_chunk(native_call)],
    );
    let tool_calls = collect_tool_calls(&responses);
    assert_eq!(
        tool_calls.len(),
        1,
        "single-tool required choice should terminate after the first call"
    );
    assert_eq!(tool_calls[0].0, "execute_sql");
    assert_eq!(collect_text_content(&responses).trim(), "");
    assert!(ends_with_tool_calls(&responses));
}

#[test]
fn test_immediate_required_tool_choice_stops_repeated_native_xml_call() {
    let jail = qwen(&["execute_sql", "get_weather"]).tool_choice_required().build(tokens());
    let responses = apply(
        jail,
        Format::QwenXml,
        vec![
            text_chunk(SQL_CALL),
            text_chunk(SQL_CALL_REORDERED),
            text_chunk(SQL_CALL),
            text_chunk(SQL_CALL_REORDERED),
        ],
    );
    let tool_calls = collect_tool_calls(&responses);
    assert_eq!(
        tool_calls.len(),
        1,
        "required tool_choice should stop on repeated identical calls"
    );
    assert_eq!(tool_calls[0].0, "execute_sql");
    assert!(ends_with_tool_calls(&responses));
}

#[test]
fn test_immediate_required_tool_choice_suppresses_duplicate_and_continues() {
    let jail = qwen(&["execute_sql", "get_weather"]).tool_choice_required().build(tokens());
    let second_call = "<tool_call>\n<function=get_weather>\n<parameter=location>\nBoston\n</parameter>\n</function>\n</tool_call>";
    let responses = apply(
        jail,
        Format::QwenXml,
        vec![text_chunk(SQL_CALL), text_chunk(SQL_CALL_REORDERED), text_chunk(second_call)],
    );
    let tool_calls = collect_tool_calls(&responses);
    let names: Vec<&str> = tool_calls.iter().map(|(name, _)| name.as_str()).collect();
    assert_eq!(
        names,
        vec!["execute_sql", "get_weather"],
        "required tool_choice should suppress one duplicate and continue"
    );
    assert_eq!(collect_text_content(&responses).trim(), "");
}

#[test]
fn test_immediate_required_tool_choice_drops_dangling_native_xml_function_spill() {
    let jail = qwen(&["get_weather", "calculate"]).tool_choice_required().build(tokens());
    let native_call = "<tool_call>\n<function=get_weather>\n<parameter=location>\nNew York, NY\n</parameter>\n</function>\n</tool_call>";
    let spill = "\n<function=calculate>\n<parameter=expression>\n(99 - 17) / 4\n</parameter>\n</function>\n</tool_call>";
    let responses =
        apply(jail, Format::QwenXml, vec![text_chunk(native_call), text_chunk(spill)]);
    let tool_calls = collect_tool_calls(&responses);
    assert_eq!(tool_calls.len(), 1, "malformed spill must not leak as content");
    assert_eq!(tool_calls[0].0, "get_weather");
    assert_eq!(collect_text_content(&responses).trim(), "");
}

// Log-probabilities stand for themselves: one number for each character.
fn text_chunk_with_logprobs(text: &str) -> Annotated {
    let mut choice = choice_of(Some(text), None);
    choice.logprobs = Some(ChatChoiceLogprobs {
        content: Some((0..text.chars().count() as u64).collect()),
        refusal: None,
    });
    chunk_of(vec![choice], None)
}

fn collect_logprobs(responses: &[Annotated]) -> Vec<&Option<ChatChoiceLogprobs>> {
    choices(responses).iter().map(|choice| &choice.logprobs).collect()
}

#[test]
fn test_tool_call_preserves_logprobs_single_chunk() {
    let responses =
        apply(hermes(), Format::Hermes, vec![text_chunk_with_logprobs(WEATHER_JSON_CALL)]);
    let tool_calls = collect_tool_calls(&responses);
    assert_eq!(tool_calls.len(), 1, "Expected 1 tool call, got {:?}", tool_calls);
    assert_eq!(tool_calls[0].0, "get_weather");
    assert!(collect_logprobs(&responses).iter().any(|lp| lp.is_some()));
}

#[test]
fn test_tool_call_preserves_logprobs_multiple_chunks() {
    let first = "<tool_call>\n{\"name\": \"get_weather\", \"arguments\"";
    let second = ": {\"location\": \"SF\"}}\n</tool_call>";
    let responses = apply(
        hermes(),
        Format::Hermes,
        vec![text_chunk_with_logprobs(first), text_chunk_with_logprobs(second)],
    );
    assert!(!collect_tool_calls(&responses).is_empty(), "Expected tool calls, got none");
    let kept: usize = collect_logprobs(&responses)
        .iter()
        .filter_map(|lp| lp.as_ref())
        .filter_map(|lp| lp.content.as_ref())
        .map(|content| content.len())
        .sum();
    assert_eq!(kept, first.len() + second.len());
}

#[test]
fn test_tool_call_with_text_preserves_logprobs() {
    let text = format!("Let me check.\n{WEATHER_JSON_CALL}");
    let responses = apply(hermes(), Format::Hermes, vec![text_chunk_with_logprobs(&text)]);
    assert_eq!(collect_tool_calls(&responses).len(), 1);
    let all_logprobs = collect_logprobs(&responses);
    assert!(all_logprobs.iter().any(|lp| lp.is_some()));
    assert!(all_logprobs
        .iter()
        .filter_map(|lp| lp.as_ref())
        .filter_map(|lp| lp.content.as_ref())
        .any(|entries| !entries.is_empty()));
}

fn assert_weather_and_time(responses: &[Annotated]) {
    let tool_calls = collect_tool_calls(responses);
    assert!(tool_calls.len() >= 2, "Expected at least 2 tool calls, got {:?}", tool_calls);
    let names: Vec<&str> = tool_calls.iter().map(|(n, _)| n.as_str()).collect();
    assert!(names.contains(&"get_weather"), "Missing get_weather tool call. Got: {:?}", names);
    assert!(names.contains(&"get_time"), "Missing get_time tool call. Got: {:?}", names);
}

#[test]
fn test_multi_tool_call_single_chunk() {
    let text = format!(
        "{WEATHER_JSON_CALL}\n<tool_call>\n{{\"name\": \"get_time\", \"arguments\": {{\"timezone\": \"PST\"}}}}\n</tool_call>"
    );
    assert_weather_and_time(&apply(hermes(), Format::Hermes, vec![text_chunk(&text)]));
}

#[test]
fn test_qwen_parser_recovers_tools_json_blocks() {
    let jail = qwen(&["get_weather", "calculate"])
        .jail_start_sequence("<tools>")
        .jail_end_sequence("</tools>")
        .build(tokens());
    let responses = apply(
        jail,
        Format::QwenXml,
        vec![text_chunk(
            "\n<tools>\n{\"name\":\"get_weather\",\"arguments\":{\"location\":\"Boston, MA\",\"unit\":\"celsius\"}}\n</tools>\n<tools>\n{\"name\":\"calculate\",\"arguments\":{\"expression\":\"128*47\"}}\n</tools>",
        )],
    );
    let tool_calls = collect_tool_calls(&responses);
    let names: Vec<&str> = tool_calls.iter().map(|(name, _)| name.as_str()).collect();
    assert!(names.contains(&"get_weather"), "Got: {:?}", tool_calls);
    assert!(names.contains(&"calculate"), "Got: {:?}", tool_calls);
    assert_eq!(collect_text_content(&responses).trim(), "");
}

#[test]
fn test_multi_tool_call_multiple_chunks() {
    assert_weather_and_time(&apply(
        hermes(),
        Format::Hermes,
        vec![
            text_chunk("<tool_call>\n{\"name\": \"get_weather\", \"arguments\""),
            text_chunk(
                ": {\"location\": \"SF\"}}\n</tool_call>\n<tool_call>\n{\"name\": \"get_time\"",
            ),
            text_chunk(", \"arguments\": {\"timezone\": \"PST\"}}\n</tool_call>"),
        ],
    ));
}

#[test]
fn test_trailing_text_not_re_jailed() {
    let text = format!("{WEATHER_JSON_CALL}\nDone!");
    let responses = apply(hermes(), Format::Hermes, vec![text_chunk(&text)]);
    let tool_calls = collect_tool_calls(&responses);
    assert_eq!(tool_calls.len(), 1, "Expected exactly 1 tool call, got {:?}", tool_calls);
    assert_eq!(tool_calls[0].0, "get_weather");
    let all_text = collect_text_content(&responses);
    assert!(all_text.contains("Done!"), "Got text: {:?}", all_text);
}

fn answered(text: &str) -> Annotated {
    chunk_of(vec![choice_of(Some(text), Some(FinishReason::Stop))], None)
}

#[test]
fn test_required_tool_choice_parses_json_array() {
    let jail = JailedStream::builder().tool_choice_required().build(None);
    let responses = apply(
        jail,
        Format::Plain,
        vec![answered(
            r#"[{"name":"search","parameters":{"query":"rust"}},
            {"name":"summarize","parameters":{"topic":"memory"}}]"#,
        )],
    );
    let choice = choices(&responses)[0];
    assert_eq!(choice.finish_reason, Some(FinishReason::ToolCalls));
    assert_eq!(collect_text_content(&responses), "");
    let tool_calls = choice.delta.tool_calls.as_ref().unwrap();
    assert_eq!(tool_calls.len(), 2);
    for (i, name, arguments) in
        [(0, "search", r#"{"query":"rust"}"#), (1, "summarize", r#"{"topic":"memory"}"#)]
    {
        let call = &tool_calls[i];
        assert_eq!(call.index, i as u32);
        assert!(call.id.as_ref().unwrap().starts_with("call-"));
        assert_eq!(call.tool_type, Some(FunctionType::Function));
        let function = call.function.as_ref().unwrap();
        assert_eq!(function.name.as_deref(), Some(name));
        assert_eq!(function.arguments.as_deref(), Some(arguments));
    }
    assert_ne!(tool_calls[0].id, tool_calls[1].id);
    // "call-" and a UUID.
    assert_eq!(tool_calls[0].id.as_ref().unwrap().len(), 41);
}

#[test]
fn test_tool_choice_parse_failure_returns_as_content() {
    let jail = JailedStream::builder().tool_choice_required().build(None);
    let responses = apply(jail, Format::Plain, vec![answered("not-json")]);
    assert_eq!(responses.len(), 1, "parse failure should still emit fallback content");
    let choice = &responses[0].data.as_ref().unwrap().inner.choices[0];
    assert_eq!(
        choice.delta.content,
        Some(ChatCompletionMessageContent::Text("not-json".to_string()))
    );
    assert!(choice.delta.tool_calls.is_none());
    assert_eq!(choice.finish_reason, Some(FinishReason::Stop));
}

// A chunk whose text is all reasoning.
fn thought(text: &str, finish_reason: Option<FinishReason>) -> Annotated {
    let mut choice = choice_of(None, finish_reason);
    choice.delta.reasoning_content = Some(text.to_string());
    chunk_of(vec![choice], None)
}

#[test]
fn test_required_tool_choice_parses_reasoning_content_stream() {
    let jail = JailedStream::builder().tool_choice_required().build(None);
    let responses = apply(
        jail,
        Format::Plain,
        vec![
            thought(r#"[{"name":"search","parameters":{"query":"rust"}}"#, None),
            thought("]", Some(FinishReason::Stop)),
        ],
    );
    assert_eq!(responses.len(), 1);
    let choice = choices(&responses)[0];
    assert_eq!(choice.finish_reason, Some(FinishReason::ToolCalls));
    assert!(choice.delta.reasoning_content.is_none());
    let tool_calls = choice.delta.tool_calls.as_ref().unwrap();
    assert_eq!(tool_calls.len(), 1);
    let function = tool_calls[0].function.as_ref().unwrap();
    assert_eq!(function.name.as_deref(), Some("search"));
    assert_eq!(function.arguments.as_deref(), Some(r#"{"query":"rust"}"#));
}

#[test]
fn test_required_tool_choice_ignores_reasoning_before_json() {
    let jail = JailedStream::builder().tool_choice_required().build(None);
    let responses = apply(
        jail,
        Format::Plain,
        vec![
            thought("I need to decide which tools to call.", None),
            answered(r#"[{"name":"calculate","parameters":{"expression":"15 * 23"}}]"#),
        ],
    );
    assert_eq!(responses.len(), 1);
    let choice = choices(&responses)[0];
    assert_eq!(choice.finish_reason, Some(FinishReason::ToolCalls));
    assert_eq!(
        choice.delta.reasoning_content.as_deref(),
        Some("I need to decide which tools to call.")
    );
    let tool_calls = choice.delta.tool_calls.as_ref().unwrap();
    assert_eq!(tool_calls.len(), 1);
    let function = tool_calls[0].function.as_ref().unwrap();
    assert_eq!(function.name.as_deref(), Some("calculate"));
    assert_eq!(function.arguments.as_deref(), Some(r#"{"expression":"15 * 23"}"#));
}

#[test]
fn test_required_tool_choice_recovers_json_suffix_after_prose_prefix() {
    let jail = JailedStream::builder().tool_choice_required().build(None);
    let responses = apply(
        jail,
        Format::Plain,
        vec![answered(
            "I should call the calculator now.\n[{\"name\":\"calculate\",\"parameters\":{\"expression\":\"15 * 23\"}}]",
        )],
    );
    assert_eq!(responses.len(), 1);
    let choice = choices(&responses)[0];
    assert_eq!(choice.finish_reason, Some(FinishReason::ToolCalls));
    assert_eq!(
        choice.delta.reasoning_content.as_deref(),
        Some("I should call the calculator now.\n")
    );
    let tool_calls = choice.delta.tool_calls.as_ref().unwrap();
    assert_eq!(tool_calls.len(), 1);
    let function = tool_calls[0].function.as_ref().unwrap();
    assert_eq!(function.name.as_deref(), Some("calculate"));
    assert_eq!(function.arguments.as_deref(), Some(r#"{"expression":"15 * 23"}"#));
}

// Runs a stream through a jail for one named tool: the reasoning beside its only call, and
// the arguments of the call.
fn named_call(name: &str, chunks: Vec<Annotated>) -> (Option<String>, String) {
    let jail = JailedStream::builder().tool_choice_named(name.to_string()).build(None);
    let responses = apply(jail, Format::Plain, chunks);
    let tool_calls = collect_tool_calls(&responses);
    assert_eq!(tool_calls.len(), 1);
    assert_eq!(tool_calls[0].0, name);
    assert_eq!(collect_text_content(&responses), "");
    let first = choices(&responses)[0];
    assert_eq!(first.delta.tool_calls.as_ref().unwrap()[0].index, 0);
    assert!(ends_with_tool_calls(&responses));
    (first.delta.reasoning_content.clone(), tool_calls[0].1.clone())
}

#[test]
fn a_named_call_in_reasoning_is_parsed() {
    let stop = Some(FinishReason::Stop);
    let json = r#"{"location":"Paris"}"#;
    assert_eq!(named_call("get_weather", vec![thought(json, stop)]), (None, json.to_string()));
    // Without a finish reason the complete call leaves at once.
    assert_eq!(named_call("get_weather", vec![thought(json, None)]), (None, json.to_string()));
    let prose = "I should compute this carefully first.";
    let json = r#"{"expression":"15 * 23"}"#;
    let expected = (Some(prose.to_string()), json.to_string());
    assert_eq!(named_call("calculate", vec![thought(prose, None), answered(json)]), expected);
    let marked = format!("</think>{json}");
    assert_eq!(
        named_call("calculate", vec![thought(prose, None), thought(&marked, stop)]),
        expected
    );
    let prose = r#"The expression contains JSON literals like {"a":1} and {"b":2}."#;
    let json = r#"{"expression":"{\"a\":1}+{\"b\":2}"}"#;
    let marked = format!("</think>{json}");
    assert_eq!(
        named_call("calculate", vec![thought(prose, None), thought(&marked, stop)]),
        (Some(prose.to_string()), json.to_string())
    );
}

#[test]
fn a_named_call_follows_other_text() {
    let json = r#"{"expression":"2+2"}"#;
    let prose = "The user wants me to calculate 2+2.\n";
    let expected = (Some(prose.to_string()), json.to_string());
    assert_eq!(
        named_call("calculate", vec![answered(&format!("{prose}</think>{json}"))]),
        expected
    );
    assert_eq!(
        named_call(
            "calculate",
            vec![text_chunk(prose), answered(&format!("</think>{json}"))]
        ),
        expected
    );
    let schema = "{date_range?,metadata?,tags?}\n-options:{sort_by?,ascending?,limit?,offset?}\n";
    let json = r#"{"query":"pdf docx"}"#;
    assert_eq!(
        named_call("search", vec![answered(&format!("{schema}{json}"))]),
        (Some(schema.to_string()), json.to_string())
    );
    let json = r#"{"expression":"{\"a\":1}+{\"b\":2}"}"#;
    assert_eq!(
        named_call("calculate", vec![answered(&format!("{{\"a\":1}}{{\"b\":2}}{json}"))]).1,
        json
    );
    // Reasoning of the chunk comes first, and the last group of brackets counts.
    let content = "{ date_range? }\n- options: { sort_by? }\n\nI'll use \"pdf docx\" as a query.\n{\n  \"query\": \"pdf docx\"\n}";
    let mut choice = choice_of(Some(content), Some(FinishReason::Stop));
    choice.delta.reasoning_content = Some("The user wants documents.".to_string());
    let (reasoning, arguments) = named_call("search_documents", vec![chunk_of(vec![choice], None)]);
    assert_eq!(arguments, "{\n  \"query\": \"pdf docx\"\n}");
    assert_eq!(
        reasoning.as_deref(),
        Some("The user wants documents.{ date_range? }\n- options: { sort_by? }\n\nI'll use \"pdf docx\" as a query.\n")
    );
}

#[test]
fn a_nested_object_is_no_call() {
    let first = "{\n  \"query\": \"machine learning\",\n  \"filters\": {\n    \"date_range\": {\n      \"from\": \"2023-01-01\",\n      \"to\": \"2023-12-31\"\n    }";
    let second = ",\n    \"tags\": [\"AI\", \"research\", \"papers\"]\n  },\n  \"options\": {\n    \"ascending\": false,\n    \"limit\": 10\n  }\n}";
    assert_eq!(
        named_call("search_documents", vec![text_chunk(first), answered(second)]),
        (None, format!("{first}{second}"))
    );
    // Cut off, the text comes back whole, with the finish reason.
    let jail = JailedStream::builder().tool_choice_named("search_documents".to_string()).build(None);
    let cut = chunk_of(vec![choice_of(Some(first), Some(FinishReason::Length))], None);
    let responses = apply(jail, Format::Plain, vec![cut]);
    assert_eq!(responses.len(), 1);
    assert!(collect_tool_calls(&responses).is_empty());
    assert_eq!(collect_text_content(&responses), first);
    assert_eq!(choices(&responses)[0].finish_reason, Some(FinishReason::Length));
}

#[test]
fn reasoning_without_a_call_comes_back() {
    let required = || JailedStream::builder().tool_choice_required().build(None);
    for last in [vec![finish_chunk(FinishReason::Stop)], vec![]] {
        let mut chunks = vec![thought("Hm", None), thought("m.", None)];
        chunks.extend(last);
        let responses = apply(required(), Format::Plain, chunks);
        assert_eq!(responses.len(), 1);
        let choice = choices(&responses)[0];
        assert_eq!(choice.delta.reasoning_content.as_deref(), Some("Hmm."));
        assert_eq!(choice.delta.content, None);
        assert_eq!(choice.delta.tool_calls, None);
    }
}

#[test]
fn calls_between_tags_are_filtered_by_name() {
    let jail = |name: &str| {
        JailedStream::builder()
            .tool_call_parser("hermes")
            .named_tool_filter(name)
            .jail_start_sequence("<tools>")
            .jail_end_sequence("</tools>")
            .tool_definitions(vec![definition("get_weather"), definition("get_time")])
            .build(tokens())
    };
    let text = r#"<tools>{"name": "get_weather", "arguments": {"location": "SF"}}</tools>"#;
    let found = apply(jail("get_weather"), Format::Hermes, vec![text_chunk(text)]);
    assert_eq!(collect_tool_calls(&found).len(), 1);
    let other = apply(jail("get_time"), Format::Hermes, vec![text_chunk(text)]);
    assert!(collect_tool_calls(&other).is_empty());
    assert_eq!(collect_text_content(&other), "");
}

#[test]
fn test_streaming_required_tool_parallel() {
    let jail = JailedStream::builder().tool_choice_required().build(None);
    let all_responses = apply(
        jail,
        Format::Plain,
        vec![
            text_chunk(r#"[{"name":"search","parameters":{"query":"rust"}},"#),
            answered(r#"{"name":"summarize","parameters":{"topic":"memory"}}]"#),
        ],
    );
    assert_eq!(all_responses.len(), 1);
    assert_eq!(choices(&all_responses)[0].finish_reason, Some(FinishReason::ToolCalls));
    let tool_calls = collect_tool_calls(&all_responses);
    assert_eq!(tool_calls.len(), 2);
    assert_eq!(tool_calls[0], ("search".to_string(), r#"{"query":"rust"}"#.to_string()));
    assert_eq!(tool_calls[1], ("summarize".to_string(), r#"{"topic":"memory"}"#.to_string()));
}

#[test]
fn plain_text_passes_unchanged() {
    let responses = apply(
        hermes(),
        Format::Hermes,
        vec![text_chunk("Hello, "), text_chunk("world"), finish_chunk(FinishReason::Stop)],
    );
    assert_eq!(collect_text_content(&responses), "Hello, world");
    assert_eq!(choices(&responses).last().unwrap().finish_reason, Some(FinishReason::Stop));
}

#[test]
fn a_marker_may_come_in_pieces() {
    let responses = apply(
        hermes(),
        Format::Hermes,
        vec![
            text_chunk("Let me see <tool"),
            text_chunk(&WEATHER_JSON_CALL["<tool".len()..]),
            finish_chunk(FinishReason::Stop),
        ],
    );
    assert_eq!(collect_tool_calls(&responses).len(), 1);
    assert_eq!(collect_text_content(&responses), "Let me see ");
    assert!(ends_with_tool_calls(&responses));
}

#[test]
fn jailed_text_without_a_call_comes_back_at_the_end() {
    let responses = apply(
        hermes(),
        Format::Hermes,
        vec![text_chunk("<tool_call>\n{\"name\""), finish_chunk(FinishReason::Length)],
    );
    assert!(collect_tool_calls(&responses).is_empty());
    assert_eq!(collect_text_content(&responses), "<tool_call>\n{\"name\"");
    assert_eq!(choices(&responses).last().unwrap().finish_reason, Some(FinishReason::Length));
}

#[test]
fn choices_are_jailed_apart() {
    let both = |first: &str, second: &str| {
        let mut other = choice_of(Some(second), None);
        other.index = 1;
        chunk_of(vec![choice_of(Some(first), None), other], None)
    };
    let responses = apply(
        hermes(),
        Format::Hermes,
        vec![both("<tool_call>\n", "plain "), both(&WEATHER_JSON_CALL["<tool_call>\n".len()..], "text")],
    );
    let calls_of = |index: u32| {
        choices(&responses)
            .iter()
            .filter(|choice| choice.index == index)
            .map(|choice| choice.delta.tool_calls.iter().flatten().count())
            .sum::<usize>()
    };
    assert_eq!(calls_of(0), 1);
    assert_eq!(calls_of(1), 0);
    assert_eq!(collect_text_content(&responses), "plain text");
}

#[test]
fn choices_can_leave_one_by_one() {
    let two = || {
        let mut other = choice_of(Some("b"), None);
        other.index = 1;
        chunk_of(vec![choice_of(Some("a"), None), other], None)
    };
    let packed = apply(hermes(), Format::Hermes, vec![two()]);
    assert_eq!(packed.len(), 1);
    let single = JailedStream::builder()
        .tool_call_parser("hermes")
        .single_choice_per_chunk()
        .build(tokens());
    assert_eq!(single.emission_mode, EmissionMode::SingleChoicePerChunk);
    let apart = apply(single, Format::Hermes, vec![two()]);
    assert_eq!(apart.len(), 2);
}

#[test]
fn annotations_of_the_jailed_chunk_are_kept() {
    let mut first = text_chunk("<tool_call>\n");
    first.id = Some("first".to_string());
    let mut second = text_chunk(&WEATHER_JSON_CALL["<tool_call>\n".len()..]);
    second.id = Some("second".to_string());
    let responses = jailed(&hermes(), Format::Hermes, vec![first, second]);
    assert_eq!(responses[0].id.as_deref(), Some("first"));
}

#[test]
fn reasoning_rides_on_the_first_emission() {
    let mut thinking = choice_of(Some("<tool_call>\n"), None);
    thinking.delta.reasoning_content = Some("I think.".to_string());
    let responses = apply(
        hermes(),
        Format::Hermes,
        vec![
            chunk_of(vec![thinking], None),
            text_chunk(&WEATHER_JSON_CALL["<tool_call>\n".len()..]),
        ],
    );
    assert_eq!(
        choices(&responses)[0].delta.reasoning_content.as_deref(),
        Some("I think.")
    );
}

#[test]
fn calls_are_told_apart_by_name_and_arguments() {
    let chunk = |name: Option<&str>, arguments: &str| ChatCompletionMessageToolCallChunk {
        index: 0,
        id: None,
        tool_type: None,
        function: Some(FunctionCallStream {
            name: name.map(|name| name.to_string()),
            arguments: Some(arguments.to_string()),
        }),
    };
    let key = |name, arguments| tool_call_dedupe_key(&chunk(name, arguments));
    assert_eq!(key(Some("f"), r#"{"a":1,"b":2}"#), key(Some(" f "), r#" {"b":2, "a":1}"#));
    assert_ne!(key(Some("f"), r#"{"a":1}"#), key(Some("f"), r#"{"a":2}"#));
    assert_ne!(key(Some("f"), "{}"), key(Some("g"), "{}"));
    assert_eq!(key(Some("f"), "{}").as_deref(), Some("f\u{1f}{}"));
    assert_eq!(key(None, "{}"), None);
    assert_eq!(key(Some("  "), "{}"), None);
}

#[test]
fn control_characters_are_escaped_inside_strings_only() {
    assert_eq!(
        escape_json_string_control_chars("{\n\"a\":\"x\ny\u{1}\\\"\t\"}"),
        "{\n\"a\":\"x\\ny\\u0001\\\"\\t\"}"
    );
    let plain = "{\"a\": \"b\"}";
    assert_eq!(escape_json_string_control_chars(plain), plain);
    let once = escape_json_string_control_chars("\"\n\"");
    assert_eq!(escape_json_string_control_chars(&once), once);
}

#[test]
fn the_json_of_a_tool_choice_follows_the_reasoning() {
    assert_eq!(immediate_tool_choice_json_fragment("a</think> {} "), "{} ");
    assert_eq!(immediate_tool_choice_json_fragment(" {} "), "{}");
    assert_eq!(immediate_tool_choice_json_fragment("a</think>b</think>{}"), "{}");
    assert_eq!(immediate_tool_choice_json_fragment("a</think>  "), "a</think>");
}

#[test]
fn strings_are_written_as_json() {
    assert_eq!(quote("a\"b\\\n\u{1}é"), "\"a\\\"b\\\\\\n\\u0001é\"");
    assert_eq!(json_escape_string_content("x\ty"), "x\\ty");
    assert_eq!(Json::parse(r#"{"b":1,"a":[-2,1.5,null]}"#).unwrap().to_text(),
        r#"{"a":[-2,1.5,null],"b":1}"#);
    assert_eq!(Json::parse("{"), None);
}

#[test]
fn a_fixed_stream_ends_every_call_once() {
    let mut calling = choice_of(None, None);
    calling.delta.tool_calls = Some(vec![ChatCompletionMessageToolCallChunk {
        index: 0,
        id: None,
        tool_type: None,
        function: None,
    }]);
    let mut fixer = FinishFixer::new();
    assert_eq!(fixer.finish(), None);
    let passed = fixer.fix(chunk_of(vec![calling], None));
    assert_eq!(choices(&[passed])[0].finish_reason, None);
    // A call that has not ended is owed an end.
    let owed = fixer.finish().unwrap();
    assert_eq!(choices(&[owed])[0].finish_reason, Some(FinishReason::ToolCalls));
    // Only a plain stop is changed.
    let cut = fixer.fix(finish_chunk(FinishReason::Length));
    assert_eq!(choices(&[cut])[0].finish_reason, Some(FinishReason::Length));
    let stopped = fixer.fix(finish_chunk(FinishReason::Stop));
    assert_eq!(choices(&[stopped])[0].finish_reason, Some(FinishReason::ToolCalls));
    assert_eq!(fixer.finish(), None);
}

#[test]
fn an_open_question_leaves_the_run_unchanged() {
    let jail = hermes();
    let mut run = JailRun::new();
    let chunk = text_chunk("<tool_call>");
    let asked = run.process_response(&chunk, &jail, &vec![]);
    assert!(matches!(asked, Err((0, _))));
    assert_eq!(run, JailRun::new());
}

#[test]
fn chunks_after_a_complete_choice_are_dropped() {
    let jail = JailedStream::builder()
        .tool_choice_named("f".to_string())
        .defer_terminal_until_usage(true)
        .build(None);
    let responses = apply(
        jail,
        Format::Plain,
        vec![text_chunk("{}"), text_chunk("more"), usage_chunk(1, 2), text_chunk("late")],
    );
    assert_eq!(collect_tool_calls(&responses).len(), 1);
    assert_eq!(collect_text_content(&responses), "");
    assert!(responses.last().unwrap().data.as_ref().unwrap().inner.usage.is_some());
}

#[test]
fn an_end_without_content_waits_for_the_end_of_the_stream() {
    let jail = JailedStream::builder().tool_choice_required().build(None);
    let mut ending = choice_of(None, Some(FinishReason::Length));
    ending.delta.role = None;
    let responses = jailed(
        &jail,
        Format::Plain,
        vec![text_chunk("[{\"name\":"), chunk_of(vec![ending], None), usage_chunk(3, 2)],
    );
    assert_eq!(responses.len(), 2);
    assert!(responses[0].data.as_ref().unwrap().inner.usage.is_some());
    assert_eq!(collect_text_content(&responses), "[{\"name\":");
    let last = choices(&responses)[0];
    assert_eq!(last.finish_reason, Some(FinishReason::Length));

    let responses = jailed(
        &jail,
        Format::Plain,
        vec![text_chunk("[{\"name\":"), finish_chunk(FinishReason::Length), usage_chunk(3, 2)],
    );
    assert_eq!(responses.len(), 3);
    let passed = &responses[0].data.as_ref().unwrap().inner.choices[0];
    assert_eq!(passed.delta.content, None);
    assert_eq!(passed.finish_reason, Some(FinishReason::Length));
    assert!(responses[1].data.as_ref().unwrap().inner.usage.is_some());
    assert_eq!(collect_text_content(&responses), "[{\"name\":");
}
