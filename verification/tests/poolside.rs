use dynamo_llm::chat_types::{ChatCompletionMessageToolCallChunk, ToolDefinition};
use dynamo_llm::json::Json;
use dynamo_llm::json_text::quote;
use dynamo_llm::parser_facts::{ParserFacts, ParserQuery, TextFact};
use dynamo_llm::poolside::{
    is_poolside_string_type, PoolsideV1StreamDelta, PoolsideV1StreamState,
};
use dynamo_llm::text::count_occurrences;

fn tools() -> Option<Vec<ToolDefinition>> {
    Some(vec![ToolDefinition {
        name: "get_weather".to_string(),
        parameters: Json::parse(
            r#"{"type":"object","properties":
                {"city":{"type":"string"},"days":{"type":"integer"}}}"#,
        ),
    }])
}

fn feed(state: &mut PoolsideV1StreamState, text: &str, ids: usize) -> PoolsideV1StreamDelta {
    let mut facts = ParserFacts::new();
    for i in 0..ids {
        facts.fresh_ids.push(format!("id-{i}"));
    }
    loop {
        match state.process_delta(text, &tools(), &facts) {
            Ok(delta) => return delta,
            Err(ParserQuery::Literal { text }) => {
                let answer = match Json::parse(&text) {
                    Some(value) => value.to_text(),
                    None => quote(&text),
                };
                facts.literals.push(TextFact { text, answer });
            }
            Err(ParserQuery::FreshId) => {
                facts.fresh_ids.push(format!("id-{}", facts.fresh_ids.len()));
            }
            Err(other) => panic!("unexpected question: {other:?}"),
        }
    }
}

fn arguments(chunks: &[ChatCompletionMessageToolCallChunk], index: u32) -> String {
    chunks
        .iter()
        .filter(|chunk| chunk.index == index)
        .filter_map(|chunk| chunk.function.as_ref())
        .filter_map(|function| function.arguments.as_deref())
        .collect()
}

fn names(chunks: &[ChatCompletionMessageToolCallChunk]) -> Vec<String> {
    chunks
        .iter()
        .filter_map(|chunk| chunk.function.as_ref())
        .filter_map(|function| function.name.clone())
        .collect()
}

const CALL: &str = "Hi <tool_call>get_weather\n<arg_key>city</arg_key>\n<arg_value>New \"York\"</arg_value>\n<arg_key>days</arg_key>\n<arg_value> 3 </arg_value>\n</tool_call>bye";

#[test]
fn a_call_is_read_as_it_arrives() {
    let mut state = PoolsideV1StreamState::initial();
    let delta = feed(&mut state, CALL, 0);
    assert_eq!(delta.content.as_deref(), Some("Hi bye"));
    assert_eq!(names(&delta.tool_calls), vec!["get_weather".to_string()]);
    assert_eq!(arguments(&delta.tool_calls, 0), r#"{"city":"New \"York\"","days":3}"#);
    assert!(!state.in_tool_call);
    assert_eq!(state.finalize_content(), None);
}

#[test]
fn pieces_make_the_same_as_the_whole() {
    let mut whole_state = PoolsideV1StreamState::initial();
    let whole = feed(&mut whole_state, CALL, 1);
    for cut in 1..CALL.len() {
        let mut state = PoolsideV1StreamState::initial();
        let first = feed(&mut state, &CALL[..cut], 1);
        let ids = if state.tools.is_empty() { 1 } else { 0 };
        let second = feed(&mut state, &CALL[cut..], ids);
        assert_eq!(state, whole_state, "cut at {cut}");
        let text = |delta: &PoolsideV1StreamDelta| delta.content.clone().unwrap_or_default();
        assert_eq!(text(&first) + &text(&second), text(&whole), "cut at {cut}");
        assert_eq!(
            arguments(&first.tool_calls, 0) + &arguments(&second.tool_calls, 0),
            arguments(&whole.tool_calls, 0),
            "cut at {cut}"
        );
    }
}

#[test]
fn a_possible_start_is_held_back() {
    let mut state = PoolsideV1StreamState::initial();
    let delta = feed(&mut state, "text <tool", 0);
    assert_eq!(delta.content.as_deref(), Some("text "));
    assert_eq!(state.safe_len_before_partial_start(), 0);
    let delta = feed(&mut state, "box>", 0);
    assert_eq!(delta.content.as_deref(), Some("<toolbox>"));
    feed(&mut state, "<tool", 0);
    assert_eq!(state.finalize_content().as_deref(), Some("<tool"));
}

#[test]
fn a_call_without_a_name_is_dropped() {
    let mut state = PoolsideV1StreamState::initial();
    let delta = feed(&mut state, "a<tool_call></tool_call>b", 0);
    assert_eq!(delta.content.as_deref(), Some("ab"));
    assert!(delta.tool_calls.is_empty());
    assert!(state.tools.is_empty());
}

#[test]
fn a_repeated_argument_is_dropped() {
    let mut state = PoolsideV1StreamState::initial();
    let delta = feed(
        &mut state,
        "<tool_call>f\n<arg_key>a</arg_key><arg_value>1</arg_value><arg_key>a</arg_key><arg_value>2</arg_value></tool_call>",
        0,
    );
    assert_eq!(arguments(&delta.tool_calls, 0), r#"{"a":1}"#);
}

#[test]
fn a_call_without_arguments_has_an_empty_object() {
    let mut state = PoolsideV1StreamState::initial();
    let delta = feed(&mut state, "<tool_call>f\n</tool_call><tool_call>g\n</tool_call>", 0);
    assert_eq!(arguments(&delta.tool_calls, 0), "{}");
    assert_eq!(arguments(&delta.tool_calls, 1), "{}");
    assert_eq!(names(&delta.tool_calls), vec!["f".to_string(), "g".to_string()]);
    let ids: Vec<_> = delta.tool_calls.iter().filter_map(|chunk| chunk.id.clone()).collect();
    assert_ne!(ids[0], ids[1]);
}

#[test]
fn an_open_question_changes_nothing() {
    let mut state = PoolsideV1StreamState::initial();
    let before = PoolsideV1StreamState::initial();
    let asked = state.process_delta("a<tool_call>", &tools(), &ParserFacts::new());
    assert_eq!(asked, Err(ParserQuery::FreshId));
    assert_eq!(state, before);
}

#[test]
fn schemas_say_what_is_a_string() {
    assert!(is_poolside_string_type("get_weather", "city", &tools()));
    assert!(!is_poolside_string_type("get_weather", "days", &tools()));
    assert!(!is_poolside_string_type("other", "city", &tools()));
    assert!(!is_poolside_string_type("get_weather", "city", &None));
}

#[test]
fn arguments_grow_by_what_is_released() {
    let mut state = PoolsideV1StreamState::initial();
    let mut released = String::new();
    for piece in CALL.chars() {
        let delta = feed(&mut state, &piece.to_string(), 0);
        released += &arguments(&delta.tool_calls, 0);
        if let Some(tool) = state.tools.first() {
            assert_eq!(tool.streamed_args, released);
            assert_eq!(tool.args_closed, !state.in_tool_call);
        }
    }
    assert_eq!(released, r#"{"city":"New \"York\"","days":3}"#);
    assert!(Json::parse(&released).is_some());
}

#[test]
fn every_cut_of_a_text_without_calls_comes_out_whole() {
    let text = "a < b, <tool_ and <tool_cal";
    for width in 1..=text.len() {
        let mut state = PoolsideV1StreamState::initial();
        let mut out = String::new();
        let mut from: usize = 0;
        while from < text.len() {
            let to: usize = std::cmp::min(from + width, text.len());
            let delta = feed(&mut state, &text[from..to], 0);
            assert!(delta.tool_calls.is_empty());
            out.push_str(delta.content.as_deref().unwrap_or(""));
            from = to;
        }
        out.push_str(state.finalize_content().as_deref().unwrap_or(""));
        assert_eq!(out, text);
        assert_eq!(state.finalize_content(), None);
    }
}

#[test]
fn every_cut_of_a_call_tells_the_same() {
    let text = "<tool_call>get_weather<arg_key>city</arg_key><arg_value>Rome</arg_value>\
                <arg_key>city</arg_key><arg_value>Oslo</arg_value>\
                <arg_key>days</arg_key><arg_value>2</arg_value></tool_call>ok";
    for width in 1..=text.len() {
        let mut state = PoolsideV1StreamState::initial();
        let mut out = String::new();
        let mut calls = Vec::new();
        let mut from: usize = 0;
        while from < text.len() {
            let to: usize = std::cmp::min(from + width, text.len());
            let delta = feed(&mut state, &text[from..to], 1);
            out.push_str(delta.content.as_deref().unwrap_or(""));
            calls.extend(delta.tool_calls);
            from = to;
        }
        assert_eq!(out, "ok");
        assert_eq!(names(&calls), ["get_weather"]);
        assert_eq!(arguments(&calls, 0), r#"{"city":"Rome","days":2}"#);
    }
}

#[test]
fn only_start_tags_count_against_the_limit() {
    let mut state = PoolsideV1StreamState::initial();
    feed(&mut state, "<tool_call>f\n</tool_call><tool", 0);
    assert!(state.can_number("_call>"));
    assert_eq!(count_occurrences("<tool_call><tool_call", "<tool_call>"), 1);
    assert_eq!(count_occurrences("aaa", "aa"), 2);
    assert_eq!(count_occurrences("", "a"), 0);
}
