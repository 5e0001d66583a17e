use dynamo_llm::chat_types::FunctionType;
use dynamo_llm::freeform::schema_has_freeform_text_field;
use dynamo_llm::json::{json_equal, Json};
use dynamo_llm::request_types::{
    ChatCompletionTool, ChatCompletionToolChoiceOption, FunctionObject,
};
use dynamo_llm::tools::{
    bound_guided_tool_schema, build_required_schema, cap_guided_tool_schema,
    get_json_schema_from_tools, get_qwen_xml_structural_tag_from_tools, guided_tool_string_budget,
    guided_tool_text_budget, named_tool_choice_has_freeform_text_field, schema_type_includes,
    ToolChoiceError,
};

fn parse(text: &str) -> Json {
    Json::parse(text).expect("JSON text")
}

fn at<'a>(value: &'a Json, path: &[&str]) -> &'a Json {
    let mut here = value;
    for step in path {
        here = match here {
            Json::Array(items) => &items[step.parse::<usize>().unwrap()],
            _ => here.get(step).expect("object member"),
        };
    }
    here
}

fn assert_json(value: &Json, expected: &str) {
    assert!(json_equal(value, &parse(expected)), "{} is not {}", value.to_text(), expected);
}

fn len(value: &Json) -> usize {
    match value {
        Json::Array(items) => items.len(),
        _ => panic!("expected an array"),
    }
}

fn tool(name: &str, description: Option<&str>, parameters: &str) -> ChatCompletionTool {
    ChatCompletionTool {
        tool_type: FunctionType::Function,
        function: FunctionObject {
            name: name.to_string(),
            description: description.map(|d| d.to_string()),
            parameters: Some(parse(parameters)),
            strict: None,
        },
    }
}

fn sample_tools() -> Vec<ChatCompletionTool> {
    vec![
        tool(
            "add_numbers",
            Some("Add two integers"),
            r#"{
                "type": "object",
                "properties": {"a": {"type": "integer"}, "b": {"type": "integer"}},
                "required": ["a", "b"]
            }"#,
        ),
        tool(
            "get_weather",
            Some("Get weather"),
            r#"{
                "type": "object",
                "properties": {
                    "location": {"type": "string"},
                    "unit": {"type": "string", "enum": ["celsius", "fahrenheit"]}
                },
                "required": ["location", "unit"]
            }"#,
        ),
    ]
}

fn named(name: &str) -> ChatCompletionToolChoiceOption {
    ChatCompletionToolChoiceOption::Named(name.to_string())
}

#[test]
fn named_choice_returns_parameters() {
    let tools = sample_tools();
    let schema = get_json_schema_from_tools(Some(&named("get_weather")), Some(&tools), None)
        .expect("schema");
    assert_json(
        &schema.unwrap(),
        r#"{
            "type": "object",
            "properties": {
                "location": {"type": "string", "maxLength": 1024},
                "unit": {"type": "string", "enum": ["celsius", "fahrenheit"]}
            },
            "required": ["location", "unit"],
            "additionalProperties": false
        }"#,
    );
}

#[test]
fn qwen_xml_structural_tag_preserves_tool_parameters() {
    let tools = sample_tools();
    let tag =
        get_qwen_xml_structural_tag_from_tools(Some(&named("get_weather")), Some(&tools), None)
            .expect("schema")
            .expect("structural tag");
    let schema = at(&tag, &["format", "tags", "0", "content", "json_schema"]);
    assert_json(at(schema, &["properties", "location"]), r#"{"type": "string", "maxLength": 1024}"#);
    assert_json(at(schema, &["additionalProperties"]), "false");
}

#[test]
fn qwen_xml_required_structural_tag_allows_bounded_calls() {
    let tools = sample_tools();
    let tag = get_qwen_xml_structural_tag_from_tools(
        Some(&ChatCompletionToolChoiceOption::Required),
        Some(&tools),
        None,
    )
    .expect("schema")
    .expect("structural tag");

    let format = at(&tag, &["format"]);
    assert_json(at(format, &["type"]), r#""repeat""#);
    assert_json(at(format, &["min"]), "1");
    assert_json(at(format, &["max"]), "2");
    assert_json(at(format, &["triggers"]), r#"[""]"#);
    assert_json(at(format, &["content", "type"]), r#""or""#);
    assert_eq!(len(at(format, &["content", "elements"])), tools.len());
    assert_json(
        at(format, &["content", "elements", "0", "begin"]),
        r#""<tool_call>\n<function=add_numbers>\n""#,
    );
}

#[test]
fn qwen_xml_required_single_tool_stops_after_first() {
    let tools = vec![sample_tools().remove(0)];
    let tag = get_qwen_xml_structural_tag_from_tools(
        Some(&ChatCompletionToolChoiceOption::Required),
        Some(&tools),
        None,
    )
    .expect("schema")
    .expect("structural tag");

    let format = at(&tag, &["format"]);
    assert_json(at(format, &["type"]), r#""tags_with_separator""#);
    assert_json(at(format, &["at_least_one"]), "true");
    assert_json(at(format, &["stop_after_first"]), "true");
    assert_json(at(format, &["separator"]), r#""""#);
    assert_eq!(len(at(format, &["tags"])), 1);
    assert_json(
        at(format, &["tags", "0", "begin"]),
        r#""<tool_call>\n<function=add_numbers>\n""#,
    );
}

#[test]
fn required_choice_builds_any_of_schema() {
    let tools = sample_tools();
    let schema = get_json_schema_from_tools(
        Some(&ChatCompletionToolChoiceOption::Required),
        Some(&tools),
        None,
    )
    .expect("schema")
    .expect("required schema");

    assert_json(at(&schema, &["type"]), r#""array""#);
    assert_json(at(&schema, &["minItems"]), "1");
    assert_json(at(&schema, &["maxItems"]), "16");
    let any_of = at(&schema, &["items", "anyOf"]);
    assert_eq!(len(any_of), 2);
    assert!(at(&schema, &["items"]).get("type").is_none());
    assert_json(at(any_of, &["0", "type"]), r#""object""#);
    assert_json(at(any_of, &["0", "additionalProperties"]), "false");
    assert_json(
        at(any_of, &["0", "properties", "name"]),
        r#"{"type": "string", "enum": ["add_numbers"]}"#,
    );
}

#[test]
fn missing_tool_errors() {
    let tools = sample_tools();
    let err =
        get_json_schema_from_tools(Some(&named("unknown")), Some(&tools), None).unwrap_err();
    assert_eq!(err, ToolChoiceError::ToolNotFound("unknown".to_string()));
}

#[test]
fn conflicting_defs_errors() {
    let tools = vec![
        tool("foo", None, r#"{"type": "object", "$defs": {"shared": {"type": "string"}}}"#),
        tool("foo", None, r#"{"type": "object", "$defs": {"shared": {"type": "number"}}}"#),
    ];
    let err = build_required_schema(&tools, None).unwrap_err();
    assert_eq!(err, ToolChoiceError::ConflictingDefinition("shared".to_string()));
}

#[test]
fn definitions_that_differ_in_the_sign_of_a_zero_merge() {
    let first = r#"{"type": "object", "$defs": {"shared": {"minimum": -0.0, "enum": [1, 0.5]}}}"#;
    let second = r#"{"type": "object", "$defs": {"shared": {"enum": [1, 0.5], "minimum": 0.0}}}"#;
    let tools = vec![tool("foo", None, first), tool("bar", None, second)];
    let schema = build_required_schema(&tools, None).unwrap();
    assert_eq!(at(&schema, &["$defs", "shared", "minimum"]).to_text(), "-0.0");
    for other in ["0", "0.5", "\"0.0\""] {
        let text = format!("{{\"$defs\": {{\"shared\": {{\"minimum\": {other}, \"enum\": [1, 0.5]}}}}}}");
        let tools = vec![tool("foo", None, first), tool("bar", None, &text)];
        let err = build_required_schema(&tools, None).unwrap_err();
        assert_eq!(err, ToolChoiceError::ConflictingDefinition("shared".to_string()));
    }
}

#[test]
fn values_are_written_as_they_were_read() {
    let mut texts = vec![
        "0.1".to_string(),
        "-0.0".to_string(),
        "0.30000000000000004".to_string(),
        "5e-324".to_string(),
        "1.7976931348623157e308".to_string(),
        "123456789012345678901234567890".to_string(),
        "18446744073709551615".to_string(),
        "-9223372036854775808".to_string(),
    ];
    let mut seed: u64 = 1;
    for _ in 0..2000 {
        seed = seed.wrapping_mul(6364136223846793005).wrapping_add(1442695040888963407);
        texts.push(format!("0.{:017}", seed % 100000000000000000));
        texts.push(format!("{}.{:09}e{}", seed % 9 + 1, seed >> 34, (seed >> 20) % 300));
    }
    for text in texts {
        let expected = serde_json::from_str::<serde_json::Value>(&text).unwrap().to_string();
        assert_eq!(parse(&text).to_text(), expected, "{text}");
    }
}

#[test]
fn guided_tool_schema_preserves_client_schema() {
    let bounded = bound_guided_tool_schema(
        &parse(
            r#"{
                "type": "object",
                "properties": {
                    "query": {"type": "string"},
                    "body": {"type": "string", "maxLength": 8192},
                    "to": {"type": "string"},
                    "subject": {"type": "string"},
                    "tags": {"type": "array", "items": {"type": "string"}}
                }
            }"#,
        ),
        None,
    );

    assert_json(at(&bounded, &["additionalProperties"]), "false");
    assert_json(
        at(&bounded, &["properties", "query"]),
        r#"{"type": "string", "maxLength": 4096}"#,
    );
    assert_json(at(&bounded, &["properties", "body", "maxLength"]), "8192");
    assert_json(at(&bounded, &["properties", "to"]), r#"{"type": "string", "maxLength": 320}"#);
    assert_json(
        at(&bounded, &["properties", "subject"]),
        r#"{"type": "string", "maxLength": 512}"#,
    );
    assert_json(at(&bounded, &["properties", "tags", "maxItems"]), "16");
    assert_json(
        at(&bounded, &["properties", "tags", "items"]),
        r#"{"type": "string", "maxLength": 1024}"#,
    );
}

#[test]
fn guided_tool_schema_bounds_user_fields() {
    let short = bound_guided_tool_schema(
        &parse(
            r#"{
                "type": "object",
                "properties": {
                    "body": {"type": "string"},
                    "query": {"type": "string"},
                    "expression": {"type": "string"},
                    "subject": {"type": "string"}
                }
            }"#,
        ),
        Some(64),
    );
    assert_json(at(&short, &["properties", "body"]), r#"{"type": "string", "maxLength": 256}"#);
    assert_json(at(&short, &["properties", "query"]), r#"{"type": "string", "maxLength": 4096}"#);
    assert_json(
        at(&short, &["properties", "expression"]),
        r#"{"type": "string", "maxLength": 256}"#,
    );
    assert_json(at(&short, &["properties", "subject"]), r#"{"type": "string", "maxLength": 512}"#);

    let long = bound_guided_tool_schema(
        &parse(r#"{"type": "object", "properties": {"body": {"type": "string"}}}"#),
        Some(4096),
    );
    assert_json(at(&long, &["properties", "body"]), r#"{"type": "string", "maxLength": 4608}"#);
}

#[test]
fn text_budgets_follow_the_request() {
    assert_eq!(guided_tool_text_budget(None), 256);
    assert_eq!(guided_tool_text_budget(Some(0)), 256);
    assert_eq!(guided_tool_text_budget(Some(4096)), 4608);
    assert_eq!(guided_tool_text_budget(Some(1_000_000)), 8192);
    assert_eq!(guided_tool_string_budget(None, None), 1024);
    assert_eq!(guided_tool_string_budget(Some("query"), Some(64)), 4096);
}

#[test]
fn a_schema_type_is_a_name_or_a_list() {
    assert!(schema_type_includes(&parse(r#"{"type": "string"}"#), "string"));
    assert!(schema_type_includes(&parse(r#"{"type": ["null", "string"]}"#), "string"));
    assert!(!schema_type_includes(&parse(r#"{"type": ["null", "integer"]}"#), "string"));
    assert!(!schema_type_includes(&parse("{}"), "string"));
}

#[test]
fn capping_twice_changes_nothing() {
    let schema = parse(
        r#"{"type": "object", "properties": {"n": {"type": "array",
            "items": {"type": "object", "properties": {"s": {"type": "string"}}}}}}"#,
    );
    let once = cap_guided_tool_schema(&schema, None, Some(64));
    let twice = cap_guided_tool_schema(&once, None, Some(64));
    assert!(json_equal(&once, &twice));
    assert_json(at(&once, &["properties", "n", "maxItems"]), "16");
    assert_json(at(&once, &["properties", "n", "items", "additionalProperties"]), "false");
}

#[test]
fn definitions_are_shared() {
    let tools = vec![
        tool("a", None, r#"{"type": "object", "$defs": {"shared": {"type": "number"}}}"#),
        tool("b", None, r#"{"type": "object", "$defs": {"shared": {"type": "number"}}}"#),
    ];
    let schema = build_required_schema(&tools, None).unwrap();
    assert_json(at(&schema, &["$defs"]), r#"{"shared": {"type": "number"}}"#);
}

#[test]
fn every_tool_choice_error_has_its_text() {
    let none: Option<&[ChatCompletionTool]> = None;
    let required = ChatCompletionToolChoiceOption::Required;
    assert_eq!(
        get_json_schema_from_tools(Some(&required), none, None),
        Err(ToolChoiceError::MissingTools)
    );
    let empty: Vec<ChatCompletionTool> = vec![];
    assert_eq!(
        get_json_schema_from_tools(Some(&required), Some(&empty), None),
        Err(ToolChoiceError::EmptyTools)
    );
    let odd = vec![tool("odd", None, r#"{"type": "object", "$defs": 3}"#)];
    assert_eq!(
        build_required_schema(&odd, None).unwrap_err(),
        ToolChoiceError::InvalidDefinitionMap("odd".to_string())
    );
    assert!(ToolChoiceError::ToolNotFound("x".to_string()).message().contains("x"));
    assert!(!ToolChoiceError::MissingTools.message().is_empty());
    assert_eq!(
        get_json_schema_from_tools(Some(&ChatCompletionToolChoiceOption::Auto), none, None),
        Ok(None)
    );
    assert_eq!(
        get_json_schema_from_tools(Some(&ChatCompletionToolChoiceOption::NoTool), none, None),
        Ok(None)
    );
}

#[test]
fn free_text_fields_are_found() {
    assert!(schema_has_freeform_text_field(&parse(
        r#"{"type": "object", "properties": {"body": {"type": "string"}}}"#
    )));
    assert!(!schema_has_freeform_text_field(&parse(
        r#"{"type": "object", "properties": {"body": {"type": "integer"}}}"#
    )));
    let tools = vec![tool(
        "send",
        None,
        r#"{"type": "object", "properties": {"body": {"type": "string"}}}"#,
    )];
    assert!(named_tool_choice_has_freeform_text_field(Some(&named("send")), Some(&tools)));
    assert!(!named_tool_choice_has_freeform_text_field(Some(&named("other")), Some(&tools)));
}
