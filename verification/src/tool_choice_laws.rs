//! What holds of the constraints for every tool choice.

use crate::json::{looked_up, member, values_agree, JsonView};
use crate::json_order::{lemma_less_total, lemma_less_transitive, text_less};
use crate::request_types::{
    ChatCompletionToolChoiceOptionView, ChatCompletionToolView, FunctionObjectView,
};
use crate::tool_laws::{adds_only_limits, holds_schemas, is_limit, law_capping_adds_only_limits};
use crate::tools::{
    allows_type, call_schema, calls_schema, capped_member, capped_schema, conflicts, defs_of,
    defs_of_first, is_first_conflict, json_int, limited, merged_defs, parameters_of, schema_for,
    string_budget, structural_tag_for, tool_named, tool_tag, ToolChoiceErrorView,
    DEFAULT_GUIDED_TOOL_ARRAY_MAX_ITEMS,
};
use vstd::prelude::*;

verus! {

/// The item of a list at `i`; nothing where there is none.
pub open spec fn item(v: JsonView, i: int) -> Option<JsonView> {
    match v {
        JsonView::Array(items) => if 0 <= i < items.len() {
            Some(items[i])
        } else {
            None
        },
        _ => None,
    }
}

/// The value under a path of two keys.
pub open spec fn under(v: JsonView, outer: Seq<char>, inner: Seq<char>) -> Option<JsonView> {
    match member(v, outer) {
        Some(value) => member(value, inner),
        None => None,
    }
}

/// The tool with other parameters.
pub open spec fn with_parameters(
    tool: ChatCompletionToolView,
    parameters: JsonView,
) -> ChatCompletionToolView {
    ChatCompletionToolView {
        function: FunctionObjectView { parameters: Some(parameters), ..tool.function },
        ..tool
    }
}

/// The tool with its own definitions left out.
pub open spec fn without_definitions(tool: ChatCompletionToolView) -> ChatCompletionToolView {
    match tool.function.parameters {
        Some(JsonView::Object(m)) => with_parameters(tool, JsonView::Object(m.remove("$defs"@))),
        _ => tool,
    }
}

/// The schema that a choice of the tool gives where it is the only one.
pub open spec fn schema_alone(
    tool: ChatCompletionToolView,
    request_text_len: Option<usize>,
) -> Option<JsonView> {
    match schema_for(
        Some(ChatCompletionToolChoiceOptionView::Named(tool.function.name)),
        Some(seq![tool]),
        request_text_len,
    ) {
        Ok(schema) => schema,
        Err(_) => None,
    }
}

proof fn lemma_names()
    ensures
        "type"@.len() == 4 && "type"@[0] == 't',
        "name"@.len() == 4 && "name"@[0] == 'n',
        "enum"@.len() == 4 && "enum"@[0] == 'e',
        "items"@.len() == 5 && "items"@[0] == 'i',
        "$defs"@.len() == 5 && "$defs"@[0] == '$',
        "anyOf"@.len() == 5 && "anyOf"@[0] == 'a' && "anyOf"@[1] == 'n',
        "allOf"@.len() == 5 && "allOf"@[0] == 'a' && "allOf"@[1] == 'l',
        "oneOf"@.len() == 5 && "oneOf"@[0] == 'o',
        "const"@.len() == 5 && "const"@[0] == 'c',
        "array"@.len() == 5 && "array"@[0] == 'a' && "array"@[1] == 'r',
        "string"@.len() == 6 && "string"@[0] == 's',
        "object"@.len() == 6 && "object"@[0] == 'o',
        "minItems"@.len() == 8 && "minItems"@[1] == 'i',
        "maxItems"@.len() == 8 && "maxItems"@[1] == 'a',
        "required"@.len() == 8 && "required"@[1] == 'e',
        "maxLength"@.len() == 9,
        "properties"@.len() == 10 && "properties"@[1] == 'r',
        "parameters"@.len() == 10 && "parameters"@[1] == 'a',
        "additionalProperties"@.len() == 20,
{
    reveal_strlit("type");
    reveal_strlit("name");
    reveal_strlit("enum");
    reveal_strlit("items");
    reveal_strlit("$defs");
    reveal_strlit("anyOf");
    reveal_strlit("allOf");
    reveal_strlit("oneOf");
    reveal_strlit("const");
    reveal_strlit("array");
    reveal_strlit("string");
    reveal_strlit("object");
    reveal_strlit("minItems");
    reveal_strlit("maxItems");
    reveal_strlit("required");
    reveal_strlit("maxLength");
    reveal_strlit("properties");
    reveal_strlit("parameters");
    reveal_strlit("additionalProperties");
}

proof fn lemma_same_budget_member(
    v: JsonView,
    key: Seq<char>,
    a: Option<Seq<char>>,
    b: Option<Seq<char>>,
    request_text_len: Option<usize>,
)
    requires
        string_budget(a, request_text_len) == string_budget(b, request_text_len),
    ensures
        capped_member(v, key, a, request_text_len) == capped_member(v, key, b, request_text_len),
    decreases v, 1int,
{
    if key == "anyOf"@ || key == "oneOf"@ || key == "allOf"@ {
        match v {
            JsonView::Array(items) => {
                let x = capped_member(v, key, a, request_text_len);
                let y = capped_member(v, key, b, request_text_len);
                assert forall|i: int| 0 <= i < items.len() implies #[trigger] x->Array_0[i]
                    == y->Array_0[i] by {
                    lemma_same_budget(items[i], a, b, request_text_len);
                }
                assert(x->Array_0 =~= y->Array_0);
            },
            _ => {},
        }
    } else if key == "items"@ || key == "additionalProperties"@ {
        lemma_same_budget(v, a, b, request_text_len);
    }
}

proof fn lemma_same_budget(
    v: JsonView,
    a: Option<Seq<char>>,
    b: Option<Seq<char>>,
    request_text_len: Option<usize>,
)
    requires
        string_budget(a, request_text_len) == string_budget(b, request_text_len),
    ensures
        capped_schema(v, a, request_text_len) == capped_schema(v, b, request_text_len),
    decreases v, 0int,
{
    match v {
        JsonView::Object(m) => {
            let x = capped_schema(v, a, request_text_len)->Object_0;
            let y = capped_schema(v, b, request_text_len)->Object_0;
            assert forall|k: Seq<char>| m.dom().contains(k) implies #[trigger] capped_member(
                m[k],
                k,
                a,
                request_text_len,
            ) == capped_member(m[k], k, b, request_text_len) by {
                lemma_same_budget_member(m[k], k, a, b, request_text_len);
            }
            let bx = Map::new(
                |k: Seq<char>| m.dom().contains(k),
                |k: Seq<char>|
                    if m.dom().contains(k) {
                        capped_member(m[k], k, a, request_text_len)
                    } else {
                        JsonView::Null
                    },
            );
            let by = Map::new(
                |k: Seq<char>| m.dom().contains(k),
                |k: Seq<char>|
                    if m.dom().contains(k) {
                        capped_member(m[k], k, b, request_text_len)
                    } else {
                        JsonView::Null
                    },
            );
            assert(bx =~= by);
            assert(x =~= limited(bx, m, a, request_text_len));
            assert(y =~= limited(by, m, b, request_text_len));
        },
        _ => {},
    }
}

/// A member of a capped schema is the member of the schema with the schemas in it capped.
proof fn lemma_capped_at(
    m: Map<Seq<char>, JsonView>,
    field: Option<Seq<char>>,
    request_text_len: Option<usize>,
    key: Seq<char>,
)
    requires
        m.dom().contains(key),
    ensures
        member(capped_schema(JsonView::Object(m), field, request_text_len), key) == Some(
            capped_member(m[key], key, field, request_text_len),
        ),
{
}

/// Where a tool is required, the arguments of a call are constrained as those of a named
/// call of that tool are, and its name is that of the tool; nothing else may stand in a
/// call, and there is at least one and at most as many as a list may have.
pub proof fn law_required_calls_are_constrained(
    tools: Seq<ChatCompletionToolView>,
    request_text_len: Option<usize>,
    schema: JsonView,
    i: int,
)
    requires
        schema_for(
            Some(ChatCompletionToolChoiceOptionView::Required),
            Some(tools),
            request_text_len,
        ) == Ok::<_, ToolChoiceErrorView>(Some(schema)),
        0 <= i < tools.len(),
    ensures
        member(schema, "type"@) == Some(JsonView::Text("array"@)),
        member(schema, "minItems"@) == Some(json_int(1)),
        member(schema, "maxItems"@) == Some(json_int(DEFAULT_GUIDED_TOOL_ARRAY_MAX_ITEMS as int)),
        under(schema, "items"@, "anyOf"@) matches Some(JsonView::Array(calls)) && calls.len()
            == tools.len() && {
            let call = calls[i];
            &&& member(call, "type"@) == Some(JsonView::Text("object"@))
            &&& member(call, "additionalProperties"@) == Some(JsonView::Bool(false))
            &&& member(call, "required"@) == Some(
                JsonView::Array(seq![JsonView::Text("name"@), JsonView::Text("parameters"@)]),
            )
            &&& under(call, "properties"@, "parameters"@) == schema_alone(
                without_definitions(tools[i]),
                request_text_len,
            )
            &&& under(call, "properties"@, "parameters"@) is Some
            &&& under(call, "properties"@, "name"@) matches Some(name) && {
                &&& member(name, "type"@) == Some(JsonView::Text("string"@))
                &&& member(name, "enum"@) == Some(
                    JsonView::Array(seq![JsonView::Text(tools[i].function.name)]),
                )
            }
        },
{
    let r = request_text_len;
    let defs = defs_of_first(tools, tools.len())->Ok_0;
    let tool = tools[i];
    lemma_names();
    let root = calls_schema(tools, defs)->Object_0;
    assert(root["type"@] == JsonView::Text("array"@));
    assert(!root.dom().contains("maxItems"@));
    lemma_capped_at(root, None, r, "type"@);
    lemma_capped_at(root, None, r, "minItems"@);
    lemma_capped_at(root, None, r, "items"@);
    assert(looked_up(root, "type"@) == Some(JsonView::Text("array"@)));
    let items = root["items"@]->Object_0;
    assert(root["items"@] == JsonView::Object(items));
    lemma_capped_at(items, None, r, "anyOf"@);
    assert(member(schema, "items"@) == Some(capped_schema(root["items"@], None, r)));
    let calls = items["anyOf"@]->Array_0;
    assert(calls[i] == call_schema(tool));
    let call = call_schema(tool)->Object_0;
    assert(call_schema(tool) == JsonView::Object(call));
    let capped = capped_schema(call_schema(tool), None, r);
    lemma_capped_at(call, None, r, "type"@);
    lemma_capped_at(call, None, r, "required"@);
    lemma_capped_at(call, None, r, "additionalProperties"@);
    lemma_capped_at(call, None, r, "properties"@);
    assert(call["additionalProperties"@] == JsonView::Bool(false));
    let parts = call["properties"@]->Object_0;
    assert(call["properties"@] == JsonView::Object(parts));
    let held = capped_member(call["properties"@], "properties"@, None, r);
    assert(member(held, "parameters"@) == Some(
        capped_schema(parts["parameters"@], Some("parameters"@), r),
    ));
    assert(member(held, "name"@) == Some(capped_schema(parts["name"@], Some("name"@), r)));
    let name = parts["name"@]->Object_0;
    assert(parts["name"@] == JsonView::Object(name));
    lemma_capped_at(name, Some("name"@), r, "type"@);
    lemma_capped_at(name, Some("name"@), r, "enum"@);
    lemma_parameter_budget(r);
    lemma_same_budget(parts["parameters"@], Some("parameters"@), None, r);
    let alone = without_definitions(tool);
    assert(seq![alone][0] == alone);
    lemma_no_definitions(tool);
    assert(schema_alone(alone, r) == Some(capped_schema(parts["parameters"@], None, r)));
}

/// The parameters as a whole have no name of a text field.
proof fn lemma_parameter_budget(request_text_len: Option<usize>)
    ensures
        string_budget(Some("parameters"@), request_text_len) == string_budget(
            None,
            request_text_len,
        ),
{
    reveal_strlit("parameters");
    reveal_strlit("body");
    reveal_strlit("content");
    reveal_strlit("message");
    reveal_strlit("query");
    reveal_strlit("sql");
    reveal_strlit("expression");
    reveal_strlit("subject");
    reveal_strlit("title");
    reveal_strlit("to");
    reveal_strlit("from");
    reveal_strlit("email");
    assert("parameters"@.len() == 10 && "parameters"@[0] == 'p');
    assert("expression"@[0] == 'e');
    assert("body"@.len() == 4 && "content"@.len() == 7 && "message"@.len() == 7);
    assert("query"@.len() == 5 && "sql"@.len() == 3 && "subject"@.len() == 7);
    assert("title"@.len() == 5 && "to"@.len() == 2 && "from"@.len() == 4 && "email"@.len() == 5);
}

proof fn lemma_no_definitions(tool: ChatCompletionToolView)
    ensures
        call_schema(tool)->Object_0["properties"@]->Object_0["parameters"@]
            == parameters_of(without_definitions(tool).function),
{
    lemma_names();
    if tool.function.parameters is None {
        let plain = parameters_of(tool.function)->Object_0;
        assert(plain.remove("$defs"@) =~= plain);
    }
}

/// The choice of a named tool is the choice of the first tool of that name: its capped
/// parameters, in which every key of the client stays, a key that holds no schemas with
/// its value, and only limits are added. Without such a tool it is an error.
pub proof fn law_named_calls_are_constrained(
    tools: Seq<ChatCompletionToolView>,
    name: Seq<char>,
    request_text_len: Option<usize>,
    i: int,
)
    requires
        0 <= i <= tools.len(),
        i < tools.len() ==> tools[i].function.name == name,
        forall|j: int| 0 <= j < i ==> (#[trigger] tools[j]).function.name != name,
    ensures
        ({
            let made = schema_for(
                Some(ChatCompletionToolChoiceOptionView::Named(name)),
                Some(tools),
                request_text_len,
            );
            if i == tools.len() {
                made == Err::<Option<JsonView>, _>(ToolChoiceErrorView::ToolNotFound(name))
            } else {
                &&& made is Ok
                &&& made->Ok_0 == schema_alone(tools[i], request_text_len)
                &&& made->Ok_0 is Some
                &&& tools[i].function.parameters matches Some(JsonView::Object(m)) ==> (
                made->Ok_0->0 matches JsonView::Object(c) && forall|key: Seq<char>| #[trigger]
                    c.dom().contains(key) <==> m.dom().contains(key) || (is_limit(key)
                        && c.dom().contains(key)))
                &&& tools[i].function.parameters matches Some(parameters) ==> forall|
                    key: Seq<char>,
                |
                    member(parameters, key) is Some && !holds_schemas(key) ==> #[trigger] member(
                        made->Ok_0->0,
                        key,
                    ) == member(parameters, key)
                &&& tools[i].function.parameters is None ==> member(made->Ok_0->0, "type"@)
                    == Some(JsonView::Text("object"@))
            }
        }),
{
    lemma_names();
    lemma_tool_named(tools, name, i);
    if i < tools.len() {
        assert(seq![tools[i]][0] == tools[i]);
        match tools[i].function.parameters {
            Some(JsonView::Object(m)) => {
                let c = capped_schema(JsonView::Object(m), None, request_text_len)->Object_0;
                assert forall|key: Seq<char>| #[trigger] c.dom().contains(key)
                    <==> m.dom().contains(key) || (is_limit(key) && c.dom().contains(key)) by {}
                assert forall|key: Seq<char>|
                    m.dom().contains(key) && !holds_schemas(key) implies #[trigger] member(
                    JsonView::Object(c),
                    key,
                ) == Some(m[key]) by {
                    lemma_capped_at(m, None, request_text_len, key);
                }
            },
            None => {
                let m = parameters_of(tools[i].function)->Object_0;
                lemma_capped_at(m, None, request_text_len, "type"@);
            },
            _ => {},
        }
    }
}

/// The schemas that constrain forced calls are those of the tools, whole: of a named tool its
/// parameters, and of each required tool its parameters without definitions, with nothing
/// changed at any depth but limits added. A tool without parameters takes any object that
/// names no members.
pub proof fn law_schemas_are_those_of_the_tools(
    tools: Seq<ChatCompletionToolView>,
    request_text_len: Option<usize>,
    schema: JsonView,
    i: int,
)
    requires
        schema_for(
            Some(ChatCompletionToolChoiceOptionView::Required),
            Some(tools),
            request_text_len,
        ) == Ok::<_, ToolChoiceErrorView>(Some(schema)),
        0 <= i < tools.len(),
    ensures
        ({
            let alone = schema_alone(tools[i], request_text_len);
            let given = tools[i].function.parameters;
            &&& alone is Some
            &&& given matches Some(parameters) ==> adds_only_limits(parameters, alone->0)
            &&& given is None ==> {
                &&& member(alone->0, "type"@) == Some(JsonView::Text("object"@))
                &&& member(alone->0, "additionalProperties"@) == Some(JsonView::Bool(false))
            }
            &&& under(schema, "items"@, "anyOf"@) matches Some(JsonView::Array(calls)) && (given
                matches Some(JsonView::Object(m)) ==> (under(
                calls[i],
                "properties"@,
                "parameters"@,
            ) matches Some(constrained) && adds_only_limits(
                JsonView::Object(m.remove("$defs"@)),
                constrained,
            )))
        }),
{
    let r = request_text_len;
    let tool = tools[i];
    lemma_names();
    law_required_calls_are_constrained(tools, r, schema, i);
    assert(seq![tool][0] == tool);
    law_capping_adds_only_limits(parameters_of(tool.function), None, r);
    let bare = without_definitions(tool);
    assert(seq![bare][0] == bare);
    law_capping_adds_only_limits(parameters_of(bare.function), None, r);
    if tool.function.parameters is None {
        let m = parameters_of(tool.function)->Object_0;
        lemma_capped_at(m, None, r, "type"@);
        reveal_strlit("additionalProperties");
        reveal_strlit("maxItems");
        reveal_strlit("maxLength");
        assert("additionalProperties"@.len() == 20);
        assert(m.dom().contains("type"@) && m["type"@] == JsonView::Text("object"@));
        assert(!m.dom().contains("additionalProperties"@));
    }
}

proof fn lemma_tool_named(tools: Seq<ChatCompletionToolView>, name: Seq<char>, i: int)
    requires
        0 <= i <= tools.len(),
        i < tools.len() ==> tools[i].function.name == name,
        forall|j: int| 0 <= j < i ==> (#[trigger] tools[j]).function.name != name,
    ensures
        tool_named(tools, name) == (if i < tools.len() {
            Some(tools[i])
        } else {
            None
        }),
    decreases tools.len(),
{
    if i > 0 {
        let rest = tools.subrange(1, tools.len() as int);
        assert(tools[0].function.name != name);
        assert forall|j: int| 0 <= j < i - 1 implies (#[trigger] rest[j]).function.name != name by {
            assert(rest[j] == tools[j + 1]);
        }
        lemma_tool_named(rest, name, i - 1);
    }
}

/// A forced choice needs tools; other choices force nothing.
pub proof fn law_forced_choices_need_tools(
    choice: Option<ChatCompletionToolChoiceOptionView>,
    tools: Option<Seq<ChatCompletionToolView>>,
    request_text_len: Option<usize>,
)
    ensures
        ({
            let forced = choice matches Some(choice) && (choice is Named || choice is Required);
            let schema = schema_for(choice, tools, request_text_len);
            let tag = structural_tag_for(choice, tools, request_text_len);
            &&& !forced ==> schema is Ok && schema->Ok_0 is None && tag is Ok && tag->Ok_0 is None
            &&& forced && tools is None ==> schema == Err::<Option<JsonView>, _>(
                ToolChoiceErrorView::MissingTools,
            ) && tag == Err::<Option<JsonView>, _>(ToolChoiceErrorView::MissingTools)
            &&& choice == Some(ChatCompletionToolChoiceOptionView::Required) && (tools matches Some(
                list,
            ) && list.len() == 0) ==> schema == Err::<Option<JsonView>, _>(
                ToolChoiceErrorView::EmptyTools,
            ) && tag == Err::<Option<JsonView>, _>(ToolChoiceErrorView::EmptyTools)
            &&& forced ==> (schema is Ok ==> schema->Ok_0 is Some) && (tag is Ok ==> tag->Ok_0
                is Some)
        }),
{
}

/// The tag `v` frames a call of the tool, around arguments as a choice of that tool
/// constrains them.
pub open spec fn frames_call(
    v: JsonView,
    tool: ChatCompletionToolView,
    request_text_len: Option<usize>,
) -> bool {
    &&& member(v, "type"@) == Some(JsonView::Text("tag"@))
    &&& member(v, "begin"@) == Some(
        JsonView::Text("<tool_call>\n<function="@ + tool.function.name + ">\n"@),
    )
    &&& member(v, "end"@) == Some(JsonView::Text("\n</function>\n</tool_call>"@))
    &&& under(v, "content"@, "type"@) == Some(JsonView::Text("json_schema"@))
    &&& under(v, "content"@, "json_schema"@) == schema_alone(tool, request_text_len)
    &&& schema_alone(tool, request_text_len) is Some
}

proof fn lemma_tag_names()
    ensures
        "tags"@.len() == 4 && "tags"@[1] == 'a',
        "type"@.len() == 4 && "type"@[1] == 'y',
        "begin"@.len() == 5,
        "content"@.len() == 7,
        "end"@.len() == 3 && "end"@[0] == 'e',
        "min"@.len() == 3 && "min"@[1] == 'i',
        "max"@.len() == 3 && "max"@[1] == 'a',
        "style"@.len() == 5,
        "json_schema"@.len() == 11,
        "format"@.len() == 6,
        "triggers"@.len() == 8 && "triggers"@[0] == 't',
        "elements"@.len() == 8 && "elements"@[0] == 'e',
        "separator"@.len() == 9,
        "at_least_one"@.len() == 12,
        "stop_after_first"@.len() == 16,
{
    reveal_strlit("tags");
    reveal_strlit("type");
    reveal_strlit("begin");
    reveal_strlit("content");
    reveal_strlit("end");
    reveal_strlit("min");
    reveal_strlit("max");
    reveal_strlit("style");
    reveal_strlit("json_schema");
    reveal_strlit("format");
    reveal_strlit("triggers");
    reveal_strlit("elements");
    reveal_strlit("separator");
    reveal_strlit("at_least_one");
    reveal_strlit("stop_after_first");
}

proof fn lemma_frames(tool: ChatCompletionToolView, request_text_len: Option<usize>)
    ensures
        frames_call(tool_tag(tool, request_text_len), tool, request_text_len),
{
    lemma_tag_names();
    assert(seq![tool][0] == tool);
}

/// A structural tag frames the calls that the choice allows: of a named tool exactly one
/// call of the first tool of that name; of several required tools from one call up to as
/// many as there are tools, and no more than a list may have, each of any tool. One
/// required tool is as good as named.
pub proof fn law_tags_frame_the_calls(
    tools: Seq<ChatCompletionToolView>,
    request_text_len: Option<usize>,
    i: int,
)
    requires
        0 <= i < tools.len(),
        forall|j: int|
            0 <= j < i ==> (#[trigger] tools[j]).function.name != tools[i].function.name,
    ensures
        ({
            let named = structural_tag_for(
                Some(ChatCompletionToolChoiceOptionView::Named(tools[i].function.name)),
                Some(tools),
                request_text_len,
            );
            let required = structural_tag_for(
                Some(ChatCompletionToolChoiceOptionView::Required),
                Some(tools),
                request_text_len,
            );
            &&& named matches Ok(Some(tag)) && {
                &&& member(tag, "type"@) == Some(JsonView::Text("structural_tag"@))
                &&& under(tag, "format"@, "tags"@) matches Some(JsonView::Array(tags))
                    && tags.len() == 1 && frames_call(tags[0], tools[i], request_text_len)
                &&& under(tag, "format"@, "at_least_one"@) == Some(JsonView::Bool(true))
                &&& under(tag, "format"@, "stop_after_first"@) == Some(JsonView::Bool(true))
            }
            &&& tools.len() == 1 ==> required == named
            &&& tools.len() > 1 ==> (required matches Ok(Some(tag)) && {
                &&& member(tag, "type"@) == Some(JsonView::Text("structural_tag"@))
                &&& under(tag, "format"@, "min"@) == Some(json_int(1))
                &&& under(tag, "format"@, "max"@) == Some(
                    json_int(
                        if tools.len() < DEFAULT_GUIDED_TOOL_ARRAY_MAX_ITEMS {
                            tools.len() as int
                        } else {
                            DEFAULT_GUIDED_TOOL_ARRAY_MAX_ITEMS as int
                        },
                    ),
                )
                &&& under(tag, "format"@, "content"@) matches Some(content) && (member(
                    content,
                    "elements"@,
                ) matches Some(JsonView::Array(tags)) && tags.len() == tools.len()
                    && frames_call(tags[i], tools[i], request_text_len))
            })
        }),
{
    lemma_tag_names();
    lemma_tool_named(tools, tools[i].function.name, i);
    lemma_frames(tools[i], request_text_len);
}

/// The schema allows values of that type.
pub open spec fn mentions_type(m: Map<Seq<char>, JsonView>, name: Seq<char>) -> bool {
    m.dom().contains("type"@) && (m["type"@] == JsonView::Text(name) || exists|i: int|
        #[trigger] item(m["type"@], i) == Some(JsonView::Text(name)))
}

/// A member of a schema under a key, in which all schemas are bounded.
pub open spec fn bounded_member(v: JsonView, key: Seq<char>) -> bool
    decreases v, 1int,
{
    if key == "anyOf"@ || key == "oneOf"@ || key == "allOf"@ {
        v matches JsonView::Array(items) ==> forall|i: int|
            0 <= i < items.len() ==> bounded(#[trigger] items[i])
    } else if key == "properties"@ || key == "$defs"@ {
        v matches JsonView::Object(m) ==> forall|k: Seq<char>| #[trigger]
            m.dom().contains(k) ==> bounded(m[k])
    } else if key == "items"@ || key == "additionalProperties"@ {
        bounded(v)
    } else {
        true
    }
}

/// Every text that the schema allows has a longest length or is among given ones, every
/// list has a greatest length, and every object says what else it may hold.
pub open spec fn bounded(v: JsonView) -> bool
    decreases v, 0int,
{
    v matches JsonView::Object(m) ==> {
        &&& mentions_type(m, "string"@) ==> m.dom().contains("maxLength"@) || m.dom().contains(
            "enum"@,
        ) || m.dom().contains("const"@)
        &&& mentions_type(m, "array"@) ==> m.dom().contains("maxItems"@)
        &&& mentions_type(m, "object"@) ==> m.dom().contains("additionalProperties"@)
        &&& forall|k: Seq<char>| #[trigger] m.dom().contains(k) ==> bounded_member(m[k], k)
    }
}

proof fn lemma_member_bounded(
    v: JsonView,
    key: Seq<char>,
    field: Option<Seq<char>>,
    request_text_len: Option<usize>,
)
    ensures
        bounded_member(capped_member(v, key, field, request_text_len), key),
    decreases v, 1int,
{
    lemma_names();
    let c = capped_member(v, key, field, request_text_len);
    if key == "anyOf"@ || key == "oneOf"@ || key == "allOf"@ {
        match v {
            JsonView::Array(items) => {
                assert forall|i: int| 0 <= i < items.len() implies bounded(
                    #[trigger] c->Array_0[i],
                ) by {
                    law_capped_schemas_are_bounded(items[i], field, request_text_len);
                }
            },
            _ => {},
        }
    } else if key == "properties"@ {
        match v {
            JsonView::Object(m) => {
                assert forall|k: Seq<char>| #[trigger] c->Object_0.dom().contains(k) implies bounded(
                    c->Object_0[k],
                ) by {
                    law_capped_schemas_are_bounded(m[k], Some(k), request_text_len);
                }
            },
            _ => {},
        }
    } else if key == "$defs"@ {
        match v {
            JsonView::Object(m) => {
                assert forall|k: Seq<char>| #[trigger] c->Object_0.dom().contains(k) implies bounded(
                    c->Object_0[k],
                ) by {
                    law_capped_schemas_are_bounded(m[k], None, request_text_len);
                }
            },
            _ => {},
        }
    } else if key == "items"@ || key == "additionalProperties"@ {
        law_capped_schemas_are_bounded(v, field, request_text_len);
    }
}

/// In a capped schema nothing is without bounds, however deep it stands.
pub proof fn law_capped_schemas_are_bounded(
    v: JsonView,
    field: Option<Seq<char>>,
    request_text_len: Option<usize>,
)
    ensures
        bounded(capped_schema(v, field, request_text_len)),
    decreases v, 0int,
{
    lemma_names();
    match v {
        JsonView::Object(m) => {
            let c = capped_schema(v, field, request_text_len)->Object_0;
            assert(c.dom().contains("type"@) ==> m.dom().contains("type"@));
            if m.dom().contains("type"@) {
                lemma_capped_at(m, field, request_text_len, "type"@);
                assert(c["type"@] == m["type"@]);
                lemma_type_found(m, "string"@);
                lemma_type_found(m, "array"@);
                lemma_type_found(m, "object"@);
            }
            assert forall|k: Seq<char>| #[trigger] c.dom().contains(k) implies bounded_member(
                c[k],
                k,
            ) by {
                if m.dom().contains(k) {
                    lemma_capped_at(m, field, request_text_len, k);
                    lemma_member_bounded(m[k], k, field, request_text_len);
                }
            }
        },
        _ => {},
    }
}

proof fn lemma_type_found(m: Map<Seq<char>, JsonView>, name: Seq<char>)
    ensures
        mentions_type(m, name) ==> allows_type(m, name),
{
    if mentions_type(m, name) && m["type"@] != JsonView::Text(name) {
        let i = choose|i: int| #[trigger] item(m["type"@], i) == Some(JsonView::Text(name));
        assert(m["type"@]->Array_0[i] == JsonView::Text(name));
    }
}

/// The definitions that the parameters of a tool bring along.
pub open spec fn own_definitions(tool: ChatCompletionToolView) -> Map<Seq<char>, JsonView> {
    match tool.function.parameters {
        Some(parameters) => match member(parameters, "$defs"@) {
            Some(JsonView::Object(defs)) => defs,
            _ => Map::empty(),
        },
        None => Map::empty(),
    }
}

/// Tool `j` is the first that defines the key.
pub open spec fn defines_first(tools: Seq<ChatCompletionToolView>, key: Seq<char>, j: int) -> bool {
    &&& 0 <= j < tools.len()
    &&& own_definitions(tools[j]).dom().contains(key)
    &&& forall|k: int| 0 <= k < j ==> !own_definitions(#[trigger] tools[k]).dom().contains(key)
}

proof fn lemma_own(tool: ChatCompletionToolView)
    ensures
        defs_of(tool.function) matches Ok(defs) ==> defs == own_definitions(tool),
        defs_of(tool.function) matches Err(error) ==> error
            == ToolChoiceErrorView::InvalidDefinitionMap(tool.function.name),
{
    lemma_names();
}

/// A conflict can be told where there is one.
proof fn lemma_conflict_found(
    a: Map<Seq<char>, JsonView>,
    b: Map<Seq<char>, JsonView>,
    key: Seq<char>,
)
    requires
        merged_defs(a, b) == Err::<Map<Seq<char>, JsonView>, _>(
            ToolChoiceErrorView::ConflictingDefinition(key),
        ),
    ensures
        conflicts(a, b, key),
{
    let first = choose|first: Seq<char>| is_first_conflict(a, b, first);
    assert(is_first_conflict(a, b, first));
}

/// The keys of a definition map that is finite have a first one among those that differ.
proof fn lemma_some_first(
    a: Map<Seq<char>, JsonView>,
    b: Map<Seq<char>, JsonView>,
    keys: Set<Seq<char>>,
)
    requires
        keys.finite(),
        keys.len() > 0,
        forall|key: Seq<char>| #[trigger] keys.contains(key) ==> conflicts(a, b, key),
        forall|key: Seq<char>| #[trigger] conflicts(a, b, key) ==> keys.contains(key),
    ensures
        exists|key: Seq<char>| is_first_conflict(a, b, key),
{
    let key = lemma_least(keys);
    assert(is_first_conflict(a, b, key));
}

/// A finite set of texts has a first one.
proof fn lemma_least(keys: Set<Seq<char>>) -> (key: Seq<char>)
    requires
        keys.finite(),
        keys.len() > 0,
    ensures
        keys.contains(key),
        forall|other: Seq<char>| #[trigger] keys.contains(other) ==> other == key || text_less(
            key,
            other,
        ),
    decreases keys.len(),
{
    let some = keys.choose();
    let rest = keys.remove(some);
    if rest.len() == 0 {
        assert forall|other: Seq<char>| #[trigger] keys.contains(other) implies other == some by {
            if other != some {
                assert(rest.contains(other));
            }
        }
        some
    } else {
        let least = lemma_least(rest);
        lemma_less_total(some, least);
        if text_less(some, least) {
            assert forall|other: Seq<char>| #[trigger] keys.contains(other) implies other == some
                || text_less(some, other) by {
                if other != some {
                    assert(rest.contains(other));
                    if other != least {
                        lemma_less_transitive(some, least, other);
                    }
                }
            }
            some
        } else {
            assert forall|other: Seq<char>| #[trigger] keys.contains(other) implies other == least
                || text_less(least, other) by {
                if other != some {
                    assert(rest.contains(other));
                }
            }
            least
        }
    }
}

proof fn lemma_definitions(tools: Seq<ChatCompletionToolView>, n: nat, key: Seq<char>)
    requires
        n <= tools.len(),
        forall|i: int|
            0 <= i < tools.len() ==> (#[trigger] own_definitions(tools[i])).dom().finite(),
    ensures
        defs_of_first(tools, n) matches Ok(defs) ==> {
            &&& defs.dom().finite()
            &&& defs.dom().contains(key) <==> exists|i: int|
                0 <= i < n && (#[trigger] own_definitions(tools[i])).dom().contains(key)
            &&& forall|j: int|
                0 <= j < n && #[trigger] defines_first(tools, key, j) ==> defs[key]
                    == own_definitions(tools[j])[key]
            &&& forall|i: int|
                0 <= i < n && (#[trigger] own_definitions(tools[i])).dom().contains(key)
                    ==> values_agree(defs[key], own_definitions(tools[i])[key])
        },
        defs_of_first(tools, n) matches Err(error) ==> (error
            matches ToolChoiceErrorView::ConflictingDefinition(at) ==> exists|i: int, j: int|
            0 <= i < j < n && (#[trigger] own_definitions(tools[i])).dom().contains(at) && (
            #[trigger] own_definitions(tools[j])).dom().contains(at) && !values_agree(
                own_definitions(tools[i])[at],
                own_definitions(tools[j])[at],
            )),
    decreases n,
{
    if n > 0 {
        let m = (n - 1) as nat;
        let tool = tools[n - 1];
        let own = own_definitions(tool);
        lemma_definitions(tools, m, key);
        lemma_own(tool);
        match (defs_of_first(tools, m), defs_of(tool.function)) {
            (Ok(target), Ok(defs)) => {
                assert(own.dom().finite());
                match merged_defs(target, defs) {
                    Ok(merged) => {
                        if conflicts(target, defs, key) {
                            let keys = Set::new(|k: Seq<char>| conflicts(target, defs, k));
                            assert(keys.subset_of(target.dom()));
                            vstd::set_lib::lemma_len_subset(keys, target.dom());
                            assert(keys.contains(key));
                            if keys.len() == 0 {
                                assert(keys =~= Set::empty());
                            }
                            lemma_some_first(target, defs, keys);
                        }
                        if exists|i: int|
                            0 <= i < n && (#[trigger] own_definitions(tools[i])).dom().contains(
                                key,
                            ) {
                            let i = choose|i: int|
                                0 <= i < n && (#[trigger] own_definitions(tools[i])).dom().contains(
                                    key,
                                );
                            if i < m {
                                assert(own_definitions(tools[i]).dom().contains(key));
                            }
                        }
                        assert(merged.dom() =~= target.dom().union(defs.dom()));
                        lemma_self_agrees(own[key]);
                        assert forall|j: int|
                            0 <= j < n && #[trigger] defines_first(tools, key, j) implies merged[key]
                            == own_definitions(tools[j])[key] by {
                            if j < m {
                                assert(own_definitions(tools[j]).dom().contains(key));
                            } else if target.dom().contains(key) {
                                let i = choose|i: int|
                                    0 <= i < m && (#[trigger] own_definitions(
                                        tools[i],
                                    )).dom().contains(key);
                                assert(!own_definitions(tools[i]).dom().contains(key));
                            }
                        }
                    },
                    Err(error) => {
                        if let ToolChoiceErrorView::ConflictingDefinition(at) = error {
                            lemma_conflict_found(target, defs, at);
                            lemma_definitions(tools, m, at);
                            let i = lemma_first_definer(tools, m, at);
                            assert(defines_first(tools, at, i));
                            assert(own_definitions(tools[i])[at] == target[at]);
                            assert(own_definitions(tools[n - 1])[at] == defs[at]);
                        }
                    },
                }
            },
            _ => {},
        }
    }
}

proof fn lemma_first_definer(tools: Seq<ChatCompletionToolView>, n: nat, key: Seq<char>) -> (j: int)
    requires
        n <= tools.len(),
        exists|i: int| 0 <= i < n && (#[trigger] own_definitions(tools[i])).dom().contains(key),
    ensures
        0 <= j < n,
        defines_first(tools, key, j),
    decreases n,
{
    let i = choose|i: int| 0 <= i < n && (#[trigger] own_definitions(tools[i])).dom().contains(key);
    if exists|k: int| 0 <= k < i && (#[trigger] own_definitions(tools[k])).dom().contains(key) {
        lemma_first_definer(tools, i as nat, key)
    } else {
        assert forall|k: int| 0 <= k < i implies !own_definitions(
            #[trigger] tools[k],
        ).dom().contains(key) by {
            assert(!own_definitions(tools[k]).dom().contains(key));
        }
        i
    }
}

proof fn lemma_self_agrees(v: JsonView)
    ensures
        values_agree(v, v),
    decreases v,
{
    match v {
        JsonView::Array(items) => {
            assert forall|i: int| 0 <= i < items.len() implies values_agree(
                #[trigger] items[i],
                items[i],
            ) by {
                lemma_self_agrees(items[i]);
            }
        },
        JsonView::Object(m) => {
            assert forall|k: Seq<char>| #[trigger] m.dom().contains(k) implies values_agree(
                m[k],
                m[k],
            ) by {
                lemma_self_agrees(m[k]);
            }
        },
        _ => {},
    }
}

/// Where a tool is required, the definitions of all tools come along: what a tool defines
/// stands at the root, as a choice of the first tool that defines it would have it, and
/// all tools that define it agree. Where two tools do not agree, the name is told.
pub proof fn law_definitions_come_along(
    tools: Seq<ChatCompletionToolView>,
    request_text_len: Option<usize>,
    key: Seq<char>,
    j: int,
)
    requires
        forall|i: int|
            0 <= i < tools.len() ==> (#[trigger] own_definitions(tools[i])).dom().finite(),
        tools.len() > 0,
    ensures
        schema_for(
            Some(ChatCompletionToolChoiceOptionView::Required),
            Some(tools),
            request_text_len,
        ) matches Ok(Some(schema)) ==> {
            &&& under(schema, "$defs"@, key) is Some <==> exists|i: int|
                0 <= i < tools.len() && (#[trigger] own_definitions(tools[i])).dom().contains(key)
            &&& defines_first(tools, key, j) ==> under(schema, "$defs"@, key) == under(
                schema_alone(tools[j], request_text_len)->0,
                "$defs"@,
                key,
            )
            &&& defines_first(tools, key, j) ==> forall|i: int|
                0 <= i < tools.len() && (#[trigger] own_definitions(tools[i])).dom().contains(key)
                    ==> values_agree(own_definitions(tools[j])[key], own_definitions(tools[i])[key])
        },
        schema_for(
            Some(ChatCompletionToolChoiceOptionView::Required),
            Some(tools),
            request_text_len,
        ) matches Err(ToolChoiceErrorView::ConflictingDefinition(at)) ==> exists|i: int, k: int|
            0 <= i < k < tools.len() && (#[trigger] own_definitions(tools[i])).dom().contains(at)
                && (#[trigger] own_definitions(tools[k])).dom().contains(at) && !values_agree(
                own_definitions(tools[i])[at],
                own_definitions(tools[k])[at],
            ),
{
    let r = request_text_len;
    lemma_names();
    lemma_definitions(tools, tools.len(), key);
    if let Ok(defs) = defs_of_first(tools, tools.len()) {
        let root = calls_schema(tools, defs)->Object_0;
        let schema = capped_schema(JsonView::Object(root), None, r);
        if defs == Map::<Seq<char>, JsonView>::empty() {
            assert(!root.dom().contains("$defs"@));
            assert(member(schema, "$defs"@) is None);
        } else {
            lemma_capped_at(root, None, r, "$defs"@);
            assert(root["$defs"@] == JsonView::Object(defs));
        }
        if defines_first(tools, key, j) {
            assert(own_definitions(tools[j]).dom().contains(key));
            assert(seq![tools[j]][0] == tools[j]);
            let m = tools[j].function.parameters->0->Object_0;
            lemma_capped_at(m, None, r, "$defs"@);
        }
    }
}

} // verus!
