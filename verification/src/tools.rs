//! JSON schemas that guided decoding enforces for a tool choice.

use crate::copy::{outcome, Duplicate};
use crate::freeform::{has_freeform_text, schema_has_freeform_text_field, SchemaPart};
use crate::json::{
    fields_map, json_equal, lemma_fields_absent, lemma_fields_dom, lemma_fields_key,
    lemma_fields_last, lemma_fields_push, looked_up, member, values_agree, Json,
    JsonField, JsonMap, JsonNumberView, JsonView,
};
use crate::json_order::{
    canonicalize_json_value, keys_ascend, lemma_less_self, lemma_less_transitive, text_less,
};
use crate::request_types::{
    ChatCompletionTool, ChatCompletionToolChoiceOption, ChatCompletionToolChoiceOptionView,
    ChatCompletionToolView, FunctionObject, FunctionObjectView,
};
use crate::text::{join, same_text};
use vstd::prelude::*;

verus! {

pub const DEFAULT_GUIDED_TOOL_ARRAY_MAX_ITEMS: u64 = 16;

pub const DEFAULT_GUIDED_TOOL_STRING_MAX_LENGTH: u64 = 1024;

pub const DEFAULT_GUIDED_TOOL_SHORT_TEXT_MAX_LENGTH: u64 = 256;

pub const DEFAULT_GUIDED_TOOL_LONG_TEXT_MAX_LENGTH: u64 = 8192;

pub const GUIDED_TOOL_LONG_REQUEST_THRESHOLD: usize = 2048;

pub const GUIDED_TOOL_LONG_REQUEST_MARGIN: u64 = 512;

/// Errors that can occur when deriving JSON schemas for tool-choice requests.
#[derive(Debug, PartialEq, Eq)]
pub enum ToolChoiceError {
    /// The tool choice needs tools.
    MissingTools,
    /// The tool of that name is not among the tools.
    ToolNotFound(String),
    /// The definitions of the tool of that name are not an object.
    InvalidDefinitionMap(String),
    /// Two tools define that name differently.
    ConflictingDefinition(String),
    /// Some tool is required and there is none.
    EmptyTools,
}

/// The content of a [`ToolChoiceError`].
#[verifier::ext_equal]
pub enum ToolChoiceErrorView {
    MissingTools,
    ToolNotFound(Seq<char>),
    InvalidDefinitionMap(Seq<char>),
    ConflictingDefinition(Seq<char>),
    EmptyTools,
}

impl DeepView for ToolChoiceError {
    type V = ToolChoiceErrorView;

    open spec fn deep_view(&self) -> ToolChoiceErrorView {
        match self {
            ToolChoiceError::MissingTools => ToolChoiceErrorView::MissingTools,
            ToolChoiceError::ToolNotFound(name) => ToolChoiceErrorView::ToolNotFound(name@),
            ToolChoiceError::InvalidDefinitionMap(name) =>
                ToolChoiceErrorView::InvalidDefinitionMap(name@),
            ToolChoiceError::ConflictingDefinition(name) =>
                ToolChoiceErrorView::ConflictingDefinition(name@),
            ToolChoiceError::EmptyTools => ToolChoiceErrorView::EmptyTools,
        }
    }
}

/// The text of an error.
pub open spec fn error_message(error: ToolChoiceErrorView) -> Seq<char> {
    match error {
        ToolChoiceErrorView::MissingTools => "tool_choice requires a matching `tools` array"@,
        ToolChoiceErrorView::ToolNotFound(name) => "tool `"@ + name
            + "` was not provided in `tools`"@,
        ToolChoiceErrorView::InvalidDefinitionMap(name) => "$defs for tool `"@ + name
            + "` must be an object"@,
        ToolChoiceErrorView::ConflictingDefinition(name) => "duplicate $defs entry `"@ + name
            + "` has conflicting schemas"@,
        ToolChoiceErrorView::EmptyTools =>
            "tool_choice `required` needs at least one tool definition"@,
    }
}

impl ToolChoiceError {
    /// The text of the error.
    pub fn message(&self) -> (r: String)
        ensures
            r@ == error_message(self.deep_view()),
    {
        match self {
            ToolChoiceError::MissingTools =>
                "tool_choice requires a matching `tools` array".to_owned(),
            ToolChoiceError::ToolNotFound(name) => join(
                join("tool `", name.as_str()).as_str(),
                "` was not provided in `tools`",
            ),
            ToolChoiceError::InvalidDefinitionMap(name) => join(
                join("$defs for tool `", name.as_str()).as_str(),
                "` must be an object",
            ),
            ToolChoiceError::ConflictingDefinition(name) => join(
                join("duplicate $defs entry `", name.as_str()).as_str(),
                "` has conflicting schemas",
            ),
            ToolChoiceError::EmptyTools =>
                "tool_choice `required` needs at least one tool definition".to_owned(),
        }
    }
}

/// A JSON number.
pub open spec fn json_int(n: int) -> JsonView {
    JsonView::Number(JsonNumberView::Integer(n))
}

/// How long free text in a tool call may be: short, unless the request is long.
pub open spec fn text_budget(request_text_len: Option<usize>) -> int {
    match request_text_len {
        None => DEFAULT_GUIDED_TOOL_SHORT_TEXT_MAX_LENGTH as int,
        Some(n) => if n < GUIDED_TOOL_LONG_REQUEST_THRESHOLD {
            DEFAULT_GUIDED_TOOL_SHORT_TEXT_MAX_LENGTH as int
        } else if n + GUIDED_TOOL_LONG_REQUEST_MARGIN
            > DEFAULT_GUIDED_TOOL_LONG_TEXT_MAX_LENGTH {
            DEFAULT_GUIDED_TOOL_LONG_TEXT_MAX_LENGTH as int
        } else {
            n + GUIDED_TOOL_LONG_REQUEST_MARGIN
        },
    }
}

/// A field that holds free text.
pub open spec fn is_long_text_field(name: Seq<char>) -> bool {
    name == "body"@ || name == "content"@ || name == "message"@
}

/// How long the string in a field may be.
pub open spec fn string_budget(field: Option<Seq<char>>, request_text_len: Option<usize>) -> int {
    match field {
        None => DEFAULT_GUIDED_TOOL_STRING_MAX_LENGTH as int,
        Some(name) => if is_long_text_field(name) {
            text_budget(request_text_len)
        } else if name == "query"@ || name == "sql"@ {
            4096
        } else if name == "expression"@ {
            256
        } else if name == "subject"@ || name == "title"@ {
            512
        } else if name == "to"@ || name == "from"@ || name == "email"@ {
            320
        } else {
            DEFAULT_GUIDED_TOOL_STRING_MAX_LENGTH as int
        },
    }
}

/// A budget lies between the shortest and the longest text.
pub proof fn law_budgets_are_bounded(
    field: Option<Seq<char>>,
    request_text_len: Option<usize>,
)
    ensures
        DEFAULT_GUIDED_TOOL_SHORT_TEXT_MAX_LENGTH <= string_budget(field, request_text_len)
            <= DEFAULT_GUIDED_TOOL_LONG_TEXT_MAX_LENGTH,
{
}

/// A longer request does not get a smaller budget.
pub proof fn law_budgets_grow_with_the_request(
    field: Option<Seq<char>>,
    shorter: usize,
    longer: usize,
)
    requires
        shorter <= longer,
    ensures
        string_budget(field, None) <= string_budget(field, Some(shorter)),
        string_budget(field, Some(shorter)) <= string_budget(field, Some(longer)),
{
}

/// How long free text in a tool call may be.
pub fn guided_tool_text_budget(request_text_len: Option<usize>) -> (r: u64)
    ensures
        r == text_budget(request_text_len),
{
    match request_text_len {
        None => DEFAULT_GUIDED_TOOL_SHORT_TEXT_MAX_LENGTH,
        Some(n) => if n < GUIDED_TOOL_LONG_REQUEST_THRESHOLD {
            DEFAULT_GUIDED_TOOL_SHORT_TEXT_MAX_LENGTH
        } else {
            let wide: u64 = (n as u64).saturating_add(GUIDED_TOOL_LONG_REQUEST_MARGIN);
            if wide > DEFAULT_GUIDED_TOOL_LONG_TEXT_MAX_LENGTH {
                DEFAULT_GUIDED_TOOL_LONG_TEXT_MAX_LENGTH
            } else {
                wide
            }
        },
    }
}

/// How long the string in a field may be.
pub fn guided_tool_string_budget(field_name: Option<&str>, request_text_len: Option<usize>) -> (r:
    u64)
    ensures
        r == string_budget(field_name.deep_view(), request_text_len),
{
    match field_name {
        None => DEFAULT_GUIDED_TOOL_STRING_MAX_LENGTH,
        Some(name) => if same_text(name, "body") || same_text(name, "content") || same_text(
            name,
            "message",
        ) {
            guided_tool_text_budget(request_text_len)
        } else if same_text(name, "query") || same_text(name, "sql") {
            4096
        } else if same_text(name, "expression") {
            256
        } else if same_text(name, "subject") || same_text(name, "title") {
            512
        } else if same_text(name, "to") || same_text(name, "from") || same_text(name, "email") {
            320
        } else {
            DEFAULT_GUIDED_TOOL_STRING_MAX_LENGTH
        },
    }
}

/// The schema allows values of the type `expected`.
pub open spec fn allows_type(m: Map<Seq<char>, JsonView>, expected: Seq<char>) -> bool {
    match looked_up(m, "type"@) {
        Some(JsonView::Text(t)) => t == expected,
        Some(JsonView::Array(types)) => exists|i: int|
            0 <= i < types.len() && #[trigger] types[i] == JsonView::Text(expected),
        _ => false,
    }
}

/// The schema object with the limits that it lacks.
pub open spec fn limited(
    base: Map<Seq<char>, JsonView>,
    m: Map<Seq<char>, JsonView>,
    field: Option<Seq<char>>,
    request_text_len: Option<usize>,
) -> Map<Seq<char>, JsonView> {
    let with_length = if allows_type(m, "string"@) && !m.dom().contains("maxLength"@)
        && !m.dom().contains("enum"@) && !m.dom().contains("const"@) {
        base.insert("maxLength"@, json_int(string_budget(field, request_text_len)))
    } else {
        base
    };
    let with_items = if allows_type(m, "array"@) && !m.dom().contains("maxItems"@) {
        with_length.insert("maxItems"@, json_int(DEFAULT_GUIDED_TOOL_ARRAY_MAX_ITEMS as int))
    } else {
        with_length
    };
    if allows_type(m, "object"@) && !m.dom().contains("additionalProperties"@) {
        with_items.insert("additionalProperties"@, JsonView::Bool(false))
    } else {
        with_items
    }
}

/// A schema with limits on strings and arrays, and no members that it does not
/// name, wherever it does not say otherwise.
pub open spec fn capped_schema(
    v: JsonView,
    field: Option<Seq<char>>,
    request_text_len: Option<usize>,
) -> JsonView
    decreases v, 0int,
{
    match v {
        JsonView::Object(m) => JsonView::Object(
            limited(
                Map::new(
                    |k: Seq<char>| m.dom().contains(k),
                    |k: Seq<char>|
                        if m.dom().contains(k) {
                            capped_member(m[k], k, field, request_text_len)
                        } else {
                            JsonView::Null
                        },
                ),
                m,
                field,
                request_text_len,
            ),
        ),
        other => other,
    }
}

/// A member of a schema, with the schemas in it capped.
pub open spec fn capped_member(
    v: JsonView,
    key: Seq<char>,
    field: Option<Seq<char>>,
    request_text_len: Option<usize>,
) -> JsonView
    decreases v, 1int,
{
    if key == "anyOf"@ || key == "oneOf"@ || key == "allOf"@ {
        match v {
            JsonView::Array(items) => JsonView::Array(
                Seq::new(
                    items.len(),
                    |i: int|
                        if 0 <= i < items.len() {
                            capped_schema(items[i], field, request_text_len)
                        } else {
                            JsonView::Null
                        },
                ),
            ),
            other => other,
        }
    } else if key == "properties"@ {
        match v {
            JsonView::Object(m) => JsonView::Object(
                Map::new(
                    |k: Seq<char>| m.dom().contains(k),
                    |k: Seq<char>|
                        if m.dom().contains(k) {
                            capped_schema(m[k], Some(k), request_text_len)
                        } else {
                            JsonView::Null
                        },
                ),
            ),
            other => other,
        }
    } else if key == "items"@ || key == "additionalProperties"@ {
        capped_schema(v, field, request_text_len)
    } else if key == "$defs"@ {
        match v {
            JsonView::Object(m) => JsonView::Object(
                Map::new(
                    |k: Seq<char>| m.dom().contains(k),
                    |k: Seq<char>|
                        if m.dom().contains(k) {
                            capped_schema(m[k], None, request_text_len)
                        } else {
                            JsonView::Null
                        },
                ),
            ),
            other => other,
        }
    } else {
        v
    }
}

/// Members changed one by one: each under its key.
pub open spec fn mapped(
    m: Map<Seq<char>, JsonView>,
    f: spec_fn(Seq<char>, JsonView) -> JsonView,
) -> Map<Seq<char>, JsonView> {
    Map::new(|k: Seq<char>| m.dom().contains(k), |k: Seq<char>| f(k, m[k]))
}

/// Changing each member of a list changes each member of its map.
proof fn lemma_fields_mapped(
    fields: Seq<JsonField>,
    out: Seq<JsonField>,
    f: spec_fn(Seq<char>, JsonView) -> JsonView,
)
    requires
        fields.len() == out.len(),
        forall|i: int|
            0 <= i < fields.len() ==> (#[trigger] out[i]).key@ == fields[i].key@
                && out[i].value.model() == f(fields[i].key@, fields[i].value.model()),
    ensures
        fields_map(out) == mapped(fields_map(fields), f),
    decreases fields.len(),
{
    if fields.len() == 0 {
        assert(fields_map(out) =~= mapped(fields_map(fields), f));
    } else {
        let n = fields.len() - 1;
        let front = fields.subrange(0, n);
        let front_out = out.subrange(0, n);
        assert forall|i: int| 0 <= i < front.len() implies (#[trigger] front_out[i]).key@
            == front[i].key@ && front_out[i].value.model() == f(
            front[i].key@,
            front[i].value.model(),
        ) by {
            assert(front_out[i] == out[i] && front[i] == fields[i]);
        }
        lemma_fields_mapped(front, front_out, f);
        assert(out[n].key@ == fields[n].key@);
        assert(fields_map(out) =~= mapped(fields_map(fields), f));
    }
}

/// Whether a schema allows values of the type `expected`.
pub fn schema_type_includes(schema: &Json, expected: &str) -> (r: bool)
    requires
        schema@ is Object,
    ensures
        r == allows_type(schema@->Object_0, expected@),
{
    match schema.get("type") {
        Some(Json::Text(t)) => same_text(t.as_str(), expected),
        Some(Json::Array(types)) => {
            let ghost all = Json::Array(*types)@->Array_0;
            let mut i: usize = 0;
            while i < types.len()
                invariant
                    all == Json::Array(*types)@->Array_0,
                    schema@ is Object,
                    looked_up(schema@->Object_0, "type"@) == Some(JsonView::Array(all)),
                    i <= types@.len(),
                    forall|k: int| 0 <= k < i ==> #[trigger] all[k] != JsonView::Text(expected@),
                decreases types@.len() - i,
            {
                assert(all[i as int] == types@[i as int]@);
                match &types[i] {
                    Json::Text(t) => {
                        if same_text(t.as_str(), expected) {
                            assert(all[i as int] == JsonView::Text(expected@));
                            return true;
                        }
                    },
                    _ => {},
                }
                i += 1;
            }
            false
        },
        _ => false,
    }
}

/// Caps every item of a list of schemas.
fn cap_items(
    items: &Vec<Json>,
    field_name: Option<&str>,
    request_text_len: Option<usize>,
) -> (r: Vec<Json>)
    ensures
        r@.len() == items@.len(),
        forall|k: int|
            0 <= k < items@.len() ==> (#[trigger] r@[k])@ == capped_schema(
                items@[k]@,
                field_name.deep_view(),
                request_text_len,
            ),
    decreases items, 0int,
{
    let mut out: Vec<Json> = Vec::new();
    let mut i: usize = 0;
    while i < items.len()
        invariant
            i <= items@.len(),
            out@.len() == i,
            forall|k: int|
                0 <= k < i ==> (#[trigger] out@[k])@ == capped_schema(
                    items@[k]@,
                    field_name.deep_view(),
                    request_text_len,
                ),
        decreases items@.len() - i,
    {
        assert(decreases_to!(*items => items@[i as int]));
        out.push(cap_guided_tool_schema(&items[i], field_name, request_text_len));
        i += 1;
    }
    out
}

/// Caps the schema under every name; with `named`, the name is that of a field.
fn cap_named(fields: &Vec<JsonField>, named: bool, request_text_len: Option<usize>) -> (r: Vec<
    JsonField,
>)
    ensures
        fields_map(r@) == mapped(
            fields_map(fields@),
            |k: Seq<char>, v: JsonView|
                capped_schema(
                    v,
                    if named {
                        Some(k)
                    } else {
                        None
                    },
                    request_text_len,
                ),
        ),
    decreases fields, 0int,
{
    let ghost f = |k: Seq<char>, v: JsonView|
        capped_schema(
            v,
            if named {
                Some(k)
            } else {
                None
            },
            request_text_len,
        );
    let mut out: Vec<JsonField> = Vec::new();
    let mut i: usize = 0;
    while i < fields.len()
        invariant
            i <= fields@.len(),
            out@.len() == i,
            f == (|k: Seq<char>, v: JsonView|
                capped_schema(
                    v,
                    if named {
                        Some(k)
                    } else {
                        None
                    },
                    request_text_len,
                )),
            forall|k: int|
                0 <= k < i ==> (#[trigger] out@[k]).key@ == fields@[k].key@
                    && out@[k].value.model() == f(fields@[k].key@, fields@[k].value.model()),
        decreases fields@.len() - i,
    {
        assert(decreases_to!(*fields => fields@[i as int]));
        assert(decreases_to!(fields@[i as int] => fields@[i as int].value));
        let field_name: Option<&str> = if named {
            Some(fields[i].key.as_str())
        } else {
            None
        };
        let value: Json = cap_guided_tool_schema(&fields[i].value, field_name, request_text_len);
        out.push(JsonField { key: fields[i].key.clone(), value });
        i += 1;
    }
    proof {
        lemma_fields_mapped(fields@, out@, f);
    }
    out
}

/// Caps the schemas in a member of a schema.
fn cap_member(
    value: &Json,
    key: &str,
    field_name: Option<&str>,
    request_text_len: Option<usize>,
) -> (r: Json)
    ensures
        r@ == capped_member(value@, key@, field_name.deep_view(), request_text_len),
    decreases value, 1int,
{
    if same_text(key, "anyOf") || same_text(key, "oneOf") || same_text(key, "allOf") {
        match value {
            Json::Array(items) => {
                assert(decreases_to!(value => value->Array_0));
                let r: Json = Json::Array(cap_items(items, field_name, request_text_len));
                assert(r@->Array_0 =~= capped_member(
                    value@,
                    key@,
                    field_name.deep_view(),
                    request_text_len,
                )->Array_0);
                r
            },
            _ => value.duplicate(),
        }
    } else if same_text(key, "properties") {
        match value {
            Json::Object(fields) => {
                assert(decreases_to!(value => value->Object_0));
                let r: Json = Json::Object(cap_named(fields, true, request_text_len));
                assert(r@->Object_0 =~= capped_member(
                    value@,
                    key@,
                    field_name.deep_view(),
                    request_text_len,
                )->Object_0);
                r
            },
            _ => value.duplicate(),
        }
    } else if same_text(key, "items") || same_text(key, "additionalProperties") {
        cap_guided_tool_schema(value, field_name, request_text_len)
    } else if same_text(key, "$defs") {
        match value {
            Json::Object(fields) => {
                assert(decreases_to!(value => value->Object_0));
                let r: Json = Json::Object(cap_named(fields, false, request_text_len));
                assert(r@->Object_0 =~= capped_member(
                    value@,
                    key@,
                    field_name.deep_view(),
                    request_text_len,
                )->Object_0);
                r
            },
            _ => value.duplicate(),
        }
    } else {
        value.duplicate()
    }
}

/// A schema with limits on strings and arrays, and no members that it does not
/// name, wherever it does not say otherwise.
pub fn cap_guided_tool_schema(
    value: &Json,
    field_name: Option<&str>,
    request_text_len: Option<usize>,
) -> (r: Json)
    ensures
        r@ == capped_schema(value@, field_name.deep_view(), request_text_len),
    decreases value, 0int,
{
    let fields: &Vec<JsonField> = match value {
        Json::Object(fields) => fields,
        _ => {
            return value.duplicate();
        },
    };
    let ghost m = fields_map(fields@);
    let ghost field = field_name.deep_view();
    let ghost f = |k: Seq<char>, v: JsonView| capped_member(v, k, field, request_text_len);
    let mut out: Vec<JsonField> = Vec::new();
    let mut i: usize = 0;
    while i < fields.len()
        invariant
            *value == Json::Object(*fields),
            i <= fields@.len(),
            out@.len() == i,
            field == field_name.deep_view(),
            f == (|k: Seq<char>, v: JsonView| capped_member(v, k, field, request_text_len)),
            forall|k: int|
                0 <= k < i ==> (#[trigger] out@[k]).key@ == fields@[k].key@
                    && out@[k].value.model() == f(fields@[k].key@, fields@[k].value.model()),
        decreases fields@.len() - i,
    {
        assert(decreases_to!(value => value->Object_0));
        assert(decreases_to!(*fields => fields@[i as int]));
        assert(decreases_to!(fields@[i as int] => fields@[i as int].value));
        let inner: Json = cap_member(
            &fields[i].value,
            fields[i].key.as_str(),
            field_name,
            request_text_len,
        );
        out.push(JsonField { key: fields[i].key.clone(), value: inner });
        i += 1;
    }
    proof {
        lemma_fields_mapped(fields@, out@, f);
        assert(fields_map(out@) =~= Map::new(
            |k: Seq<char>| m.dom().contains(k),
            |k: Seq<char>|
                if m.dom().contains(k) {
                    capped_member(m[k], k, field, request_text_len)
                } else {
                    JsonView::Null
                },
        ));
    }
    let mut r: Json = Json::Object(out);
    let ghost base = r@->Object_0;
    assert(r@ == JsonView::Object(base));
    if schema_type_includes(value, "string") && value.get("maxLength").is_none() && value.get(
        "enum",
    ).is_none() && value.get("const").is_none() {
        r.set(
            "maxLength",
            Json::unsigned(guided_tool_string_budget(field_name, request_text_len)),
        );
    }
    if schema_type_includes(value, "array") && value.get("maxItems").is_none() {
        r.set("maxItems", Json::unsigned(DEFAULT_GUIDED_TOOL_ARRAY_MAX_ITEMS));
    }
    if schema_type_includes(value, "object") && value.get("additionalProperties").is_none() {
        r.set("additionalProperties", Json::Bool(false));
    }
    assert(r@ == JsonView::Object(limited(base, m, field, request_text_len)));
    assert(r@->Object_0 =~= capped_schema(value@, field, request_text_len)->Object_0);
    r
}

/// A schema with limits wherever it does not say otherwise.
pub fn bound_guided_tool_schema(schema: &Json, request_text_len: Option<usize>) -> (r: Json)
    ensures
        r@ == capped_schema(schema@, None, request_text_len),
{
    cap_guided_tool_schema(schema, None, request_text_len)
}


/// The parameters of a function; those of a function that names none are empty.
pub open spec fn parameters_of(function: FunctionObjectView) -> JsonView {
    match function.parameters {
        Some(parameters) => parameters,
        None => JsonView::Object(
            Map::empty().insert("type"@, JsonView::Text("object"@)).insert(
                "properties"@,
                JsonView::Object(Map::empty()),
            ),
        ),
    }
}

/// The first tool of that name.
pub open spec fn tool_named(tools: Seq<ChatCompletionToolView>, name: Seq<char>) -> Option<
    ChatCompletionToolView,
>
    decreases tools.len(),
{
    if tools.len() == 0 {
        None
    } else if tools[0].function.name == name {
        Some(tools[0])
    } else {
        tool_named(tools.subrange(1, tools.len() as int), name)
    }
}

/// The position of the first tool of that name.
pub(crate) fn find_tool(tools: &[ChatCompletionTool], name: &str) -> (r: Option<usize>)
    ensures
        r matches Some(i) ==> i < tools@.len() && tool_named(tools.deep_view(), name@) == Some(
            tools@[i as int].deep_view(),
        ),
        r is None ==> tool_named(tools.deep_view(), name@) is None,
{
    let ghost all = tools.deep_view();
    let mut i: usize = 0;
    assert(all.subrange(0, all.len() as int) =~= all);
    while i < tools.len()
        invariant
            all == tools.deep_view(),
            all.len() == tools@.len(),
            i <= all.len(),
            tool_named(all, name@) == tool_named(all.subrange(i as int, all.len() as int), name@),
        decreases all.len() - i,
    {
        let ghost rest = all.subrange(i as int, all.len() as int);
        assert(rest[0] == tools@[i as int].deep_view());
        assert(rest.subrange(1, rest.len() as int) =~= all.subrange(i + 1, all.len() as int));
        if same_text(tools[i].function.name.as_str(), name) {
            return Some(i);
        }
        i += 1;
    }
    None
}

/// The parameters of a function; those of a function that names none are empty.
fn clone_parameters(function: &FunctionObject) -> (r: Json)
    ensures
        r@ == parameters_of(function.deep_view()),
{
    match &function.parameters {
        Some(parameters) => parameters.duplicate(),
        None => Json::empty_object().with("type", Json::text("object")).with(
            "properties",
            Json::empty_object(),
        ),
    }
}

/// Whether a tool is forced whose schema has a property for free text.
pub open spec fn forces_freeform_text(
    tool_choice: Option<ChatCompletionToolChoiceOptionView>,
    tools: Option<Seq<ChatCompletionToolView>>,
) -> bool {
    match (tool_choice, tools) {
        (Some(ChatCompletionToolChoiceOptionView::Named(name)), Some(tools)) => {
            match tool_named(tools, name) {
                Some(tool) => match tool.function.parameters {
                    Some(parameters) => has_freeform_text(parameters, SchemaPart::Schema),
                    None => false,
                },
                None => false,
            }
        },
        _ => false,
    }
}

/// Whether a tool is forced whose schema has a property for free text. A JSON
/// schema suits such a tool better than a structural tag, which holds back the
/// whole call until the text ends.
pub fn named_tool_choice_has_freeform_text_field(
    tool_choice: Option<&ChatCompletionToolChoiceOption>,
    tools: Option<&[ChatCompletionTool]>,
) -> (r: bool)
    ensures
        r == forces_freeform_text(tool_choice.deep_view(), tools.deep_view()),
{
    match (tool_choice, tools) {
        (Some(ChatCompletionToolChoiceOption::Named(name)), Some(tools)) => {
            match find_tool(tools, name.as_str()) {
                Some(i) => match &tools[i].function.parameters {
                    Some(parameters) => schema_has_freeform_text_field(parameters),
                    None => false,
                },
                None => false,
            }
        },
        _ => false,
    }
}

/// A list with one text in it.
pub open spec fn one_text(t: Seq<char>) -> JsonView {
    JsonView::Array(seq![JsonView::Text(t)])
}

/// A list with one value in it.
fn json_list(value: Json) -> (r: Json)
    ensures
        r@ == JsonView::Array(seq![value@]),
{
    let mut items: Vec<Json> = Vec::new();
    items.push(value);
    let r: Json = Json::Array(items);
    assert(r@->Array_0 =~= seq![value@]);
    r
}

/// The tag that frames a call of the tool in the Qwen XML form, around arguments
/// that meet the tool's capped parameters.
pub open spec fn tool_tag(tool: ChatCompletionToolView, request_text_len: Option<usize>) -> JsonView {
    JsonView::Object(
        Map::empty().insert("type"@, JsonView::Text("tag"@)).insert(
            "begin"@,
            JsonView::Text("<tool_call>\n<function="@ + tool.function.name + ">\n"@),
        ).insert(
            "content"@,
            JsonView::Object(
                Map::empty().insert("type"@, JsonView::Text("json_schema"@)).insert(
                    "json_schema"@,
                    capped_schema(parameters_of(tool.function), None, request_text_len),
                ).insert("style"@, JsonView::Text("qwen_xml"@)),
            ),
        ).insert("end"@, JsonView::Text("\n</function>\n</tool_call>"@)),
    )
}

/// The tag that frames a call of the tool in the Qwen XML form.
fn qwen_xml_tool_tag(tool: &ChatCompletionTool, request_text_len: Option<usize>) -> (r: Json)
    ensures
        r@ == tool_tag(tool.deep_view(), request_text_len),
{
    let begin: String = join(
        join("<tool_call>\n<function=", tool.function.name.as_str()).as_str(),
        ">\n",
    );
    let schema: Json = bound_guided_tool_schema(
        &clone_parameters(&tool.function),
        request_text_len,
    );
    let content: Json = Json::empty_object().with("type", Json::text("json_schema")).with(
        "json_schema",
        schema,
    ).with("style", Json::text("qwen_xml"));
    Json::empty_object().with("type", Json::text("tag")).with(
        "begin",
        Json::text(begin.as_str()),
    ).with("content", content).with("end", Json::text("\n</function>\n</tool_call>"))
}

/// A structural tag of that format.
pub open spec fn structural_tag(format: Map<Seq<char>, JsonView>) -> JsonView {
    JsonView::Object(
        Map::empty().insert("type"@, JsonView::Text("structural_tag"@)).insert(
            "format"@,
            JsonView::Object(format),
        ),
    )
}

/// The format that allows one call of one tool.
pub open spec fn single_call_format(tag: JsonView) -> Map<Seq<char>, JsonView> {
    Map::empty().insert("type"@, JsonView::Text("tags_with_separator"@)).insert(
        "tags"@,
        JsonView::Array(seq![tag]),
    ).insert("triggers"@, one_text(""@)).insert("separator"@, JsonView::Text(""@)).insert(
        "at_least_one"@,
        JsonView::Bool(true),
    ).insert("stop_after_first"@, JsonView::Bool(true))
}

/// The format that allows at least one and at most `max` calls, each of some tool.
pub open spec fn repeated_call_format(tags: Seq<JsonView>, max: int) -> Map<Seq<char>, JsonView> {
    Map::empty().insert("type"@, JsonView::Text("repeat"@)).insert("min"@, json_int(1)).insert(
        "max"@,
        json_int(max),
    ).insert("triggers"@, one_text(""@)).insert(
        "content"@,
        JsonView::Object(
            Map::empty().insert("type"@, JsonView::Text("or"@)).insert(
                "elements"@,
                JsonView::Array(tags),
            ),
        ),
    )
}

/// The structural tag for a tool choice: of a named tool one call, of required tools
/// one call where there is one tool, else at most as many as there are tools, and
/// never more than the limit of arrays. `None` for choices that force nothing.
pub open spec fn structural_tag_for(
    tool_choice: Option<ChatCompletionToolChoiceOptionView>,
    tools: Option<Seq<ChatCompletionToolView>>,
    request_text_len: Option<usize>,
) -> Result<Option<JsonView>, ToolChoiceErrorView> {
    match tool_choice {
        Some(ChatCompletionToolChoiceOptionView::Named(name)) => match tools {
            None => Err(ToolChoiceErrorView::MissingTools),
            Some(tools) => match tool_named(tools, name) {
                None => Err(ToolChoiceErrorView::ToolNotFound(name)),
                Some(tool) => Ok(
                    Some(structural_tag(single_call_format(tool_tag(tool, request_text_len)))),
                ),
            },
        },
        Some(ChatCompletionToolChoiceOptionView::Required) => match tools {
            None => Err(ToolChoiceErrorView::MissingTools),
            Some(tools) => if tools.len() == 0 {
                Err(ToolChoiceErrorView::EmptyTools)
            } else if tools.len() == 1 {
                Ok(Some(structural_tag(single_call_format(tool_tag(tools[0], request_text_len)))))
            } else {
                Ok(
                    Some(
                        structural_tag(
                            repeated_call_format(
                                Seq::new(
                                    tools.len(),
                                    |i: int| tool_tag(tools[i], request_text_len),
                                ),
                                if tools.len() < DEFAULT_GUIDED_TOOL_ARRAY_MAX_ITEMS {
                                    tools.len() as int
                                } else {
                                    DEFAULT_GUIDED_TOOL_ARRAY_MAX_ITEMS as int
                                },
                            ),
                        ),
                    ),
                )
            },
        },
        _ => Ok(None),
    }
}

/// A structural tag that allows one call of the tool.
fn single_call_tag(tool: &ChatCompletionTool, request_text_len: Option<usize>) -> (r: Json)
    ensures
        r@ == structural_tag(single_call_format(tool_tag(tool.deep_view(), request_text_len))),
{
    let format: Json = Json::empty_object().with("type", Json::text("tags_with_separator")).with(
        "tags",
        json_list(qwen_xml_tool_tag(tool, request_text_len)),
    ).with("triggers", json_list(Json::text(""))).with("separator", Json::text("")).with(
        "at_least_one",
        Json::Bool(true),
    ).with("stop_after_first", Json::Bool(true));
    Json::empty_object().with("type", Json::text("structural_tag")).with("format", format)
}

/// The structural-tag constraint that matches Qwen-style XML tool calls.
pub fn get_qwen_xml_structural_tag_from_tools(
    tool_choice: Option<&ChatCompletionToolChoiceOption>,
    tools: Option<&[ChatCompletionTool]>,
    request_text_len: Option<usize>,
) -> (r: Result<Option<Json>, ToolChoiceError>)
    ensures
        outcome(r) == structural_tag_for(
            tool_choice.deep_view(),
            tools.deep_view(),
            request_text_len,
        ),
{
    match tool_choice {
        Some(ChatCompletionToolChoiceOption::Named(name)) => match tools {
            None => Err(ToolChoiceError::MissingTools),
            Some(tools) => match find_tool(tools, name.as_str()) {
                None => Err(ToolChoiceError::ToolNotFound(name.clone())),
                Some(i) => Ok(Some(single_call_tag(&tools[i], request_text_len))),
            },
        },
        Some(ChatCompletionToolChoiceOption::Required) => match tools {
            None => Err(ToolChoiceError::MissingTools),
            Some(tools) => {
                if tools.len() == 0 {
                    return Err(ToolChoiceError::EmptyTools);
                }
                if tools.len() == 1 {
                    return Ok(Some(single_call_tag(&tools[0], request_text_len)));
                }
                let ghost all = tools.deep_view();
                let mut tags: Vec<Json> = Vec::new();
                let mut i: usize = 0;
                while i < tools.len()
                    invariant
                        all == tools.deep_view(),
                        all.len() == tools@.len(),
                        i <= tools@.len(),
                        tags@.len() == i,
                        forall|k: int|
                            0 <= k < i ==> (#[trigger] tags@[k])@ == tool_tag(
                                all[k],
                                request_text_len,
                            ),
                    decreases tools@.len() - i,
                {
                    tags.push(qwen_xml_tool_tag(&tools[i], request_text_len));
                    i += 1;
                }
                let mut max: u64 = DEFAULT_GUIDED_TOOL_ARRAY_MAX_ITEMS;
                if tags.len() < 16 {
                    max = tags.len() as u64;
                }
                let elements: Json = Json::Array(tags);
                assert(elements@->Array_0 =~= Seq::new(
                    all.len(),
                    |i: int| tool_tag(all[i], request_text_len),
                ));
                let content: Json = Json::empty_object().with("type", Json::text("or")).with(
                    "elements",
                    elements,
                );
                let format: Json = Json::empty_object().with("type", Json::text("repeat")).with(
                    "min",
                    Json::unsigned(1),
                ).with("max", Json::unsigned(max)).with("triggers", json_list(Json::text(""))).with(
                    "content",
                    content,
                );
                Ok(
                    Some(
                        Json::empty_object().with("type", Json::text("structural_tag")).with(
                            "format",
                            format,
                        ),
                    ),
                )
            },
        },
        _ => Ok(None),
    }
}

/// Both maps have the key, and not with the same value.
pub open spec fn conflicts(
    a: Map<Seq<char>, JsonView>,
    b: Map<Seq<char>, JsonView>,
    key: Seq<char>,
) -> bool {
    a.dom().contains(key) && b.dom().contains(key) && !values_agree(a[key], b[key])
}

/// The key is a conflict, and no other conflict comes before it.
pub open spec fn is_first_conflict(
    a: Map<Seq<char>, JsonView>,
    b: Map<Seq<char>, JsonView>,
    key: Seq<char>,
) -> bool {
    conflicts(a, b, key) && forall|other: Seq<char>| #[trigger]
        conflicts(a, b, other) ==> other == key || text_less(key, other)
}

/// The definitions of both maps, or the first key that they define differently. Where both
/// have a key, the definition of the first map stays.
pub open spec fn merged_defs(
    a: Map<Seq<char>, JsonView>,
    b: Map<Seq<char>, JsonView>,
) -> Result<Map<Seq<char>, JsonView>, ToolChoiceErrorView> {
    if exists|key: Seq<char>| is_first_conflict(a, b, key) {
        Err(
            ToolChoiceErrorView::ConflictingDefinition(
                choose|key: Seq<char>| is_first_conflict(a, b, key),
            ),
        )
    } else {
        Ok(b.union_prefer_right(a))
    }
}

/// The definitions that the parameters of a function bring along.
pub open spec fn defs_of(function: FunctionObjectView) -> Result<
    Map<Seq<char>, JsonView>,
    ToolChoiceErrorView,
> {
    match member(parameters_of(function), "$defs"@) {
        Some(JsonView::Object(defs)) => Ok(defs),
        Some(_) => Err(ToolChoiceErrorView::InvalidDefinitionMap(function.name)),
        None => Ok(Map::empty()),
    }
}

/// A schema without the definitions that it brings along.
pub open spec fn without_defs(schema: JsonView) -> JsonView {
    match schema {
        JsonView::Object(m) => JsonView::Object(m.remove("$defs"@)),
        other => other,
    }
}

/// The definitions of the first `n` tools, or the first error among them.
pub open spec fn defs_of_first(tools: Seq<ChatCompletionToolView>, n: nat) -> Result<
    Map<Seq<char>, JsonView>,
    ToolChoiceErrorView,
>
    decreases n,
{
    if n == 0 {
        Ok(Map::empty())
    } else {
        match (defs_of_first(tools, (n - 1) as nat), defs_of(tools[n - 1].function)) {
            (Err(error), _) => Err(error),
            (Ok(_), Err(error)) => Err(error),
            (Ok(target), Ok(defs)) => merged_defs(target, defs),
        }
    }
}

/// The schema of a call of the tool: its name, and its parameters.
pub open spec fn call_schema(tool: ChatCompletionToolView) -> JsonView {
    JsonView::Object(
        Map::empty().insert("type"@, JsonView::Text("object"@)).insert(
            "properties"@,
            JsonView::Object(
                Map::empty().insert(
                    "name"@,
                    JsonView::Object(
                        Map::empty().insert("type"@, JsonView::Text("string"@)).insert(
                            "enum"@,
                            one_text(tool.function.name),
                        ),
                    ),
                ).insert("parameters"@, without_defs(parameters_of(tool.function))),
            ),
        ).insert(
            "required"@,
            JsonView::Array(seq![JsonView::Text("name"@), JsonView::Text("parameters"@)]),
        ).insert("additionalProperties"@, JsonView::Bool(false)),
    )
}

/// The schema of a list with at least one call, each of some tool.
pub open spec fn calls_schema(
    tools: Seq<ChatCompletionToolView>,
    defs: Map<Seq<char>, JsonView>,
) -> JsonView {
    let list = Map::empty().insert("type"@, JsonView::Text("array"@)).insert(
        "minItems"@,
        json_int(1),
    ).insert(
        "items"@,
        JsonView::Object(
            Map::empty().insert(
                "anyOf"@,
                JsonView::Array(Seq::new(tools.len(), |i: int| call_schema(tools[i]))),
            ),
        ),
    );
    if defs == Map::<Seq<char>, JsonView>::empty() {
        JsonView::Object(list)
    } else {
        JsonView::Object(list.insert("$defs"@, JsonView::Object(defs)))
    }
}

/// The capped schema for required tools.
pub open spec fn required_schema(
    tools: Seq<ChatCompletionToolView>,
    request_text_len: Option<usize>,
) -> Result<JsonView, ToolChoiceErrorView> {
    match defs_of_first(tools, tools.len()) {
        Err(error) => Err(error),
        Ok(defs) => Ok(capped_schema(calls_schema(tools, defs), None, request_text_len)),
    }
}

/// The schema for a tool choice: the parameters of a named tool, or a list of calls of
/// the tools where some tool is required. `None` for choices that force nothing.
pub open spec fn schema_for(
    tool_choice: Option<ChatCompletionToolChoiceOptionView>,
    tools: Option<Seq<ChatCompletionToolView>>,
    request_text_len: Option<usize>,
) -> Result<Option<JsonView>, ToolChoiceErrorView> {
    match tool_choice {
        Some(ChatCompletionToolChoiceOptionView::Named(name)) => match tools {
            None => Err(ToolChoiceErrorView::MissingTools),
            Some(tools) => match tool_named(tools, name) {
                None => Err(ToolChoiceErrorView::ToolNotFound(name)),
                Some(tool) => Ok(
                    Some(capped_schema(parameters_of(tool.function), None, request_text_len)),
                ),
            },
        },
        Some(ChatCompletionToolChoiceOptionView::Required) => match tools {
            None => Err(ToolChoiceErrorView::MissingTools),
            Some(tools) => if tools.len() == 0 {
                Err(ToolChoiceErrorView::EmptyTools)
            } else {
                match required_schema(tools, request_text_len) {
                    Err(error) => Err(error),
                    Ok(schema) => Ok(Some(schema)),
                }
            },
        },
        _ => Ok(None),
    }
}

/// A tool's parameters and the definitions that they bring along.
struct ParamsAndDefs {
    /// The parameters without definitions.
    schema: Json,
    /// The definitions, in the order of their names.
    defs: Vec<JsonField>,
}

/// Parts the parameters of a function from the definitions that they bring along.
fn split_defs(function: &FunctionObject) -> (r: Result<ParamsAndDefs, ToolChoiceError>)
    ensures
        r matches Ok(split) ==> {
            &&& split.schema@ == without_defs(parameters_of(function.deep_view()))
            &&& defs_of(function.deep_view()) == Ok::<_, ToolChoiceErrorView>(
                fields_map(split.defs@),
            )
            &&& keys_ascend(split.defs@)
        },
        r matches Err(error) ==> defs_of(function.deep_view()) == Err::<
            Map<Seq<char>, JsonView>,
            _,
        >(error.deep_view()),
{
    let parameters: Json = clone_parameters(function);
    match parameters {
        Json::Object(fields) => {
            let mut schema: JsonMap = JsonMap { fields };
            let ghost all = schema@;
            assert(parameters@ == JsonView::Object(all));
            let defs: Vec<JsonField> = match schema.get("$defs") {
                None => {
                    let none: Vec<JsonField> = Vec::new();
                    assert(fields_map(none@) =~= Map::empty());
                    none
                },
                Some(value) => match canonicalize_json_value(value) {
                    Json::Object(sorted) => sorted,
                    _ => {
                        return Err(ToolChoiceError::InvalidDefinitionMap(function.name.clone()));
                    },
                },
            };
            schema.remove("$defs");
            Ok(ParamsAndDefs { schema: Json::Object(schema.fields), defs })
        },
        other => {
            let defs: Vec<JsonField> = Vec::new();
            assert(fields_map(defs@) =~= Map::empty());
            Ok(ParamsAndDefs { schema: other, defs })
        },
    }
}

/// There is one first conflict.
proof fn lemma_first_conflict(
    a: Map<Seq<char>, JsonView>,
    b: Map<Seq<char>, JsonView>,
    key: Seq<char>,
)
    requires
        is_first_conflict(a, b, key),
    ensures
        merged_defs(a, b) == Err::<Map<Seq<char>, JsonView>, _>(
            ToolChoiceErrorView::ConflictingDefinition(key),
        ),
{
    let other = choose|other: Seq<char>| is_first_conflict(a, b, other);
    assert(is_first_conflict(a, b, other));
    assert(conflicts(a, b, key));
    assert(conflicts(a, b, other));
    if other != key {
        lemma_less_transitive(key, other, key);
        lemma_less_self(key);
    }
}

/// Adds definitions, in the order of their names, to those that are there.
fn merge_defs(target: JsonMap, defs: Vec<JsonField>) -> (r: Result<JsonMap, ToolChoiceError>)
    requires
        keys_ascend(defs@),
    ensures
        outcome(r) == merged_defs(target@, fields_map(defs@)),
{
    let ghost before = target@;
    let ghost new = fields_map(defs@);
    let mut merged: JsonMap = target;
    let mut i: usize = 0;
    assert(defs@.subrange(0, 0) =~= Seq::empty());
    assert(merged@ =~= fields_map(defs@.subrange(0, 0)).union_prefer_right(before));
    while i < defs.len()
        invariant
            keys_ascend(defs@),
            before == target@,
            new == fields_map(defs@),
            i <= defs@.len(),
            merged@ == fields_map(defs@.subrange(0, i as int)).union_prefer_right(before),
            forall|j: int| 0 <= j < i ==> !conflicts(before, new, (#[trigger] defs@[j]).key@),
        decreases defs@.len() - i,
    {
        let ghost front = defs@.subrange(0, i as int);
        let ghost key = defs@[i as int].key@;
        proof {
            assert forall|j: int| 0 <= j < front.len() implies (#[trigger] front[j]).key@
                != key by {
                assert(front[j] == defs@[j]);
                lemma_less_self(key);
            }
            lemma_fields_absent(front, key);
            assert forall|j: int| i < j < defs@.len() implies (#[trigger] defs@[j]).key@
                != defs@[i as int].key@ by {
                lemma_less_self(key);
            }
            lemma_fields_last(defs@, i as int);
            lemma_fields_push(front, defs@[i as int]);
            assert(defs@.subrange(0, i + 1) =~= front.push(defs@[i as int]));
        }
        let same: bool = match merged.get(defs[i].key.as_str()) {
            Some(existing) => {
                if !json_equal(existing, &defs[i].value) {
                    proof {
                        assert(conflicts(before, new, key));
                        assert forall|other: Seq<char>| #[trigger]
                            conflicts(before, new, other) implies other == key || text_less(
                            key,
                            other,
                        ) by {
                            lemma_fields_key(defs@, other);
                            let j = choose|j: int|
                                0 <= j < defs@.len() && (#[trigger] defs@[j]).key@ == other;
                            assert(j >= i);
                        }
                        lemma_first_conflict(before, new, key);
                    }
                    return Err(ToolChoiceError::ConflictingDefinition(defs[i].key.clone()));
                }
                true
            },
            None => false,
        };
        assert(!conflicts(before, new, key));
        if !same {
            merged.insert(defs[i].key.as_str(), defs[i].value.duplicate());
        }
        assert(merged@ =~= fields_map(defs@.subrange(0, i + 1)).union_prefer_right(before));
        i += 1;
    }
    assert(defs@.subrange(0, defs@.len() as int) =~= defs@);
    proof {
        if exists|key: Seq<char>| is_first_conflict(before, new, key) {
            let key = choose|key: Seq<char>| is_first_conflict(before, new, key);
            assert(conflicts(before, new, key));
            lemma_fields_key(defs@, key);
            let j = choose|j: int| 0 <= j < defs@.len() && (#[trigger] defs@[j]).key@ == key;
            assert(!conflicts(before, new, defs@[j].key@));
        }
    }
    Ok(merged)
}

/// The schema of a call of the tool with those parameters.
fn tool_call_schema(tool: &ChatCompletionTool, schema: Json) -> (r: Json)
    requires
        schema@ == without_defs(parameters_of(tool.deep_view().function)),
    ensures
        r@ == call_schema(tool.deep_view()),
{
    let name: Json = Json::empty_object().with("type", Json::text("string")).with(
        "enum",
        json_list(Json::text(tool.function.name.as_str())),
    );
    let mut required: Vec<Json> = Vec::new();
    required.push(Json::text("name"));
    required.push(Json::text("parameters"));
    let required: Json = Json::Array(required);
    assert(required@->Array_0 =~= seq![JsonView::Text("name"@), JsonView::Text("parameters"@)]);
    Json::empty_object().with("type", Json::text("object")).with(
        "properties",
        Json::empty_object().with("name", name).with("parameters", schema),
    ).with("required", required).with("additionalProperties", Json::Bool(false))
}

/// The capped schema of a list with at least one call, each of some tool. The
/// definitions of all tools come together at the root; tools that define a name
/// differently are an error.
pub fn build_required_schema(
    tools: &[ChatCompletionTool],
    request_text_len: Option<usize>,
) -> (r: Result<Json, ToolChoiceError>)
    ensures
        outcome(r) == required_schema(tools.deep_view(), request_text_len),
{
    let ghost all = tools.deep_view();
    let mut defs: JsonMap = JsonMap::new();
    let mut any_of: Vec<Json> = Vec::new();
    let mut i: usize = 0;
    while i < tools.len()
        invariant
            all == tools.deep_view(),
            all.len() == tools@.len(),
            i <= tools@.len(),
            defs_of_first(all, i as nat) == Ok::<_, ToolChoiceErrorView>(defs@),
            any_of@.len() == i,
            forall|k: int| 0 <= k < i ==> (#[trigger] any_of@[k])@ == call_schema(all[k]),
        decreases tools@.len() - i,
    {
        assert(all[i as int] == tools@[i as int].deep_view());
        match split_defs(&tools[i].function) {
            Err(error) => {
                proof {
                    assert(defs_of_first(all, (i + 1) as nat) == Err::<
                        Map<Seq<char>, JsonView>,
                        _,
                    >(error.deep_view()));
                    lemma_defs_error(all, (i + 1) as nat, all.len());
                }
                return Err(error);
            },
            Ok(split) => {
                match merge_defs(defs, split.defs) {
                    Err(error) => {
                        proof {
                            assert(defs_of_first(all, (i + 1) as nat) == Err::<
                                Map<Seq<char>, JsonView>,
                                _,
                            >(error.deep_view()));
                            lemma_defs_error(all, (i + 1) as nat, all.len());
                        }
                        return Err(error);
                    },
                    Ok(merged) => {
                        defs = merged;
                    },
                }
                any_of.push(tool_call_schema(&tools[i], split.schema));
            },
        }
        i += 1;
    }
    let any_of: Json = Json::Array(any_of);
    assert(any_of@->Array_0 =~= Seq::new(all.len(), |i: int| call_schema(all[i])));
    let mut list: Json = Json::empty_object().with("type", Json::text("array")).with(
        "minItems",
        Json::unsigned(1),
    ).with("items", Json::empty_object().with("anyOf", any_of));
    if defs.fields.len() > 0 {
        proof {
            lemma_fields_dom(defs.fields@, 0);
            assert(defs@.dom().contains(defs.fields@[0].key@));
        }
        list.set("$defs", Json::Object(defs.fields));
    } else {
        assert(defs@ =~= Map::<Seq<char>, JsonView>::empty());
    }
    assert(list@ == calls_schema(all, defs@));
    Ok(bound_guided_tool_schema(&list, request_text_len))
}

/// An error among the first tools is the error of all.
proof fn lemma_defs_error(tools: Seq<ChatCompletionToolView>, n: nat, all: nat)
    requires
        n <= all,
        defs_of_first(tools, n) is Err,
    ensures
        defs_of_first(tools, all) == defs_of_first(tools, n),
    decreases all,
{
    if n < all {
        lemma_defs_error(tools, n, (all - 1) as nat);
    }
}

/// The JSON schema that guided decoding enforces for a tool choice.
pub fn get_json_schema_from_tools(
    tool_choice: Option<&ChatCompletionToolChoiceOption>,
    tools: Option<&[ChatCompletionTool]>,
    request_text_len: Option<usize>,
) -> (r: Result<Option<Json>, ToolChoiceError>)
    ensures
        outcome(r) == schema_for(tool_choice.deep_view(), tools.deep_view(), request_text_len),
{
    match tool_choice {
        Some(ChatCompletionToolChoiceOption::Named(name)) => match tools {
            None => Err(ToolChoiceError::MissingTools),
            Some(tools) => match find_tool(tools, name.as_str()) {
                None => Err(ToolChoiceError::ToolNotFound(name.clone())),
                Some(i) => Ok(
                    Some(
                        bound_guided_tool_schema(
                            &clone_parameters(&tools[i].function),
                            request_text_len,
                        ),
                    ),
                ),
            },
        },
        Some(ChatCompletionToolChoiceOption::Required) => match tools {
            None => Err(ToolChoiceError::MissingTools),
            Some(tools) => {
                if tools.len() == 0 {
                    return Err(ToolChoiceError::EmptyTools);
                }
                match build_required_schema(tools, request_text_len) {
                    Ok(schema) => Ok(Some(schema)),
                    Err(error) => Err(error),
                }
            },
        },
        _ => Ok(None),
    }
}

} // verus!
