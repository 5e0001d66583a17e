//! What holds of the search for free text in schemas.

use crate::freeform::{
    has_freeform_text, is_freeform_property, lemma_member_counts, part_under, SchemaPart,
};
use crate::json::{looked_up, JsonView};
use crate::request_types::{ChatCompletionToolChoiceOptionView, ChatCompletionToolView};
use crate::tools::{allows_type, forces_freeform_text, tool_named};
use vstd::prelude::*;

verus! {

/// The schema takes any string: strings are among its types, and neither an enumeration nor
/// a constant limits them.
pub open spec fn takes_any_string(schema: JsonView) -> bool {
    &&& schema is Object
    &&& looked_up(schema->Object_0, "enum"@) is None
    &&& looked_up(schema->Object_0, "const"@) is None
    &&& looked_up(schema->Object_0, "type"@) matches Some(of) && (of == JsonView::Text("string"@)
        || (of matches JsonView::Array(types) && types.contains(JsonView::Text("string"@))))
}

/// The schema says something of its own or of other schemas under `key`.
pub open spec fn under(schema: JsonView, key: Seq<char>, inner: JsonView) -> bool {
    schema is Object && looked_up(schema->Object_0, key) == Some(inner)
}

/// A property called `body`, `content` or `message` that takes any string is one for free
/// text.
pub proof fn law_telling_properties_are_free_text(
    schema: JsonView,
    properties: Map<Seq<char>, JsonView>,
    name: Seq<char>,
)
    requires
        under(schema, "properties"@, JsonView::Object(properties)),
        name == "body"@ || name == "content"@ || name == "message"@,
        properties.dom().contains(name),
        takes_any_string(properties[name]),
    ensures
        has_freeform_text(schema, SchemaPart::Schema),
{
    let m = schema->Object_0;
    let inner = JsonView::Object(properties);
    assert(properties.dom().contains(name));
    let own = properties[name]->Object_0;
    if let Some(JsonView::Array(types)) = looked_up(own, "type"@) {
        let i = choose|i: int|
            0 <= i < types.len() && #[trigger] types[i] == JsonView::Text("string"@);
        assert(types[i] == JsonView::Text("string"@));
    }
    assert(allows_type(own, "string"@));
    assert(is_freeform_property(name, properties[name]));
    lemma_member_counts(properties, name, SchemaPart::Properties);
    lemma_member_counts(m, "properties"@, SchemaPart::Schema);
    assert(has_freeform_text(inner, SchemaPart::Properties));
}

/// Free text is found at any depth: in the schema of a property, of the items, of further
/// properties, and in each of the schemas of which any, one or all must hold.
pub proof fn law_free_text_is_found_inside(
    schema: JsonView,
    inner: JsonView,
    key: Seq<char>,
    i: int,
)
    requires
        has_freeform_text(inner, SchemaPart::Schema),
    ensures
        (key == "items"@ || key == "additionalProperties"@) && under(schema, key, inner)
            ==> has_freeform_text(schema, SchemaPart::Schema),
        (key == "anyOf"@ || key == "oneOf"@ || key == "allOf"@) ==> (schema matches JsonView::Object(
            m,
        ) ==> (looked_up(m, key) matches Some(JsonView::Array(schemas)) ==> (0 <= i < schemas.len()
            && schemas[i] == inner ==> has_freeform_text(schema, SchemaPart::Schema)))),
        schema matches JsonView::Object(m) ==> (looked_up(m, "properties"@) matches Some(
            JsonView::Object(properties),
        ) ==> (properties.dom().contains(key) && properties[key] == inner ==> has_freeform_text(
            schema,
            SchemaPart::Schema,
        ))),
{
    reveal_strlit("properties");
    reveal_strlit("items");
    reveal_strlit("additionalProperties");
    reveal_strlit("anyOf");
    reveal_strlit("oneOf");
    reveal_strlit("allOf");
    assert("properties"@.len() == 10 && "items"@.len() == 5 && "additionalProperties"@.len() == 20
        && "anyOf"@.len() == 5 && "oneOf"@.len() == 5 && "allOf"@.len() == 5);
    if let JsonView::Object(m) = schema {
        if (key == "items"@ || key == "additionalProperties"@) && under(schema, key, inner) {
            assert(m.dom().contains(key));
            assert(part_under(key) == Some(SchemaPart::Nested));
            assert(inner is Object);
            assert(has_freeform_text(inner, SchemaPart::Nested));
        }
        if key == "anyOf"@ || key == "oneOf"@ || key == "allOf"@ {
            if let Some(JsonView::Array(schemas)) = looked_up(m, key) {
                if 0 <= i < schemas.len() && schemas[i] == inner {
                    assert(m.dom().contains(key));
                    assert(part_under(key) == Some(SchemaPart::Nested));
                    assert(has_freeform_text(JsonView::Array(schemas), SchemaPart::Nested));
                }
            }
        }
        if let Some(JsonView::Object(properties)) = looked_up(m, "properties"@) {
            if properties.dom().contains(key) && properties[key] == inner {
                assert(has_freeform_text(JsonView::Object(properties), SchemaPart::Properties));
                assert(m.dom().contains("properties"@));
                assert(part_under("properties"@) == Some(SchemaPart::Properties));
            }
        }
    }
}

/// A schema that holds no other schemas has no free text, whatever its own type, and what is
/// no object has none either.
pub proof fn law_schemas_alone_have_no_free_text(schema: JsonView)
    requires
        schema matches JsonView::Object(m) ==> {
            &&& looked_up(m, "properties"@) is None
            &&& looked_up(m, "items"@) is None
            &&& looked_up(m, "additionalProperties"@) is None
            &&& looked_up(m, "anyOf"@) is None
            &&& looked_up(m, "oneOf"@) is None
            &&& looked_up(m, "allOf"@) is None
        },
    ensures
        !has_freeform_text(schema, SchemaPart::Schema),
{
}

/// Properties with other names, or that take no string or only some, and that hold no free
/// text themselves, have none.
pub proof fn law_other_properties_are_no_free_text(
    schema: JsonView,
    properties: Map<Seq<char>, JsonView>,
)
    requires
        under(schema, "properties"@, JsonView::Object(properties)),
        looked_up(schema->Object_0, "items"@) is None,
        looked_up(schema->Object_0, "additionalProperties"@) is None,
        looked_up(schema->Object_0, "anyOf"@) is None,
        looked_up(schema->Object_0, "oneOf"@) is None,
        looked_up(schema->Object_0, "allOf"@) is None,
        forall|name: Seq<char>| #[trigger]
            properties.dom().contains(name) ==> !has_freeform_text(
                properties[name],
                SchemaPart::Schema,
            ) && ((name != "body"@ && name != "content"@ && name != "message"@)
                || !takes_any_string(properties[name])),
    ensures
        !has_freeform_text(schema, SchemaPart::Schema),
{
    let inner = JsonView::Object(properties);
    assert forall|name: Seq<char>| #[trigger] properties.dom().contains(name) implies !(
    is_freeform_property(name, properties[name])) by {
        if let JsonView::Object(m) = properties[name] {
            if allows_type(m, "string"@) {
                if let Some(JsonView::Array(types)) = looked_up(m, "type"@) {
                    let i = choose|i: int|
                        0 <= i < types.len() && #[trigger] types[i] == JsonView::Text("string"@);
                    assert(types.contains(types[i]));
                }
            }
        }
    }
    assert(!has_freeform_text(inner, SchemaPart::Properties));
}

/// A tool choice forces free text where it names a tool whose parameters have a property for
/// it: of tools of the same name the first counts. Every other choice forces none.
pub proof fn law_named_tools_force_their_text(
    choice: Option<ChatCompletionToolChoiceOptionView>,
    tools: Seq<ChatCompletionToolView>,
    i: int,
)
    requires
        0 <= i < tools.len(),
        forall|j: int|
            0 <= j < i ==> (#[trigger] tools[j]).function.name != tools[i].function.name,
    ensures
        choice == Some(ChatCompletionToolChoiceOptionView::Named(tools[i].function.name))
            ==> forces_freeform_text(choice, Some(tools)) == (
        tools[i].function.parameters matches Some(parameters) && has_freeform_text(
            parameters,
            SchemaPart::Schema,
        )),
        !(choice matches Some(ChatCompletionToolChoiceOptionView::Named(_)))
            ==> !forces_freeform_text(choice, Some(tools)),
{
    lemma_first_named(tools, i);
}

/// The first tool of a name is the one that is named.
proof fn lemma_first_named(tools: Seq<ChatCompletionToolView>, i: int)
    requires
        0 <= i < tools.len(),
        forall|j: int|
            0 <= j < i ==> (#[trigger] tools[j]).function.name != tools[i].function.name,
    ensures
        tool_named(tools, tools[i].function.name) == Some(tools[i]),
    decreases tools.len(),
{
    if i > 0 {
        let rest = tools.subrange(1, tools.len() as int);
        assert(tools[0].function.name != tools[i].function.name);
        assert(rest[i - 1] == tools[i]);
        assert forall|j: int| 0 <= j < i - 1 implies (#[trigger] rest[j]).function.name
            != rest[i - 1].function.name by {
            assert(rest[j] == tools[j + 1]);
        }
        lemma_first_named(rest, i - 1);
    }
}

} // verus!
