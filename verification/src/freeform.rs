//! Schemas with properties for free text.

use crate::json::{
    fields_map, last_position, lemma_fields_final, lemma_fields_last, Json, JsonField, JsonView,
};
use crate::text::same_text;
use crate::tools::{allows_type, is_long_text_field, schema_type_includes};
use vstd::prelude::*;

verus! {

/// What a part of a schema stands for.
#[derive(Clone, Copy, PartialEq, Eq, Structural)]
pub enum SchemaPart {
    /// A schema.
    Schema,
    /// A schema, or a list of schemas.
    Nested,
    /// Schemas under the names of properties.
    Properties,
}

/// What the member of a schema under `key` stands for, where schemas are looked for
/// in it.
pub open spec fn part_under(key: Seq<char>) -> Option<SchemaPart> {
    if key == "properties"@ {
        Some(SchemaPart::Properties)
    } else if key == "items"@ || key == "additionalProperties"@ || key == "anyOf"@ || key
        == "oneOf"@ || key == "allOf"@ {
        Some(SchemaPart::Nested)
    } else {
        None
    }
}

/// A property for free text: one with a telling name whose schema allows any string.
pub open spec fn is_freeform_property(name: Seq<char>, schema: JsonView) -> bool {
    is_long_text_field(name) && (match schema {
        JsonView::Object(m) => allows_type(m, "string"@) && !m.dom().contains("enum"@)
            && !m.dom().contains("const"@),
        _ => false,
    })
}

/// The part of a schema has a property for free text, at any depth.
pub open spec fn has_freeform_text(v: JsonView, part: SchemaPart) -> bool
    decreases
            v,
            (if part is Nested {
                1int
            } else {
                0int
            }),
{
    match (part, v) {
        (SchemaPart::Schema, JsonView::Object(m)) => exists|k: Seq<char>| #[trigger]
            m.dom().contains(k) && (part_under(k) matches Some(inner) && has_freeform_text(
                m[k],
                inner,
            )),
        (SchemaPart::Nested, JsonView::Array(items)) => exists|i: int|
            0 <= i < items.len() && has_freeform_text(#[trigger] items[i], SchemaPart::Schema),
        (SchemaPart::Nested, JsonView::Object(_)) => has_freeform_text(v, SchemaPart::Schema),
        (SchemaPart::Properties, JsonView::Object(p)) => exists|k: Seq<char>| #[trigger]
            p.dom().contains(k) && (is_freeform_property(k, p[k]) || has_freeform_text(
                p[k],
                SchemaPart::Schema,
            )),
        _ => false,
    }
}

/// What the member of a schema under `key` stands for.
fn part_of(key: &str) -> (r: Option<SchemaPart>)
    ensures
        r == part_under(key@),
{
    if same_text(key, "properties") {
        Some(SchemaPart::Properties)
    } else if same_text(key, "items") || same_text(key, "additionalProperties") || same_text(
        key,
        "anyOf",
    ) || same_text(key, "oneOf") || same_text(key, "allOf") {
        Some(SchemaPart::Nested)
    } else {
        None
    }
}

/// Whether a schema allows strings.
fn value_has_string_type(value: &Json) -> (r: bool)
    ensures
        r == (match value@ {
            JsonView::Object(m) => allows_type(m, "string"@),
            _ => false,
        }),
{
    value.is_object() && schema_type_includes(value, "string")
}

/// Whether an object has a member under one of the keys.
fn value_has_any(value: &Json, first: &str, second: &str) -> (r: bool)
    ensures
        r == (match value@ {
            JsonView::Object(m) => m.dom().contains(first@) || m.dom().contains(second@),
            _ => false,
        }),
{
    value.get(first).is_some() || value.get(second).is_some()
}

/// Whether a property is for free text.
fn freeform_property(name: &str, schema: &Json) -> (r: bool)
    ensures
        r == is_freeform_property(name@, schema@),
{
    (same_text(name, "body") || same_text(name, "content") || same_text(name, "message"))
        && value_has_string_type(schema) && !value_has_any(schema, "enum", "const")
}

/// No later member has the same key.
spec fn is_last_member(fields: Seq<JsonField>, i: int) -> bool {
    forall|j: int| i < j < fields.len() ==> (#[trigger] fields[j]).key@ != fields[i].key@
}

/// The member makes its object have a property for free text.
spec fn member_counts(field: JsonField, part: SchemaPart) -> bool {
    if part is Properties {
        is_freeform_property(field.key@, field.value.model()) || has_freeform_text(
            field.value.model(),
            SchemaPart::Schema,
        )
    } else {
        part_under(field.key@) matches Some(inner) && has_freeform_text(field.value.model(), inner)
    }
}

/// Whether some schema of a list has a property for free text.
fn items_have_freeform(items: &Vec<Json>) -> (r: bool)
    ensures
        r == exists|i: int|
            0 <= i < items@.len() && has_freeform_text(
                (#[trigger] items@[i]).model(),
                SchemaPart::Schema,
            ),
    decreases items, 0int,
{
    let mut i: usize = 0;
    while i < items.len()
        invariant
            i <= items@.len(),
            forall|k: int|
                0 <= k < i ==> !has_freeform_text(
                    (#[trigger] items@[k]).model(),
                    SchemaPart::Schema,
                ),
        decreases items@.len() - i,
    {
        assert(decreases_to!(*items => items@[i as int]));
        if has_freeform(&items[i], SchemaPart::Schema) {
            return true;
        }
        i += 1;
    }
    false
}

/// Whether a member makes the object have a property for free text.
fn fields_have_freeform(fields: &Vec<JsonField>, part: SchemaPart) -> (r: bool)
    requires
        !(part is Nested),
    ensures
        r == exists|i: int|
            0 <= i < fields@.len() && #[trigger] is_last_member(fields@, i) && member_counts(
                fields@[i],
                part,
            ),
    decreases fields, 0int,
{
    let mut i: usize = 0;
    while i < fields.len()
        invariant
            !(part is Nested),
            i <= fields@.len(),
            forall|k: int|
                0 <= k < i && #[trigger] is_last_member(fields@, k) ==> !member_counts(
                    fields@[k],
                    part,
                ),
        decreases fields@.len() - i,
    {
        let key: &str = fields[i].key.as_str();
        let last: bool = match last_position(fields, key) {
            Some(k) => k == i,
            None => false,
        };
        assert(last == is_last_member(fields@, i as int));
        if last {
            assert(decreases_to!(*fields => fields@[i as int]));
            assert(decreases_to!(fields@[i as int] => fields@[i as int].value));
            let value: &Json = &fields[i].value;
            let counts: bool = match part {
                SchemaPart::Properties => freeform_property(key, value) || has_freeform(
                    value,
                    SchemaPart::Schema,
                ),
                _ => match part_of(key) {
                    Some(inner) => has_freeform(value, inner),
                    None => false,
                },
            };
            assert(counts == member_counts(fields@[i as int], part));
            if counts {
                return true;
            }
        }
        i += 1;
    }
    false
}

/// One member that counts is enough.
pub(crate) proof fn lemma_member_counts(m: Map<Seq<char>, JsonView>, k: Seq<char>, part: SchemaPart)
    requires
        m.dom().contains(k),
        part is Properties ==> is_freeform_property(k, m[k]) || has_freeform_text(
            m[k],
            SchemaPart::Schema,
        ),
        part is Schema ==> part_under(k) is Some && has_freeform_text(m[k], part_under(k)->0),
        !(part is Nested),
    ensures
        has_freeform_text(JsonView::Object(m), part),
{
    let v = JsonView::Object(m);
    assert(v->Object_0.dom().contains(k));
    match v {
        JsonView::Object(p) => {
            assert(p.dom().contains(k));
            assert(p[k] == m[k]);
        },
        _ => {},
    }
    assert(has_freeform_text(v, part));
}

/// What counts in the members of a list counts in the map.
proof fn lemma_members_count(fields: Seq<JsonField>, part: SchemaPart)
    requires
        !(part is Nested),
    ensures
        has_freeform_text(JsonView::Object(fields_map(fields)), part) == exists|i: int|
            0 <= i < fields.len() && #[trigger] is_last_member(fields, i) && member_counts(
                fields[i],
                part,
            ),
{
    let m = fields_map(fields);
    if exists|i: int|
        0 <= i < fields.len() && #[trigger] is_last_member(fields, i) && member_counts(
            fields[i],
            part,
        ) {
        let i = choose|i: int|
            0 <= i < fields.len() && #[trigger] is_last_member(fields, i) && member_counts(
                fields[i],
                part,
            );
        lemma_fields_last(fields, i);
        let k = fields[i].key@;
        assert(m[k] == fields[i].value.model());
        lemma_member_counts(m, k, part);
    } else {
        assert forall|k: Seq<char>| #[trigger] m.dom().contains(k) implies !(if part is Properties {
            is_freeform_property(k, m[k]) || has_freeform_text(m[k], SchemaPart::Schema)
        } else {
            part_under(k) matches Some(inner) && has_freeform_text(m[k], inner)
        }) by {
            lemma_fields_final(fields, k);
            let i = choose|i: int|
                0 <= i < fields.len() && (#[trigger] fields[i]).key@ == k && (forall|j: int|
                    i < j < fields.len() ==> (#[trigger] fields[j]).key@ != k);
            assert(is_last_member(fields, i));
            lemma_fields_last(fields, i);
        }
        if part is Properties {
            assert(!has_freeform_text(JsonView::Object(m), SchemaPart::Properties));
        } else {
            assert(!has_freeform_text(JsonView::Object(m), SchemaPart::Schema));
        }
    }
}

/// Whether the part of a schema has a property for free text, at any depth.
fn has_freeform(value: &Json, part: SchemaPart) -> (r: bool)
    ensures
        r == has_freeform_text(value@, part),
    decreases value, 1int,
{
    match value {
        Json::Array(items) => match part {
            SchemaPart::Nested => {
                assert(decreases_to!(value => value->Array_0));
                let ghost all = value@->Array_0;
                assert forall|k: int| 0 <= k < items@.len() implies #[trigger] all[k]
                    == items@[k].model() by {}
                let r: bool = items_have_freeform(items);
                proof {
                    if r {
                        let i = choose|i: int|
                            0 <= i < items@.len() && has_freeform_text(
                                (#[trigger] items@[i]).model(),
                                SchemaPart::Schema,
                            );
                        assert(has_freeform_text(all[i], SchemaPart::Schema));
                    } else {
                        assert forall|i: int| 0 <= i < all.len() implies !has_freeform_text(
                            #[trigger] all[i],
                            SchemaPart::Schema,
                        ) by {
                            assert(!has_freeform_text(items@[i].model(), SchemaPart::Schema));
                        }
                    }
                }
                r
            },
            _ => false,
        },
        Json::Object(fields) => {
            assert(decreases_to!(value => value->Object_0));
            let inner: SchemaPart = match part {
                SchemaPart::Nested => SchemaPart::Schema,
                other => other,
            };
            proof {
                lemma_members_count(fields@, inner);
            }
            fields_have_freeform(fields, inner)
        },
        _ => false,
    }
}

/// Whether a schema has a property for free text, at any depth.
pub fn schema_has_freeform_text_field(value: &Json) -> (r: bool)
    ensures
        r == has_freeform_text(value@, SchemaPart::Schema),
{
    has_freeform(value, SchemaPart::Schema)
}

} // verus!
