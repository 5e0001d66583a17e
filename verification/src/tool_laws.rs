//! What holds of every capped schema.

use crate::json::{looked_up, JsonView};
use crate::tools::{
    capped_member, capped_schema, json_int, limited, string_budget,
    DEFAULT_GUIDED_TOOL_ARRAY_MAX_ITEMS,
};
use vstd::prelude::*;

verus! {

/// A key under which a schema holds other schemas.
pub open spec fn holds_schemas(key: Seq<char>) -> bool {
    key == "anyOf"@ || key == "oneOf"@ || key == "allOf"@ || key == "properties"@ || key
        == "items"@ || key == "additionalProperties"@ || key == "$defs"@
}

/// A key that capping can add.
pub open spec fn is_limit(key: Seq<char>) -> bool {
    key == "maxLength"@ || key == "maxItems"@ || key == "additionalProperties"@
}

/// The keys that capping reads are none of those that it changes or adds.
proof fn lemma_key_names()
    ensures
        !holds_schemas("type"@),
        !is_limit("type"@),
        !is_limit("enum"@),
        !is_limit("const"@),
        "maxLength"@ != "maxItems"@,
        "maxLength"@ != "additionalProperties"@,
        "maxItems"@ != "additionalProperties"@,
{
    reveal_strlit("type");
    reveal_strlit("enum");
    reveal_strlit("const");
    reveal_strlit("maxLength");
    reveal_strlit("maxItems");
    reveal_strlit("additionalProperties");
    reveal_strlit("anyOf");
    reveal_strlit("oneOf");
    reveal_strlit("allOf");
    reveal_strlit("properties");
    reveal_strlit("items");
    reveal_strlit("$defs");
    assert("type"@[0] == 't' && "enum"@[0] == 'e' && "const"@[0] == 'c');
    assert("type"@.len() == 4 && "maxLength"@.len() == 9 && "maxItems"@.len() == 8);
}

/// What the client wrote into a schema stays: no member goes, only limits come, and a
/// member changes only where it holds schemas itself.
pub proof fn law_capping_keeps_the_client_schema(
    m: Map<Seq<char>, JsonView>,
    field: Option<Seq<char>>,
    request_text_len: Option<usize>,
    key: Seq<char>,
)
    ensures
        capped_schema(JsonView::Object(m), field, request_text_len) is Object,
        ({
            let c = capped_schema(JsonView::Object(m), field, request_text_len)->Object_0;
            &&& m.dom().contains(key) ==> c.dom().contains(key)
            &&& c.dom().contains(key) && !m.dom().contains(key) ==> is_limit(key)
            &&& m.dom().contains(key) && !holds_schemas(key) ==> c[key] == m[key]
            &&& m.dom().contains(key) ==> c[key] == capped_member(
                m[key],
                key,
                field,
                request_text_len,
            )
        }),
{
}

/// Capping a capped member changes nothing.
proof fn lemma_member_capped_twice(
    v: JsonView,
    key: Seq<char>,
    field: Option<Seq<char>>,
    request_text_len: Option<usize>,
)
    ensures
        capped_member(capped_member(v, key, field, request_text_len), key, field, request_text_len)
            == capped_member(v, key, field, request_text_len),
    decreases v, 1int,
{
    let once = capped_member(v, key, field, request_text_len);
    let twice = capped_member(once, key, field, request_text_len);
    if key == "anyOf"@ || key == "oneOf"@ || key == "allOf"@ {
        match v {
            JsonView::Array(items) => {
                assert forall|i: int| 0 <= i < items.len() implies #[trigger] twice->Array_0[i]
                    == once->Array_0[i] by {
                    law_capping_twice(items[i], field, request_text_len);
                }
                assert(twice->Array_0 =~= once->Array_0);
            },
            _ => {},
        }
    } else if key == "properties"@ {
        match v {
            JsonView::Object(m) => {
                assert forall|k: Seq<char>| m.dom().contains(k) implies #[trigger] twice->Object_0[k]
                    == once->Object_0[k] by {
                    law_capping_twice(m[k], Some(k), request_text_len);
                }
                assert(twice->Object_0 =~= once->Object_0);
            },
            _ => {},
        }
    } else if key == "items"@ || key == "additionalProperties"@ {
        law_capping_twice(v, field, request_text_len);
    } else if key == "$defs"@ {
        match v {
            JsonView::Object(m) => {
                assert forall|k: Seq<char>| m.dom().contains(k) implies #[trigger] twice->Object_0[k]
                    == once->Object_0[k] by {
                    law_capping_twice(m[k], None, request_text_len);
                }
                assert(twice->Object_0 =~= once->Object_0);
            },
            _ => {},
        }
    }
}

/// Capping a capped schema changes nothing.
pub proof fn law_capping_twice(
    v: JsonView,
    field: Option<Seq<char>>,
    request_text_len: Option<usize>,
)
    ensures
        capped_schema(capped_schema(v, field, request_text_len), field, request_text_len)
            == capped_schema(v, field, request_text_len),
    decreases v, 0int,
{
    match v {
        JsonView::Object(m) => {
            let c = capped_schema(v, field, request_text_len)->Object_0;
            lemma_key_names();
            law_capping_keeps_the_client_schema(m, field, request_text_len, "type"@);
            assert(looked_up(c, "type"@) == looked_up(m, "type"@));
            law_capping_keeps_the_client_schema(m, field, request_text_len, "enum"@);
            law_capping_keeps_the_client_schema(m, field, request_text_len, "const"@);
            assert forall|k: Seq<char>| #[trigger] c.dom().contains(k) implies capped_member(
                c[k],
                k,
                field,
                request_text_len,
            ) == c[k] by {
                law_capping_keeps_the_client_schema(m, field, request_text_len, k);
                if m.dom().contains(k) {
                    lemma_member_capped_twice(m[k], k, field, request_text_len);
                }
            }
            let base = Map::new(
                |k: Seq<char>| c.dom().contains(k),
                |k: Seq<char>|
                    if c.dom().contains(k) {
                        capped_member(c[k], k, field, request_text_len)
                    } else {
                        JsonView::Null
                    },
            );
            assert(base =~= c);
            assert(limited(c, c, field, request_text_len) =~= c);
            let twice = capped_schema(JsonView::Object(c), field, request_text_len);
            assert(twice->Object_0 =~= limited(base, c, field, request_text_len));
        },
        _ => {},
    }
}

/// `c` is `v` but for limits that were added, at any depth.
pub open spec fn adds_only_limits(v: JsonView, c: JsonView) -> bool
    decreases v,
{
    match v {
        JsonView::Object(m) => c is Object && (forall|k: Seq<char>| #[trigger]
            m.dom().contains(k) ==> c->Object_0.dom().contains(k) && adds_only_limits(
                m[k],
                c->Object_0[k],
            )) && (forall|k: Seq<char>| #[trigger]
            c->Object_0.dom().contains(k) && !m.dom().contains(k) ==> is_limit(k)),
        JsonView::Array(items) => c is Array && c->Array_0.len() == items.len() && (forall|i: int|
            0 <= i < items.len() ==> adds_only_limits(#[trigger] items[i], c->Array_0[i])),
        _ => c == v,
    }
}

/// What stays as it is gets no limits.
proof fn lemma_nothing_added(v: JsonView)
    ensures
        adds_only_limits(v, v),
    decreases v,
{
    match v {
        JsonView::Object(m) => {
            assert forall|k: Seq<char>| #[trigger] m.dom().contains(k) implies adds_only_limits(
                m[k],
                m[k],
            ) by {
                lemma_nothing_added(m[k]);
            }
        },
        JsonView::Array(items) => {
            assert forall|i: int| 0 <= i < items.len() implies adds_only_limits(
                #[trigger] items[i],
                items[i],
            ) by {
                lemma_nothing_added(items[i]);
            }
        },
        _ => {},
    }
}

/// Schemas under names get limits and nothing else.
proof fn lemma_members_limited(
    v: JsonView,
    c: JsonView,
    named: bool,
    request_text_len: Option<usize>,
)
    requires
        v is Object,
        c is Object,
        forall|k: Seq<char>| #[trigger]
            c->Object_0.dom().contains(k) <==> v->Object_0.dom().contains(k),
        forall|k: Seq<char>| #[trigger]
            v->Object_0.dom().contains(k) ==> c->Object_0[k] == capped_schema(
                v->Object_0[k],
                if named {
                    Some(k)
                } else {
                    None
                },
                request_text_len,
            ),
    ensures
        adds_only_limits(v, c),
    decreases v, 1int,
{
    let m = v->Object_0;
    assert forall|k: Seq<char>| #[trigger] m.dom().contains(k) implies c->Object_0.dom().contains(k)
        && adds_only_limits(m[k], c->Object_0[k]) by {
        assert(c->Object_0.dom().contains(k));
        law_capping_adds_only_limits(
            m[k],
            if named {
                Some(k)
            } else {
                None
            },
            request_text_len,
        );
    }
}

/// A member of a schema gets limits and nothing else.
proof fn lemma_member_limited(
    v: JsonView,
    key: Seq<char>,
    field: Option<Seq<char>>,
    request_text_len: Option<usize>,
)
    ensures
        adds_only_limits(v, capped_member(v, key, field, request_text_len)),
    decreases v, 2int,
{
    let c = capped_member(v, key, field, request_text_len);
    if key == "anyOf"@ || key == "oneOf"@ || key == "allOf"@ {
        match v {
            JsonView::Array(items) => {
                assert forall|i: int| 0 <= i < items.len() implies adds_only_limits(
                    #[trigger] items[i],
                    c->Array_0[i],
                ) by {
                    law_capping_adds_only_limits(items[i], field, request_text_len);
                }
            },
            _ => {
                lemma_nothing_added(v);
            },
        }
    } else if key == "properties"@ {
        if v is Object {
            lemma_members_limited(v, c, true, request_text_len);
        } else {
            lemma_nothing_added(v);
        }
    } else if key == "items"@ || key == "additionalProperties"@ {
        law_capping_adds_only_limits(v, field, request_text_len);
    } else if key == "$defs"@ {
        if v is Object {
            lemma_members_limited(v, c, false, request_text_len);
        } else {
            lemma_nothing_added(v);
        }
    } else {
        lemma_nothing_added(v);
    }
}

/// Capping adds limits to a schema and to the schemas in it, however deep they stand, and
/// changes nothing else: no key goes, no value changes, and nothing comes that is no limit.
pub proof fn law_capping_adds_only_limits(
    v: JsonView,
    field: Option<Seq<char>>,
    request_text_len: Option<usize>,
)
    ensures
        adds_only_limits(v, capped_schema(v, field, request_text_len)),
    decreases v, 0int,
{
    match v {
        JsonView::Object(m) => {
            let c = capped_schema(v, field, request_text_len);
            assert forall|k: Seq<char>| #[trigger]
                m.dom().contains(k) implies c->Object_0.dom().contains(k) && adds_only_limits(
                m[k],
                c->Object_0[k],
            ) by {
                law_capping_keeps_the_client_schema(m, field, request_text_len, k);
                assert(decreases_to!(v => m[k]));
                lemma_member_limited(m[k], k, field, request_text_len);
            }
            assert forall|k: Seq<char>| #[trigger]
                c->Object_0.dom().contains(k) && !m.dom().contains(k) implies is_limit(k) by {
                law_capping_keeps_the_client_schema(m, field, request_text_len, k);
            }
        },
        _ => {
            lemma_nothing_added(v);
        },
    }
}

/// The limits that capping adds: a string that is not limited gets the budget of the
/// property that it stands under, a list the largest number of items, and an object no
/// members beyond those it names.
pub proof fn law_limits_are_the_budgets(
    schema: Map<Seq<char>, JsonView>,
    properties: Map<Seq<char>, JsonView>,
    name: Seq<char>,
    of: Map<Seq<char>, JsonView>,
    field: Option<Seq<char>>,
    request_text_len: Option<usize>,
)
    requires
        looked_up(schema, "properties"@) == Some(JsonView::Object(properties)),
        looked_up(properties, name) == Some(JsonView::Object(of)),
    ensures
        ({
            let capped = capped_schema(JsonView::Object(schema), field, request_text_len);
            let kind = looked_up(of, "type"@);
            &&& capped is Object
            &&& looked_up(capped->Object_0, "properties"@) matches Some(JsonView::Object(inner))
                && (looked_up(inner, name) matches Some(JsonView::Object(one)) && {
                &&& kind == Some(JsonView::Text("string"@)) && looked_up(of, "maxLength"@) is None
                    && looked_up(of, "enum"@) is None && looked_up(of, "const"@) is None
                    ==> looked_up(one, "maxLength"@) == Some(
                    json_int(string_budget(Some(name), request_text_len)),
                )
                &&& kind == Some(JsonView::Text("array"@)) && looked_up(of, "maxItems"@) is None
                    ==> looked_up(one, "maxItems"@) == Some(
                    json_int(DEFAULT_GUIDED_TOOL_ARRAY_MAX_ITEMS as int),
                )
                &&& kind == Some(JsonView::Text("object"@)) && looked_up(
                    of,
                    "additionalProperties"@,
                ) is None ==> looked_up(one, "additionalProperties"@) == Some(JsonView::Bool(false))
            })
        }),
{
    lemma_key_names();
    lemma_property_key();
    law_capping_keeps_the_client_schema(schema, field, request_text_len, "properties"@);
    let inner = capped_member(
        JsonView::Object(properties),
        "properties"@,
        field,
        request_text_len,
    )->Object_0;
    assert(inner.dom().contains(name));
    assert(inner[name] == capped_schema(JsonView::Object(of), Some(name), request_text_len));
}

/// Properties stand under a key of their own.
proof fn lemma_property_key()
    ensures
        "properties"@ != "anyOf"@ && "properties"@ != "oneOf"@ && "properties"@ != "allOf"@,
{
    reveal_strlit("properties");
    reveal_strlit("anyOf");
    reveal_strlit("oneOf");
    reveal_strlit("allOf");
    assert("properties"@.len() == 10 && "anyOf"@.len() == 5 && "oneOf"@.len() == 5
        && "allOf"@.len() == 5);
}

} // verus!
