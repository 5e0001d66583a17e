//! JSON values with the members of every object in the order of their keys.

use crate::json::{fields_map, lemma_fields_push, lemma_fields_update, Json, JsonField};
use crate::text::{chars_of, same_text};
use vstd::prelude::*;

verus! {

/// `a` comes before `b` in the order of their characters.
pub open spec fn text_less(a: Seq<char>, b: Seq<char>) -> bool
    decreases b.len(),
{
    if b.len() == 0 {
        false
    } else if a.len() == 0 {
        true
    } else if a[0] != b[0] {
        b[0] > a[0]
    } else {
        text_less(a.subrange(1, a.len() as int), b.subrange(1, b.len() as int))
    }
}

/// The keys ascend; none comes twice.
pub open spec fn keys_ascend(fields: Seq<JsonField>) -> bool {
    forall|i: int, j: int|
        0 <= i < j < fields.len() ==> text_less(
            (#[trigger] fields[i]).key@,
            (#[trigger] fields[j]).key@,
        )
}

/// In every object of the value, the keys ascend.
pub open spec fn is_canonical(value: Json) -> bool
    decreases value,
{
    match value {
        Json::Array(items) => forall|i: int|
            0 <= i < items@.len() ==> is_canonical(#[trigger] items@[i]),
        Json::Object(fields) => keys_ascend(fields@) && forall|i: int|
            0 <= i < fields@.len() ==> is_canonical((#[trigger] fields@[i]).value),
        _ => true,
    }
}

pub proof fn lemma_less_self(a: Seq<char>)
    ensures
        !text_less(a, a),
    decreases a.len(),
{
    if a.len() > 0 {
        lemma_less_self(a.subrange(1, a.len() as int));
    }
}

pub proof fn lemma_less_total(a: Seq<char>, b: Seq<char>)
    ensures
        text_less(a, b) || text_less(b, a) || a == b,
        !(text_less(a, b) && text_less(b, a)),
        !text_less(a, a),
    decreases a.len() + b.len(),
{
    lemma_less_self(a);
    if a.len() > 0 && b.len() > 0 && a[0] == b[0] {
        let ra = a.subrange(1, a.len() as int);
        let rb = b.subrange(1, b.len() as int);
        lemma_less_total(ra, rb);
        if ra == rb {
            assert(a =~= seq![a[0]] + ra);
            assert(b =~= seq![b[0]] + rb);
        }
    } else if a.len() == 0 && b.len() == 0 {
        assert(a =~= b);
    }
}

pub proof fn lemma_less_transitive(a: Seq<char>, b: Seq<char>, c: Seq<char>)
    requires
        text_less(a, b),
        text_less(b, c),
    ensures
        text_less(a, c),
    decreases b.len(),
{
    if a.len() > 0 && a[0] == b[0] && b[0] == c[0] {
        lemma_less_transitive(
            a.subrange(1, a.len() as int),
            b.subrange(1, b.len() as int),
            c.subrange(1, c.len() as int),
        );
    }
}

/// Whether `a` comes before `b`.
fn is_less(a: &str, b: &str) -> (r: bool)
    ensures
        r == text_less(a@, b@),
{
    let x: Vec<char> = chars_of(a);
    let y: Vec<char> = chars_of(b);
    let mut i: usize = 0;
    assert(x@.subrange(0, x@.len() as int) =~= x@);
    assert(y@.subrange(0, y@.len() as int) =~= y@);
    loop
        invariant
            x@ == a@,
            y@ == b@,
            i <= x@.len(),
            i <= y@.len(),
            text_less(a@, b@) == text_less(
                x@.subrange(i as int, x@.len() as int),
                y@.subrange(i as int, y@.len() as int),
            ),
        decreases x@.len() - i,
    {
        if i >= y.len() {
            return false;
        }
        if i >= x.len() {
            return true;
        }
        if x[i] != y[i] {
            return y[i] > x[i];
        }
        let ghost rx = x@.subrange(i as int, x@.len() as int);
        let ghost ry = y@.subrange(i as int, y@.len() as int);
        assert(rx.subrange(1, rx.len() as int) =~= x@.subrange(i + 1, x@.len() as int));
        assert(ry.subrange(1, ry.len() as int) =~= y@.subrange(i + 1, y@.len() as int));
        i += 1;
    }
}

/// A member whose key is new can stand anywhere.
proof fn lemma_fields_insert(fields: Seq<JsonField>, i: int, field: JsonField)
    requires
        0 <= i <= fields.len(),
        forall|j: int| 0 <= j < fields.len() ==> (#[trigger] fields[j]).key@ != field.key@,
    ensures
        fields_map(fields.insert(i, field)) == fields_map(fields).insert(
            field.key@,
            field.value.model(),
        ),
    decreases fields.len(),
{
    let all = fields.insert(i, field);
    if i == fields.len() {
        assert(all =~= fields.push(field));
        lemma_fields_push(fields, field);
    } else {
        let n = fields.len() - 1;
        let front = fields.subrange(0, n);
        assert(all.subrange(0, n + 1) =~= front.insert(i, field));
        assert(all[n + 1] == fields[n]);
        assert forall|j: int| 0 <= j < front.len() implies (#[trigger] front[j]).key@
            != field.key@ by {
            assert(front[j] == fields[j]);
        }
        lemma_fields_insert(front, i, field);
        assert(fields[n].key@ != field.key@);
        assert(fields_map(all) =~= fields_map(fields).insert(field.key@, field.value.model()));
    }
}

/// Puts a member in its place; a member with the same key is replaced.
fn put_in_order(out: &mut Vec<JsonField>, field: JsonField)
    requires
        keys_ascend(old(out)@),
        forall|k: int| 0 <= k < old(out)@.len() ==> is_canonical((#[trigger] old(out)@[k]).value),
        is_canonical(field.value),
    ensures
        keys_ascend(final(out)@),
        forall|k: int|
            0 <= k < final(out)@.len() ==> is_canonical((#[trigger] final(out)@[k]).value),
        fields_map(final(out)@) == fields_map(old(out)@).insert(
            field.key@,
            field.value.model(),
        ),
{
    let ghost before = out@;
    let mut i: usize = 0;
    while i < out.len() && is_less(out[i].key.as_str(), field.key.as_str())
        invariant
            out@ == before,
            i <= out@.len(),
            forall|k: int| 0 <= k < i ==> text_less((#[trigger] before[k]).key@, field.key@),
        decreases out@.len() - i,
    {
        i += 1;
    }
    proof {
        assert forall|k: int| i < k < before.len() implies text_less(
            field.key@,
            (#[trigger] before[k]).key@,
        ) by {
            lemma_less_total(before[i as int].key@, field.key@);
            assert(text_less(before[i as int].key@, before[k].key@));
            if before[i as int].key@ != field.key@ {
                lemma_less_transitive(field.key@, before[i as int].key@, before[k].key@);
            }
        }
        assert forall|k: int| #![trigger before[k]] 0 <= k < before.len() && k != i implies before[k].key@
            != field.key@ by {
            lemma_less_total(field.key@, field.key@);
        }
        if i < before.len() {
            lemma_less_total(before[i as int].key@, field.key@);
        }
    }
    if i < out.len() && same_text(out[i].key.as_str(), field.key.as_str()) {
        proof {
            lemma_fields_update(before, i as int, field);
        }
        out[i] = field;
    } else {
        proof {
            lemma_fields_insert(before, i as int, field);
        }
        out.insert(i, field);
        proof {
            let after = out@;
            assert forall|a: int, b: int| 0 <= a < b < after.len() implies text_less(
                (#[trigger] after[a]).key@,
                (#[trigger] after[b]).key@,
            ) by {
                let pa = if a < i {
                    a
                } else {
                    a - 1
                };
                let pb = if b < i {
                    b
                } else {
                    b - 1
                };
                if a != i {
                    assert(after[a] == before[pa]);
                }
                if b != i {
                    assert(after[b] == before[pb]);
                }
            }
            assert forall|k: int| 0 <= k < after.len() implies is_canonical(
                (#[trigger] after[k]).value,
            ) by {
                if k < i {
                    assert(after[k] == before[k]);
                } else if k > i {
                    assert(after[k] == before[k - 1]);
                }
            }
        }
    }
}

/// The same value with the members of every object in the order of their keys.
pub fn canonicalize_json_value(value: &Json) -> (r: Json)
    ensures
        r@ == value@,
        is_canonical(r),
    decreases value,
{
    match value {
        Json::Array(items) => {
            let mut out: Vec<Json> = Vec::new();
            let mut i: usize = 0;
            while i < items.len()
                invariant
                    *value == Json::Array(*items),
                    i <= items@.len(),
                    out@.len() == i,
                    forall|k: int|
                        0 <= k < i ==> (#[trigger] out@[k]).model() == items@[k].model()
                            && is_canonical(out@[k]),
                decreases items@.len() - i,
            {
                assert(decreases_to!(value => value->Array_0));
                assert(decreases_to!(*items => items@[i as int]));
                out.push(canonicalize_json_value(&items[i]));
                i += 1;
            }
            let r: Json = Json::Array(out);
            assert(r@->Array_0 =~= value@->Array_0);
            r
        },
        Json::Object(fields) => {
            let mut out: Vec<JsonField> = Vec::new();
            let mut i: usize = 0;
            assert(fields@.subrange(0, 0) =~= Seq::empty());
            while i < fields.len()
                invariant
                    *value == Json::Object(*fields),
                    i <= fields@.len(),
                    keys_ascend(out@),
                    forall|k: int|
                        0 <= k < out@.len() ==> is_canonical((#[trigger] out@[k]).value),
                    fields_map(out@) == fields_map(fields@.subrange(0, i as int)),
                decreases fields@.len() - i,
            {
                assert(decreases_to!(value => value->Object_0));
                assert(decreases_to!(*fields => fields@[i as int]));
                assert(decreases_to!(fields@[i as int] => fields@[i as int].value));
                let ghost next = fields@.subrange(0, i + 1);
                assert(next.subrange(0, next.len() - 1) =~= fields@.subrange(0, i as int));
                let inner: Json = canonicalize_json_value(&fields[i].value);
                put_in_order(&mut out, JsonField { key: fields[i].key.clone(), value: inner });
                i += 1;
            }
            assert(fields@.subrange(0, fields@.len() as int) =~= fields@);
            Json::Object(out)
        },
        _ => crate::copy::Duplicate::duplicate(value),
    }
}

} // verus!
