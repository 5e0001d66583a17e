//! JSON values.

use crate::copy::Duplicate;
use crate::text::same_text;
use vstd::prelude::*;

verus! {

/// A JSON number. Numbers that are not integers are kept as their text.
#[derive(Debug, PartialEq, Eq)]
pub enum JsonNumber {
    Unsigned(u64),
    Negative(i64),
    Float(String),
}

/// The mathematical content of a [`JsonNumber`].
pub enum JsonNumberView {
    Integer(int),
    Float(Seq<char>),
}

impl View for JsonNumber {
    type V = JsonNumberView;

    open spec fn view(&self) -> JsonNumberView {
        match self {
            JsonNumber::Unsigned(n) => JsonNumberView::Integer(*n as int),
            JsonNumber::Negative(n) => JsonNumberView::Integer(*n as int),
            JsonNumber::Float(t) => JsonNumberView::Float(t@),
        }
    }
}

/// One member of a JSON object.
#[derive(Debug, PartialEq, Eq)]
pub struct JsonField {
    pub key: String,
    pub value: Json,
}

/// A JSON value.
#[derive(Debug, PartialEq, Eq)]
pub enum Json {
    Null,
    Bool(bool),
    Number(JsonNumber),
    Text(String),
    Array(Vec<Json>),
    Object(Vec<JsonField>),
}

/// The mathematical content of a [`Json`]: an object is a map from its keys.
#[verifier::ext_equal]
pub enum JsonView {
    Null,
    Bool(bool),
    Number(JsonNumberView),
    Text(Seq<char>),
    Array(Seq<JsonView>),
    Object(Map<Seq<char>, JsonView>),
}

/// The map that a list of object members stands for.
pub open spec fn fields_map(fields: Seq<JsonField>) -> Map<Seq<char>, JsonView>
    decreases fields,
{
    if fields.len() == 0 {
        Map::empty()
    } else {
        let n = fields.len() - 1;
        fields_map(fields.subrange(0, n)).insert(fields[n].key@, fields[n].value.model())
    }
}

impl Json {
    /// The value as a mathematical object.
    pub open spec fn model(self) -> JsonView
        decreases self,
    {
        match self {
            Json::Null => JsonView::Null,
            Json::Bool(b) => JsonView::Bool(b),
            Json::Number(n) => JsonView::Number(n@),
            Json::Text(t) => JsonView::Text(t@),
            Json::Array(items) => JsonView::Array(
                Seq::new(
                    items@.len(),
                    |i: int|
                        if 0 <= i < items@.len() {
                            items@[i].model()
                        } else {
                            JsonView::Null
                        },
                ),
            ),
            Json::Object(fields) => JsonView::Object(fields_map(fields@)),
        }
    }
}

impl View for Json {
    type V = JsonView;

    open spec fn view(&self) -> JsonView {
        self.model()
    }
}

impl DeepView for Json {
    type V = JsonView;

    open spec fn deep_view(&self) -> JsonView {
        self.model()
    }
}

/// A member whose key does not come again is what the map holds under that key.
pub proof fn lemma_fields_last(fields: Seq<JsonField>, i: int)
    requires
        0 <= i < fields.len(),
        forall|j: int| i < j < fields.len() ==> (#[trigger] fields[j]).key@ != fields[i].key@,
    ensures
        fields_map(fields).dom().contains(fields[i].key@),
        fields_map(fields)[fields[i].key@] == fields[i].value.model(),
    decreases fields.len(),
{
    let n = fields.len() - 1;
    if i < n {
        let front = fields.subrange(0, n);
        assert forall|j: int| i < j < front.len() implies (#[trigger] front[j]).key@
            != front[i].key@ by {
            assert(front[j] == fields[j]);
        }
        lemma_fields_last(front, i);
        assert(fields[n].key@ != fields[i].key@);
    }
}

/// A key that no member has is not in the map.
pub proof fn lemma_fields_absent(fields: Seq<JsonField>, key: Seq<char>)
    requires
        forall|j: int| 0 <= j < fields.len() ==> (#[trigger] fields[j]).key@ != key,
    ensures
        !fields_map(fields).dom().contains(key),
    decreases fields.len(),
{
    if fields.len() > 0 {
        let front = fields.subrange(0, fields.len() - 1);
        assert forall|j: int| 0 <= j < front.len() implies (#[trigger] front[j]).key@ != key by {
            assert(front[j] == fields[j]);
        }
        lemma_fields_absent(front, key);
        assert(fields[fields.len() - 1].key@ != key);
    }
}

/// Adding a member at the end is an insertion into the map.
pub proof fn lemma_fields_push(fields: Seq<JsonField>, field: JsonField)
    ensures
        fields_map(fields.push(field)) == fields_map(fields).insert(
            field.key@,
            field.value.model(),
        ),
{
    let all = fields.push(field);
    assert(all.subrange(0, all.len() - 1) =~= fields);
}

/// Replacing the value of the last member under a key is an insertion into the map.
pub proof fn lemma_fields_update(fields: Seq<JsonField>, i: int, field: JsonField)
    requires
        0 <= i < fields.len(),
        field.key@ == fields[i].key@,
        forall|j: int| i < j < fields.len() ==> (#[trigger] fields[j]).key@ != fields[i].key@,
    ensures
        fields_map(fields.update(i, field)) == fields_map(fields).insert(
            field.key@,
            field.value.model(),
        ),
    decreases fields.len(),
{
    let n = fields.len() - 1;
    let front = fields.subrange(0, n);
    let changed = fields.update(i, field);
    if i == n {
        assert(changed.subrange(0, n) =~= front);
        assert(fields_map(changed) =~= fields_map(fields).insert(field.key@, field.value.model()));
    } else {
        assert forall|j: int| i < j < front.len() implies (#[trigger] front[j]).key@
            != front[i].key@ by {
            assert(front[j] == fields[j]);
        }
        lemma_fields_update(front, i, field);
        assert(changed.subrange(0, n) =~= front.update(i, field));
        assert(fields[n].key@ != fields[i].key@);
        assert(fields_map(changed) =~= fields_map(fields).insert(field.key@, field.value.model()));
    }
}

/// The last position of a member under `key`.
pub(crate) fn last_position(fields: &Vec<JsonField>, key: &str) -> (r: Option<usize>)
    ensures
        r matches Some(i) ==> {
            &&& i < fields@.len()
            &&& fields@[i as int].key@ == key@
            &&& forall|j: int| i < j < fields@.len() ==> (#[trigger] fields@[j]).key@ != key@
        },
        r is None ==> forall|j: int|
            0 <= j < fields@.len() ==> (#[trigger] fields@[j]).key@ != key@,
{
    let mut i: usize = fields.len();
    while i > 0
        invariant
            i <= fields@.len(),
            forall|j: int| i <= j < fields@.len() ==> (#[trigger] fields@[j]).key@ != key@,
        decreases i,
    {
        if same_text(fields[i - 1].key.as_str(), key) {
            return Some(i - 1);
        }
        i -= 1;
    }
    None
}

/// The member of an object under `key`; nothing for other values.
pub open spec fn member(v: JsonView, key: Seq<char>) -> Option<JsonView> {
    match v {
        JsonView::Object(m) => if m.dom().contains(key) {
            Some(m[key])
        } else {
            None
        },
        _ => None,
    }
}

impl Json {
    /// An object without members.
    pub fn empty_object() -> (r: Json)
        ensures
            r@ == JsonView::Object(Map::empty()),
    {
        let fields: Vec<JsonField> = Vec::new();
        assert(fields_map(fields@) =~= Map::empty());
        Json::Object(fields)
    }

    /// A text value.
    pub fn text(s: &str) -> (r: Json)
        ensures
            r@ == JsonView::Text(s@),
    {
        Json::Text(s.to_owned())
    }

    /// A number that is not negative.
    pub fn unsigned(n: u64) -> (r: Json)
        ensures
            r@ == JsonView::Number(JsonNumberView::Integer(n as int)),
    {
        Json::Number(JsonNumber::Unsigned(n))
    }

    /// The member under `key`, where the value is an object that has one.
    pub fn get(&self, key: &str) -> (r: Option<&Json>)
        ensures
            r matches Some(v) ==> member(self@, key@) == Some(v@),
            r is None ==> member(self@, key@) is None,
    {
        match self {
            Json::Object(fields) => {
                match last_position(fields, key) {
                    Some(i) => {
                        proof {
                            lemma_fields_last(fields@, i as int);
                        }
                        Some(&fields[i].value)
                    },
                    None => {
                        proof {
                            lemma_fields_absent(fields@, key@);
                        }
                        None
                    },
                }
            },
            _ => None,
        }
    }

    /// Sets the member under `key`; values that are not objects stay as they are.
    pub fn set(&mut self, key: &str, value: Json)
        ensures
            final(self)@ == (match old(self)@ {
                JsonView::Object(m) => JsonView::Object(m.insert(key@, value@)),
                other => other,
            }),
    {
        match self {
            Json::Object(fields) => {
                match last_position(fields, key) {
                    Some(i) => {
                        let field: JsonField = JsonField { key: key.to_owned(), value };
                        proof {
                            lemma_fields_update(fields@, i as int, field);
                        }
                        fields[i] = field;
                    },
                    None => {
                        let field: JsonField = JsonField { key: key.to_owned(), value };
                        proof {
                            lemma_fields_push(fields@, field);
                        }
                        fields.push(field);
                    },
                }
            },
            _ => {},
        }
    }

    /// This object with `value` under `key`.
    pub fn with(self, key: &str, value: Json) -> (r: Json)
        ensures
            r@ == (match self@ {
                JsonView::Object(m) => JsonView::Object(m.insert(key@, value@)),
                other => other,
            }),
    {
        let mut out: Json = self;
        out.set(key, value);
        out
    }

    /// The text of a text value.
    pub fn as_str(&self) -> (r: Option<&str>)
        ensures
            r matches Some(t) ==> self@ == JsonView::Text(t@),
            r is None ==> !(self@ is Text),
    {
        match self {
            Json::Text(t) => Some(t.as_str()),
            _ => None,
        }
    }

    /// Whether the value is an object.
    pub fn is_object(&self) -> (r: bool)
        ensures
            r == (self@ is Object),
    {
        match self {
            Json::Object(_) => true,
            _ => false,
        }
    }
}


/// Elementwise equal models make equal maps.
pub proof fn lemma_fields_same(a: Seq<JsonField>, b: Seq<JsonField>)
    requires
        a.len() == b.len(),
        forall|i: int|
            0 <= i < a.len() ==> (#[trigger] a[i]).key@ == b[i].key@ && a[i].value.model()
                == b[i].value.model(),
    ensures
        fields_map(a) == fields_map(b),
    decreases a.len(),
{
    if a.len() > 0 {
        let n = a.len() - 1;
        let fa = a.subrange(0, n);
        let fb = b.subrange(0, n);
        assert forall|i: int| 0 <= i < fa.len() implies (#[trigger] fa[i]).key@ == fb[i].key@
            && fa[i].value.model() == fb[i].value.model() by {
            assert(fa[i] == a[i] && fb[i] == b[i]);
        }
        lemma_fields_same(fa, fb);
        assert(a[n].key@ == b[n].key@);
    }
}

fn duplicate_json(v: &Json) -> (r: Json)
    ensures
        r@ == v@,
    decreases v,
{
    match v {
        Json::Null => Json::Null,
        Json::Bool(b) => Json::Bool(*b),
        Json::Number(n) => Json::Number(
            match n {
                JsonNumber::Unsigned(u) => JsonNumber::Unsigned(*u),
                JsonNumber::Negative(i) => JsonNumber::Negative(*i),
                JsonNumber::Float(t) => JsonNumber::Float(t.clone()),
            },
        ),
        Json::Text(t) => Json::Text(t.clone()),
        Json::Array(items) => {
            let mut out: Vec<Json> = Vec::new();
            let mut i: usize = 0;
            while i < items.len()
                invariant
                    *v == Json::Array(*items),
                    i <= items@.len(),
                    out@.len() == i,
                    forall|k: int| 0 <= k < i ==> out@[k].model() == items@[k].model(),
                decreases items@.len() - i,
            {
                assert(decreases_to!(v => v->Array_0));
                assert(decreases_to!(*items => items@[i as int]));
                let item: Json = duplicate_json(&items[i]);
                out.push(item);
                i += 1;
            }
            let r: Json = Json::Array(out);
            assert(r@->Array_0 =~= v@->Array_0);
            r
        },
        Json::Object(fields) => {
            let mut out: Vec<JsonField> = Vec::new();
            let mut i: usize = 0;
            while i < fields.len()
                invariant
                    *v == Json::Object(*fields),
                    i <= fields@.len(),
                    out@.len() == i,
                    forall|k: int|
                        0 <= k < i ==> (#[trigger] out@[k]).key@ == fields@[k].key@
                            && out@[k].value.model() == fields@[k].value.model(),
                decreases fields@.len() - i,
            {
                assert(decreases_to!(v => v->Object_0));
                assert(decreases_to!(*fields => fields@[i as int]));
                assert(decreases_to!(fields@[i as int] => fields@[i as int].value));
                let value: Json = duplicate_json(&fields[i].value);
                out.push(JsonField { key: fields[i].key.clone(), value });
                i += 1;
            }
            proof {
                lemma_fields_same(out@, fields@);
            }
            Json::Object(out)
        },
    }
}

impl Duplicate for Json {
    fn duplicate(&self) -> (r: Self) {
        duplicate_json(self)
    }
}

/// The text of a floating-point zero, which has one of two signs.
pub open spec fn is_zero_text(t: Seq<char>) -> bool {
    t == "0.0"@ || t == "-0.0"@
}

/// The two numbers have the same value: integers are compared as such, other numbers by
/// their text, in which a zero may have either sign.
pub open spec fn numbers_agree(a: JsonNumberView, b: JsonNumberView) -> bool {
    match (a, b) {
        (JsonNumberView::Float(x), JsonNumberView::Float(y)) => x == y || is_zero_text(x)
            && is_zero_text(y),
        _ => a == b,
    }
}

/// The two values are the same up to the signs of zeros; the order of object members does
/// not count.
pub open spec fn values_agree(a: JsonView, b: JsonView) -> bool
    decreases a,
{
    match (a, b) {
        (JsonView::Number(x), JsonView::Number(y)) => numbers_agree(x, y),
        (JsonView::Array(x), JsonView::Array(y)) => x.len() == y.len() && forall|i: int|
            0 <= i < x.len() ==> values_agree(#[trigger] x[i], y[i]),
        (JsonView::Object(x), JsonView::Object(y)) => x.dom() == y.dom() && forall|key: Seq<char>|
            #[trigger] x.dom().contains(key) ==> values_agree(x[key], y[key]),
        _ => a == b,
    }
}

fn is_zero(t: &str) -> (r: bool)
    ensures
        r == is_zero_text(t@),
{
    same_text(t, "0.0") || same_text(t, "-0.0")
}

fn same_number(a: &JsonNumber, b: &JsonNumber) -> (r: bool)
    ensures
        r == numbers_agree(a@, b@),
{
    match (a, b) {
        (JsonNumber::Unsigned(x), JsonNumber::Unsigned(y)) => *x == *y,
        (JsonNumber::Negative(x), JsonNumber::Negative(y)) => *x == *y,
        (JsonNumber::Unsigned(x), JsonNumber::Negative(y)) => *y >= 0 && *y as u64 == *x,
        (JsonNumber::Negative(x), JsonNumber::Unsigned(y)) => *x >= 0 && *x as u64 == *y,
        (JsonNumber::Float(x), JsonNumber::Float(y)) => same_text(x.as_str(), y.as_str()) || is_zero(
            x.as_str(),
        ) && is_zero(y.as_str()),
        _ => false,
    }
}

/// Every key of the map is the key of a member.
pub proof fn lemma_fields_key(fields: Seq<JsonField>, key: Seq<char>)
    requires
        fields_map(fields).dom().contains(key),
    ensures
        exists|i: int| 0 <= i < fields.len() && (#[trigger] fields[i]).key@ == key,
{
    if forall|j: int| 0 <= j < fields.len() ==> (#[trigger] fields[j]).key@ != key {
        lemma_fields_absent(fields, key);
    }
}

/// Among the members under a key of the map, one is the last.
pub proof fn lemma_fields_final(fields: Seq<JsonField>, key: Seq<char>)
    requires
        fields_map(fields).dom().contains(key),
    ensures
        exists|i: int|
            0 <= i < fields.len() && (#[trigger] fields[i]).key@ == key && (forall|j: int|
                i < j < fields.len() ==> (#[trigger] fields[j]).key@ != key),
    decreases fields.len(),
{
    let n = fields.len() - 1;
    if fields[n].key@ != key {
        let front = fields.subrange(0, n);
        lemma_fields_final(front, key);
        let i = choose|i: int|
            0 <= i < front.len() && (#[trigger] front[i]).key@ == key && (forall|j: int|
                i < j < front.len() ==> (#[trigger] front[j]).key@ != key);
        assert(fields[i].key@ == key);
        assert forall|j: int| i < j < fields.len() implies (#[trigger] fields[j]).key@ != key by {
            if j < n {
                assert(front[j] == fields[j]);
            }
        }
    } else {
        assert(fields[n].key@ == key);
    }
}

/// Every member's key is in the map.
pub proof fn lemma_fields_dom(fields: Seq<JsonField>, i: int)
    requires
        0 <= i < fields.len(),
    ensures
        fields_map(fields).dom().contains(fields[i].key@),
    decreases fields.len(),
{
    let n = fields.len() - 1;
    if i < n {
        let front = fields.subrange(0, n);
        lemma_fields_dom(front, i);
        assert(front[i] == fields[i]);
    }
}

/// The two objects agree in what they have under the key.
spec fn members_agree(a: JsonView, b: JsonView, key: Seq<char>) -> bool {
    match (member(a, key), member(b, key)) {
        (Some(x), Some(y)) => values_agree(x, y),
        (None, None) => true,
        _ => false,
    }
}

/// Whether two values are the same; the order of object members does not count, nor does
/// the sign of a zero.
pub fn json_equal(a: &Json, b: &Json) -> (r: bool)
    ensures
        r == values_agree(a@, b@),
    decreases a,
{
    match (a, b) {
        (Json::Null, Json::Null) => true,
        (Json::Bool(x), Json::Bool(y)) => *x == *y,
        (Json::Number(x), Json::Number(y)) => same_number(x, y),
        (Json::Text(x), Json::Text(y)) => same_text(x.as_str(), y.as_str()),
        (Json::Array(x), Json::Array(y)) => {
            if x.len() != y.len() {
                assert(a@->Array_0.len() != b@->Array_0.len());
                return false;
            }
            let mut i: usize = 0;
            while i < x.len()
                invariant
                    *a == Json::Array(*x),
                    *b == Json::Array(*y),
                    x@.len() == y@.len(),
                    i <= x@.len(),
                    forall|k: int|
                        0 <= k < i ==> values_agree(#[trigger] a@->Array_0[k], b@->Array_0[k]),
                decreases x@.len() - i,
            {
                if !json_equal(&x[i], &y[i]) {
                    assert(!values_agree(a@->Array_0[i as int], b@->Array_0[i as int]));
                    return false;
                }
                i += 1;
            }
            true
        },
        (Json::Object(x), Json::Object(y)) => {
            let mut i: usize = 0;
            while i < x.len()
                invariant
                    *a == Json::Object(*x),
                    *b == Json::Object(*y),
                    i <= x@.len(),
                    forall|k: int|
                        #![trigger x@[k]]
                        0 <= k < i ==> members_agree(a@, b@, x@[k].key@),
                decreases x@.len() - i,
            {
                let key: &str = x[i].key.as_str();
                let at: Option<usize> = last_position(x, key);
                if at.is_none() {
                    assert(x@[i as int].key@ == key@);
                    return false;
                }
                let p: usize = at.unwrap();
                proof {
                    lemma_fields_last(x@, p as int);
                }
                match b.get(key) {
                    None => {
                        assert(a@->Object_0.dom().contains(key@));
                        assert(!b@->Object_0.dom().contains(key@));
                        return false;
                    },
                    Some(other) => {
                        if !json_equal(&x[p].value, other) {
                            assert(a@->Object_0.dom().contains(key@));
                            return false;
                        }
                    },
                }
                i += 1;
            }
            let mut j: usize = 0;
            while j < y.len()
                invariant
                    *a == Json::Object(*x),
                    *b == Json::Object(*y),
                    j <= y@.len(),
                    forall|k: int|
                        #![trigger x@[k]]
                        0 <= k < x@.len() ==> members_agree(a@, b@, x@[k].key@),
                    forall|k: int|
                        #![trigger y@[k]]
                        0 <= k < j ==> member(a@, y@[k].key@) is Some,
                decreases y@.len() - j,
            {
                if a.get(y[j].key.as_str()).is_none() {
                    proof {
                        lemma_fields_dom(y@, j as int);
                    }
                    assert(!a@->Object_0.dom().contains(y@[j as int].key@));
                    return false;
                }
                j += 1;
            }
            proof {
                let ma = fields_map(x@);
                let mb = fields_map(y@);
                assert forall|key: Seq<char>|
                    #![trigger ma.dom().contains(key)]
                    #![trigger mb.dom().contains(key)]
                    ma.dom().contains(key) == mb.dom().contains(key) && (ma.dom().contains(key)
                        ==> values_agree(ma[key], mb[key])) by {
                    if ma.dom().contains(key) {
                        lemma_fields_key(x@, key);
                        let i = choose|i: int|
                            0 <= i < x@.len() && (#[trigger] x@[i]).key@ == key;
                        assert(members_agree(a@, b@, key));
                    } else if mb.dom().contains(key) {
                        lemma_fields_key(y@, key);
                        let i = choose|i: int|
                            0 <= i < y@.len() && (#[trigger] y@[i]).key@ == key;
                        assert(member(a@, key) is Some);
                    }
                }
                assert(ma.dom() =~= mb.dom());
            }
            true
        },
        _ => false,
    }
}

/// A list of named JSON values; where a name comes twice, the last value counts.
#[derive(Debug, PartialEq, Eq)]
pub struct JsonMap {
    pub fields: Vec<JsonField>,
}

impl View for JsonMap {
    type V = Map<Seq<char>, JsonView>;

    open spec fn view(&self) -> Map<Seq<char>, JsonView> {
        fields_map(self.fields@)
    }
}

impl DeepView for JsonMap {
    type V = Map<Seq<char>, JsonView>;

    open spec fn deep_view(&self) -> Map<Seq<char>, JsonView> {
        fields_map(self.fields@)
    }
}

/// The value under `key`.
pub open spec fn looked_up(m: Map<Seq<char>, JsonView>, key: Seq<char>) -> Option<JsonView> {
    if m.dom().contains(key) {
        Some(m[key])
    } else {
        None
    }
}

impl JsonMap {
    /// No values.
    pub fn new() -> (r: JsonMap)
        ensures
            r@ == Map::<Seq<char>, JsonView>::empty(),
    {
        let r: JsonMap = JsonMap { fields: Vec::new() };
        assert(r@ =~= Map::<Seq<char>, JsonView>::empty());
        r
    }

    /// The value under `key`.
    pub fn get(&self, key: &str) -> (r: Option<&Json>)
        ensures
            r matches Some(v) ==> looked_up(self@, key@) == Some(v@),
            r is None ==> looked_up(self@, key@) is None,
    {
        match last_position(&self.fields, key) {
            Some(i) => {
                proof {
                    lemma_fields_last(self.fields@, i as int);
                }
                Some(&self.fields[i].value)
            },
            None => {
                proof {
                    lemma_fields_absent(self.fields@, key@);
                }
                None
            },
        }
    }

    /// Whether there is a value under `key`.
    pub fn contains_key(&self, key: &str) -> (r: bool)
        ensures
            r == self@.dom().contains(key@),
    {
        self.get(key).is_some()
    }

    /// Sets the value under `key`.
    pub fn insert(&mut self, key: &str, value: Json)
        ensures
            final(self)@ == old(self)@.insert(key@, value@),
    {
        let field: JsonField = JsonField { key: key.to_owned(), value };
        match last_position(&self.fields, key) {
            Some(i) => {
                proof {
                    lemma_fields_update(self.fields@, i as int, field);
                }
                self.fields[i] = field;
            },
            None => {
                proof {
                    lemma_fields_push(self.fields@, field);
                }
                self.fields.push(field);
            },
        }
    }

    /// Takes away the value under `key`.
    pub fn remove(&mut self, key: &str)
        ensures
            final(self)@ == old(self)@.remove(key@),
    {
        let ghost all = self.fields@;
        let mut out: Vec<JsonField> = Vec::new();
        let mut i: usize = 0;
        assert(all.subrange(0, 0) =~= Seq::empty());
        assert(fields_map(out@) =~= fields_map(all.subrange(0, 0)).remove(key@));
        while i < self.fields.len()
            invariant
                all == self.fields@,
                i <= all.len(),
                fields_map(out@) == fields_map(all.subrange(0, i as int)).remove(key@),
            decreases all.len() - i,
        {
            let ghost front = all.subrange(0, i as int);
            assert(all.subrange(0, i + 1) =~= front.push(all[i as int]));
            proof {
                lemma_fields_push(front, all[i as int]);
            }
            if !same_text(self.fields[i].key.as_str(), key) {
                let field: JsonField = JsonField {
                    key: self.fields[i].key.clone(),
                    value: self.fields[i].value.duplicate(),
                };
                proof {
                    lemma_fields_push(out@, field);
                }
                out.push(field);
                assert(fields_map(out@) =~= fields_map(all.subrange(0, i + 1)).remove(key@));
            } else {
                assert(fields_map(out@) =~= fields_map(all.subrange(0, i + 1)).remove(key@));
            }
            i += 1;
        }
        assert(all.subrange(0, all.len() as int) =~= all);
        self.fields = out;
    }
}

} // verus!
