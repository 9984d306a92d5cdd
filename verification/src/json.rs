//! JSON values as plain data, and the text they are read from and written to.

use serde_json::Value;
use vstd::prelude::*;

use crate::name_map::{views, Replica};
use crate::text::same_text;

verus! {

/// A JSON number. Whole numbers are kept as integers; any other number is kept
/// as the text that spells it.
#[derive(Debug, PartialEq, Eq)]
pub enum Number {
    Unsigned(u64),
    Negative(i64),
    Other(String),
}

/// A JSON value. The members of an object keep the order they came in.
#[derive(Debug, PartialEq, Eq)]
pub enum Json {
    Null,
    Bool(bool),
    Number(Number),
    Text(String),
    Array(Vec<Json>),
    Object(Vec<(String, Json)>),
}

/// The model of a JSON value.
pub enum Doc {
    Null,
    Bool(bool),
    Whole(int),
    Other(Seq<char>),
    Text(Seq<char>),
    Array(Seq<Doc>),
    Object(Seq<Member>),
}

/// One member of an object: its name and its value.
pub struct Member {
    pub key: Seq<char>,
    pub value: Doc,
}

/// The member `value` under the name `key`.
pub open spec fn at(key: Seq<char>, value: Doc) -> Member {
    Member { key, value }
}

impl View for Json {
    type V = Doc;

    open spec fn view(&self) -> Doc
        decreases self,
    {
        match self {
            Json::Null => Doc::Null,
            Json::Bool(b) => Doc::Bool(*b),
            Json::Number(Number::Unsigned(n)) => Doc::Whole(*n as int),
            Json::Number(Number::Negative(n)) => Doc::Whole(*n as int),
            Json::Number(Number::Other(t)) => Doc::Other(t@),
            Json::Text(t) => Doc::Text(t@),
            Json::Array(items) => Doc::Array(
                Seq::new(
                    items@.len(),
                    |i: int|
                        if 0 <= i < items@.len() {
                            items@[i].view()
                        } else {
                            Doc::Null
                        },
                ),
            ),
            Json::Object(members) => Doc::Object(
                Seq::new(
                    members@.len(),
                    |i: int|
                        if 0 <= i < members@.len() {
                            Member { key: members@[i].0@, value: members@[i].1.view() }
                        } else {
                            Member { key: Seq::empty(), value: Doc::Null }
                        },
                ),
            ),
        }
    }
}

/// The member of an object under `key`, the first where there are several.
pub open spec fn member_in(members: Seq<Member>, key: Seq<char>) -> Option<Doc>
    decreases members.len(),
{
    if members.len() == 0 {
        None
    } else if members[0].key == key {
        Some(members[0].value)
    } else {
        member_in(members.drop_first(), key)
    }
}

impl Doc {
    /// The member of this object under `key`; any other value has no members.
    pub open spec fn member(self, key: Seq<char>) -> Option<Doc> {
        match self {
            Doc::Object(members) => member_in(members, key),
            _ => None,
        }
    }

    /// The text of this value, where it is a text.
    pub open spec fn text(self) -> Option<Seq<char>> {
        match self {
            Doc::Text(t) => Some(t),
            _ => None,
        }
    }

    /// The member under `key`, where it is a text.
    pub open spec fn text_member(self, key: Seq<char>) -> Option<Seq<char>> {
        match self.member(key) {
            Some(v) => v.text(),
            None => None,
        }
    }

    /// This object with one member more; any other value as it is.
    pub open spec fn with(self, key: Seq<char>, value: Doc) -> Doc {
        match self {
            Doc::Object(members) => Doc::Object(members.push(at(key, value))),
            other => other,
        }
    }

    /// An object without members.
    pub open spec fn empty() -> Doc {
        Doc::Object(Seq::empty())
    }

    /// The items of this value, where it is an array.
    pub open spec fn items(self) -> Option<Seq<Doc>> {
        match self {
            Doc::Array(items) => Some(items),
            _ => None,
        }
    }
}

/// The models of a row of values.
pub open spec fn docs(items: Seq<Json>) -> Seq<Doc> {
    views(items)
}

/// The models of a row of members.
pub open spec fn member_docs(members: Seq<(String, Json)>) -> Seq<Member> {
    members.map_values(|m: (String, Json)| at(m.0@, m.1@))
}

pub proof fn lemma_array_view(items: Vec<Json>)
    ensures
        Json::Array(items)@ == Doc::Array(docs(items@)),
{
    assert(Json::Array(items)@->Array_0 =~= docs(items@));
}

pub proof fn lemma_object_view(members: Vec<(String, Json)>)
    ensures
        Json::Object(members)@ == Doc::Object(member_docs(members@)),
{
    assert(Json::Object(members)@->Object_0 =~= member_docs(members@));
}

impl Replica for Json {
    fn replica(&self) -> (r: Self)
        decreases self,
    {
        match self {
            Json::Null => Json::Null,
            Json::Bool(b) => Json::Bool(*b),
            Json::Number(Number::Unsigned(n)) => Json::Number(Number::Unsigned(*n)),
            Json::Number(Number::Negative(n)) => Json::Number(Number::Negative(*n)),
            Json::Number(Number::Other(t)) => Json::Number(Number::Other(t.clone())),
            Json::Text(t) => Json::Text(t.clone()),
            Json::Array(items) => {
                let mut out: Vec<Json> = Vec::new();
                let mut i: usize = 0;
                while i < items.len()
                    invariant
                        i <= items.len(),
                        self == Json::Array(*items),
                        docs(out@) == docs(items@).subrange(0, i as int),
                    decreases items.len() - i,
                {
                    let ghost prev = docs(out@);
                    assert(self->Array_0 == *items);
                    assert(decreases_to!(*self => self->Array_0));
                    assert(decreases_to!(*items => items[i as int]));
                    let v = items[i].replica();
                    out.push(v);
                    assert(docs(out@) =~= prev.push(items@[i as int]@));
                    i = i + 1;
                    assert(docs(out@) =~= docs(items@).subrange(0, i as int));
                }
                proof {
                    assert(docs(out@) =~= docs(items@));
                    lemma_array_view(out);
                    lemma_array_view(*items);
                }
                Json::Array(out)
            },
            Json::Object(members) => {
                let mut out: Vec<(String, Json)> = Vec::new();
                let mut i: usize = 0;
                while i < members.len()
                    invariant
                        i <= members.len(),
                        self == Json::Object(*members),
                        member_docs(out@) == member_docs(members@).subrange(0, i as int),
                    decreases members.len() - i,
                {
                    let ghost prev = member_docs(out@);
                    assert(self->Object_0 == *members);
                    assert(decreases_to!(*self => self->Object_0));
                    assert(decreases_to!(*members => members[i as int]));
                    assert(decreases_to!(members[i as int] => members[i as int].1));
                    let v = members[i].1.replica();
                    out.push((members[i].0.clone(), v));
                    assert(member_docs(out@) =~= prev.push(at(members@[i as int].0@, members@[i as int].1@)));
                    i = i + 1;
                    assert(member_docs(out@) =~= member_docs(members@).subrange(0, i as int));
                }
                proof {
                    assert(member_docs(out@) =~= member_docs(members@));
                    lemma_object_view(out);
                    lemma_object_view(*members);
                }
                Json::Object(out)
            },
        }
    }
}

impl Json {
    /// The member of this object under `key`.
    pub fn get(&self, key: &str) -> (r: Option<&Json>)
        ensures
            r is Some <==> self@.member(key@) is Some,
            r matches Some(v) ==> self@.member(key@) == Some(v@),
    {
        match self {
            Json::Object(members) => {
                proof {
                    lemma_object_view(*members);
                }
                let ghost all = member_docs(members@);
                let mut i: usize = 0;
                assert(all.subrange(0, all.len() as int) =~= all);
                while i < members.len()
                    invariant
                        i <= members.len(),
                        all == member_docs(members@),
                        self@ == Doc::Object(all),
                        member_in(all, key@) == member_in(all.subrange(i as int, all.len() as int), key@),
                    decreases members.len() - i,
                {
                    let ghost rest = all.subrange(i as int, all.len() as int);
                    assert(rest[0] == at(members@[i as int].0@, members@[i as int].1@));
                    if same_text(members[i].0.as_str(), key) {
                        assert(member_in(rest, key@) == Some(rest[0].value));
                        return Some(&members[i].1);
                    }
                    assert(rest.drop_first() =~= all.subrange(i + 1, all.len() as int));
                    i = i + 1;
                }
                None
            },
            _ => None,
        }
    }

    /// The text of this value, where it is a text.
    pub fn as_text(&self) -> (r: Option<&String>)
        ensures
            r is Some <==> self@.text() is Some,
            r matches Some(t) ==> self@.text() == Some(t@),
    {
        match self {
            Json::Text(t) => Some(t),
            _ => None,
        }
    }

    /// The member under `key`, where it is a text.
    pub fn text_member(&self, key: &str) -> (r: Option<&String>)
        ensures
            r is Some <==> self@.text_member(key@) is Some,
            r matches Some(t) ==> self@.text_member(key@) == Some(t@),
    {
        match self.get(key) {
            Some(v) => v.as_text(),
            None => None,
        }
    }

    /// The items of this value, where it is an array.
    pub fn as_array(&self) -> (r: Option<&Vec<Json>>)
        ensures
            r is Some <==> self@.items() is Some,
            r matches Some(items) ==> self@.items() == Some(docs(items@)),
    {
        match self {
            Json::Array(items) => {
                proof {
                    lemma_array_view(*items);
                }
                Some(items)
            },
            _ => None,
        }
    }

    pub fn from_text(t: &str) -> (r: Json)
        ensures
            r@ == Doc::Text(t@),
    {
        Json::Text(t.to_owned())
    }

    pub fn from_count(n: u64) -> (r: Json)
        ensures
            r@ == Doc::Whole(n as int),
    {
        Json::Number(Number::Unsigned(n))
    }

    pub fn from_int(n: i64) -> (r: Json)
        ensures
            r@ == Doc::Whole(n as int),
    {
        if n >= 0 {
            Json::Number(Number::Unsigned(n as u64))
        } else {
            Json::Number(Number::Negative(n))
        }
    }

    /// An array of one.
    pub fn list_1(a: Json) -> (r: Json)
        ensures
            r@ == Doc::Array(seq![a@]),
    {
        let mut items: Vec<Json> = Vec::new();
        items.push(a);
        assert(docs(items@) =~= seq![a@]);
        Json::from_items(items)
    }

    /// An array of two.
    pub fn list_2(a: Json, b: Json) -> (r: Json)
        ensures
            r@ == Doc::Array(seq![a@, b@]),
    {
        let mut items: Vec<Json> = Vec::new();
        items.push(a);
        items.push(b);
        assert(docs(items@) =~= seq![a@, b@]);
        Json::from_items(items)
    }

    pub fn from_items(items: Vec<Json>) -> (r: Json)
        ensures
            r@ == Doc::Array(docs(items@)),
    {
        proof {
            lemma_array_view(items);
        }
        Json::Array(items)
    }

    pub fn empty_object() -> (r: Json)
        ensures
            r@ == Doc::empty(),
    {
        let members: Vec<(String, Json)> = Vec::new();
        proof {
            lemma_object_view(members);
            assert(member_docs(members@) =~= Seq::<Member>::empty());
        }
        Json::Object(members)
    }

    /// This object with one member more.
    pub fn with(self, key: &str, value: Json) -> (r: Json)
        ensures
            r@ == self@.with(key@, value@),
    {
        match self {
            Json::Object(members) => {
                let mut out = members;
                proof {
                    lemma_object_view(members);
                }
                let ghost prev = member_docs(out@);
                let ghost v = value@;
                out.push((key.to_owned(), value));
                proof {
                    assert(member_docs(out@) =~= prev.push(at(key@, v)));
                    lemma_object_view(out);
                }
                Json::Object(out)
            },
            other => other,
        }
    }
}

/// The members with `value` under `key`: in place of the first member of that
/// name, or behind the others where there is none.
pub open spec fn put_member(members: Seq<Member>, key: Seq<char>, value: Doc) -> Seq<Member>
    decreases members.len(),
{
    if members.len() == 0 {
        seq![at(key, value)]
    } else if members[0].key == key {
        seq![at(key, value)] + members.drop_first()
    } else {
        seq![members[0]] + put_member(members.drop_first(), key, value)
    }
}

/// A member that is added at the end is found where no other has its key, and
/// hides none.
pub proof fn added_member_is_found(d: Doc, key: Seq<char>, value: Doc, other: Seq<char>)
    requires
        d is Object,
    ensures
        d.with(key, value) is Object,
        d.with(key, value).member(other) == (if d.member(other) is Some {
            d.member(other)
        } else if other == key {
            Some(value)
        } else {
            None
        }),
{
    lemma_member_push(d->Object_0, at(key, value), other);
}

proof fn lemma_member_push(members: Seq<Member>, m: Member, key: Seq<char>)
    ensures
        member_in(members.push(m), key) == (if member_in(members, key) is Some {
            member_in(members, key)
        } else if m.key == key {
            Some(m.value)
        } else {
            None
        }),
    decreases members.len(),
{
    if members.len() > 0 {
        assert(members.push(m).drop_first() =~= members.drop_first().push(m));
        lemma_member_push(members.drop_first(), m, key);
    } else {
        reveal_with_fuel(member_in, 2);
        assert(members.push(m).drop_first() =~= Seq::<Member>::empty());
    }
}

/// Reading a member after it was put gives what was put; the others stay.
pub proof fn lemma_put_member(members: Seq<Member>, key: Seq<char>, value: Doc, other: Seq<char>)
    ensures
        member_in(put_member(members, key, value), key) == Some(value),
        other != key ==> member_in(put_member(members, key, value), other) == member_in(members, other),
    decreases members.len(),
{
    let out = put_member(members, key, value);
    if members.len() == 0 {
        assert(out.drop_first() =~= Seq::<Member>::empty());
        assert(member_in(Seq::<Member>::empty(), other) is None);
    } else if members[0].key == key {
        assert(out.drop_first() =~= members.drop_first());
    } else {
        assert(out.drop_first() =~= put_member(members.drop_first(), key, value));
        lemma_put_member(members.drop_first(), key, value, other);
    }
}

proof fn lemma_put_member_at(members: Seq<Member>, key: Seq<char>, value: Doc, i: int)
    requires
        0 <= i <= members.len(),
        forall|k: int| 0 <= k < i ==> (#[trigger] members[k]).key != key,
        i < members.len() ==> members[i].key == key,
    ensures
        put_member(members, key, value) =~= if i < members.len() {
            members.update(i, at(key, value))
        } else {
            members.push(at(key, value))
        },
    decreases members.len(),
{
    if i > 0 {
        let rest = members.drop_first();
        assert forall|k: int| 0 <= k < i - 1 implies (#[trigger] rest[k]).key != key by {
            assert(rest[k] == members[k + 1]);
        }
        assert(members[0].key != key);
        lemma_put_member_at(rest, key, value, i - 1);
    }
}

impl Json {
    /// A copy of this object with `value` under `key`.
    pub fn with_put(&self, key: &str, value: Json) -> (r: Json)
        requires
            self@ is Object,
        ensures
            r@ == Doc::Object(put_member(self@->Object_0, key@, value@)),
    {
        match self.replica() {
            Json::Object(members) => {
                let mut out = members;
                let ghost docs_before = member_docs(out@);
                let ghost v = value@;
                proof {
                    lemma_object_view(out);
                }
                let n: usize = out.len();
                let mut i: usize = 0;
                while i < n && !same_text(out[i].0.as_str(), key)
                    invariant
                        i <= n,
                        n == out.len(),
                        docs_before == member_docs(out@),
                        forall|k: int| 0 <= k < i ==> (#[trigger] docs_before[k]).key != key@,
                    decreases n - i,
                {
                    assert(docs_before[i as int].key == out@[i as int].0@);
                    i = i + 1;
                }
                if i < n {
                    assert(docs_before[i as int].key == out@[i as int].0@);
                    out[i] = (key.to_owned(), value);
                    assert(member_docs(out@) =~= docs_before.update(i as int, at(key@, v)));
                } else {
                    out.push((key.to_owned(), value));
                    assert(member_docs(out@) =~= docs_before.push(at(key@, v)));
                }
                proof {
                    lemma_put_member_at(docs_before, key@, v, i as int);
                    lemma_object_view(out);
                }
                Json::Object(out)
            },
            other => other,
        }
    }
}

/// A value of the crate `serde_json`.
#[verifier::external_type_specification]
#[verifier::external_body]
pub struct ExValue(serde_json::Value);

/// A JSON text as `serde_json::from_str` reads it: the value, or the message
/// of the error that it stops with.
pub uninterp spec fn json_read(text: Seq<char>) -> Result<Doc, Seq<char>>;

/// A JSON value as `serde_json::to_string` writes it: compact, the members of
/// each object in the order of their names.
pub uninterp spec fn json_written(doc: Doc) -> Seq<char>;

/// Carries a `serde_json::Value` over member by member.
#[verifier::external_body]
fn from_value(v: &Value) -> (r: Json) {
    match v {
        Value::Null => Json::Null,
        Value::Bool(b) => Json::Bool(*b),
        Value::Number(n) => Json::Number(match (n.as_u64(), n.as_i64()) {
            (Some(u), _) => Number::Unsigned(u),
            (None, Some(i)) => Number::Negative(i),
            _ => Number::Other(n.to_string()),
        }),
        Value::String(s) => Json::Text(s.clone()),
        Value::Array(a) => Json::Array(a.iter().map(from_value).collect()),
        Value::Object(m) => Json::Object(m.iter().map(|(k, w)| (k.clone(), from_value(w))).collect()),
    }
}

/// Carries a value over into a `serde_json::Value` member by member. A number
/// kept as text is read as JSON; a text that spells no JSON becomes null.
#[verifier::external_body]
pub(crate) fn to_value(j: &Json) -> (r: Value) {
    match j {
        Json::Null => Value::Null,
        Json::Bool(b) => Value::from(*b),
        Json::Number(Number::Unsigned(u)) => Value::from(*u),
        Json::Number(Number::Negative(i)) => Value::from(*i),
        Json::Number(Number::Other(t)) => serde_json::from_str(t).unwrap_or(Value::Null),
        Json::Text(t) => Value::from(t.as_str()),
        Json::Array(a) => Value::Array(a.iter().map(to_value).collect()),
        Json::Object(m) => Value::Object(m.iter().map(|(k, w)| (k.clone(), to_value(w))).collect()),
    }
}

/// The model of what a reading of JSON gives back.
pub open spec fn reading(r: Result<Json, String>) -> Result<Doc, Seq<char>> {
    match r {
        Ok(j) => Ok(j@),
        Err(e) => Err(e@),
    }
}

/// `serde_json::from_str::<Value>`: reads one JSON value out of a text.
#[verifier::external_body]
pub(crate) fn read_json(text: &str) -> (r: Result<Json, String>)
    ensures
        reading(r) == json_read(text@),
{
    match serde_json::from_str::<serde_json::Value>(text) {
        Ok(v) => Ok(from_value(&v)),
        Err(e) => Err(e.to_string()),
    }
}

/// `serde_json::Value::to_string`: writes one JSON value on a single line.
/// Control characters inside texts are escaped, so no line break comes out.
#[verifier::external_body]
pub(crate) fn write_json(j: &Json) -> (r: String)
    ensures
        r@ == json_written(j@),
        forall|i: int| 0 <= i < r@.len() ==> #[trigger] r@[i] != '\n' && r@[i] != '\r',
{
    to_value(j).to_string()
}

} // verus!
