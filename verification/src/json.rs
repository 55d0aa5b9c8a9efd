//! JSON values.
use crate::text::str_eq;
use serde_json::Value;
use vstd::prelude::*;

verus! {

/// A JSON value. A number that is no 64-bit signed integer keeps its text.
#[derive(Debug)]
pub enum Json {
    Null,
    Bool(bool),
    Int(i64),
    Number(String),
    Str(String),
    Array(Vec<Json>),
    Object(Vec<(String, Json)>),
}

/// The position of the member `key`.
pub open spec fn member_index(members: Seq<(String, Json)>, key: Seq<char>, i: int) -> Option<int>
    decreases members.len() - i,
{
    if i < 0 || i >= members.len() {
        None
    } else if members[i].0@ == key {
        Some(i)
    } else {
        member_index(members, key, i + 1)
    }
}

/// The member `key` of an object.
pub open spec fn member(v: Json, key: Seq<char>) -> Option<Json> {
    match v {
        Json::Object(m) => match member_index(m@, key, 0) {
            Some(i) => Some(m@[i].1),
            None => None,
        },
        _ => None,
    }
}

/// The first item of an array.
pub open spec fn first_item(v: Json) -> Option<Json> {
    match v {
        Json::Array(a) => if a@.len() > 0 {
            Some(a@[0])
        } else {
            None
        },
        _ => None,
    }
}

pub open spec fn text_of(v: Json) -> Option<Seq<char>> {
    match v {
        Json::Str(s) => Some(s@),
        _ => None,
    }
}

/// The text of the member `key`.
pub open spec fn text_member(v: Json, key: Seq<char>) -> Option<Seq<char>> {
    match member(v, key) {
        Some(m) => text_of(m),
        None => None,
    }
}

/// Whether an optional string holds an optional text.
pub open spec fn is_text(s: Option<String>, t: Option<Seq<char>>) -> bool {
    match s {
        Some(x) => t == Some(x@),
        None => t is None,
    }
}

impl Json {
    pub fn get(&self, key: &str) -> (r: Option<&Json>)
        ensures
            match r {
                Some(v) => member(*self, key@) == Some(*v),
                None => member(*self, key@) is None,
            },
    {
        match self {
            Json::Object(m) => {
                let mut i: usize = 0;
                while i < m.len()
                    invariant
                        *self == Json::Object(*m),
                        i <= m@.len(),
                        member_index(m@, key@, 0) == member_index(m@, key@, i as int),
                    decreases m.len() - i,
                {
                    if str_eq(m[i].0.as_str(), key) {
                        return Some(&m[i].1);
                    }
                    i += 1;
                }
                None
            },
            _ => None,
        }
    }

    pub fn first(&self) -> (r: Option<&Json>)
        ensures
            match r {
                Some(v) => first_item(*self) == Some(*v),
                None => first_item(*self) is None,
            },
    {
        match self {
            Json::Array(a) => if a.len() > 0 {
                Some(&a[0])
            } else {
                None
            },
            _ => None,
        }
    }

    pub fn as_text(&self) -> (r: Option<&str>)
        ensures
            match r {
                Some(s) => text_of(*self) == Some(s@),
                None => text_of(*self) is None,
            },
    {
        match self {
            Json::Str(s) => Some(s.as_str()),
            _ => None,
        }
    }

    /// The text of the member `key`.
    pub fn text_at(&self, key: &str) -> (r: Option<String>)
        ensures
            is_text(r, text_member(*self, key@)),
    {
        match self.get(key) {
            Some(v) => match v.as_text() {
                Some(s) => Some(s.to_owned()),
                None => None,
            },
            None => None,
        }
    }
}

pub(crate) fn str_value(s: &str) -> (v: Json)
    ensures
        text_of(v) == Some(s@),
{
    Json::Str(s.to_owned())
}

/// What a JSON value holds.
pub enum JsonText {
    Null,
    Bool(bool),
    Int(int),
    Number(Seq<char>),
    Str(Seq<char>),
    Array(Seq<JsonText>),
    Object(Seq<(Seq<char>, JsonText)>),
}

pub open spec fn tree(v: Json) -> JsonText
    decreases v,
{
    match v {
        Json::Null => JsonText::Null,
        Json::Bool(b) => JsonText::Bool(b),
        Json::Int(n) => JsonText::Int(n as int),
        Json::Number(s) => JsonText::Number(s@),
        Json::Str(s) => JsonText::Str(s@),
        Json::Array(a) => JsonText::Array(
            Seq::new(
                a@.len(),
                |i: int|
                    if 0 <= i < a@.len() {
                        tree(a@[i])
                    } else {
                        JsonText::Null
                    },
            ),
        ),
        Json::Object(m) => JsonText::Object(
            Seq::new(
                m@.len(),
                |i: int|
                    if 0 <= i < m@.len() {
                        (m@[i].0@, tree(m@[i].1))
                    } else {
                        (Seq::empty(), JsonText::Null)
                    },
            ),
        ),
    }
}

impl View for Json {
    type V = JsonText;

    open spec fn view(&self) -> JsonText {
        tree(*self)
    }
}

pub open spec fn member_texts(m: Seq<(String, Json)>) -> Seq<(Seq<char>, JsonText)> {
    m.map_values(|p: (String, Json)| (p.0@, tree(p.1)))
}

pub open spec fn item_texts(a: Seq<Json>) -> Seq<JsonText> {
    a.map_values(|v: Json| tree(v))
}

/// The position of the member `key`.
pub open spec fn member_place(m: Seq<(Seq<char>, JsonText)>, key: Seq<char>, i: int) -> Option<int>
    decreases m.len() - i,
{
    if i < 0 || i >= m.len() {
        None
    } else if m[i].0 == key {
        Some(i)
    } else {
        member_place(m, key, i + 1)
    }
}

/// The member `key` of what an object holds.
pub open spec fn member_of(t: JsonText, key: Seq<char>) -> Option<JsonText> {
    match t {
        JsonText::Object(m) => match member_place(m, key, 0) {
            Some(i) => Some(m[i].1),
            None => None,
        },
        _ => None,
    }
}

/// The text of the member `key` of what an object holds.
pub open spec fn text_in(t: JsonText, key: Seq<char>) -> Option<Seq<char>> {
    match member_of(t, key) {
        Some(JsonText::Str(s)) => Some(s),
        _ => None,
    }
}

proof fn lemma_member_place(m: Vec<(String, Json)>, key: Seq<char>, i: int)
    requires
        0 <= i,
    ensures
        member_place(tree(Json::Object(m))->Object_0, key, i) == member_index(m@, key, i),
        member_index(m@, key, i) is Some ==> i <= member_index(m@, key, i)->0 < m@.len(),
    decreases m@.len() - i,
{
    if i < m@.len() && m@[i].0@ != key {
        lemma_member_place(m, key, i + 1);
    }
}

/// A member of a value holds what the member of its tree holds.
pub proof fn lemma_member(v: Json, key: Seq<char>)
    ensures
        match member(v, key) {
            Some(x) => member_of(v@, key) == Some(x@),
            None => member_of(v@, key) is None,
        },
        text_member(v, key) == text_in(v@, key),
{
    if let Json::Object(m) = v {
        lemma_member_place(m, key, 0);
    }
}

/// What a JSON text stands for, or what is wrong with it.
pub uninterp spec fn parsed(s: Seq<char>) -> Result<JsonText, Seq<char>>;

/// What a value or an error holds.
pub open spec fn result_text(r: Result<Json, String>) -> Result<JsonText, Seq<char>> {
    match r {
        Ok(v) => Ok(v@),
        Err(e) => Err(e@),
    }
}

/// `serde_json::from_str` into a `serde_json::Value`, whose parts are read in
/// the same way. The value, or the error in words, depends on the text alone.
#[verifier::external_body]
pub(crate) fn parse(s: &str) -> (r: Result<Json, String>)
    ensures
        result_text(r) == parsed(s@),
{
    let part = |x: Value| parse(&x.to_string());
    Ok(match serde_json::from_str(s).map_err(|e| e.to_string())? {
        Value::Null => Json::Null,
        Value::Bool(b) => Json::Bool(b),
        Value::Number(n) => n.as_i64().map_or(Json::Number(n.to_string()), Json::Int),
        Value::String(t) => Json::Str(t),
        Value::Array(a) => Json::Array(a.into_iter().map(part).collect::<Result<_, _>>()?),
        Value::Object(m) => Json::Object(
            m.into_iter().map(|(k, x)| Ok((k, part(x)?))).collect::<Result<_, String>>()?
        ),
    })
}

/// An optional text, `null` where there is none.
pub open spec fn text_or_null(t: Option<Seq<char>>) -> JsonText {
    match t {
        Some(s) => JsonText::Str(s),
        None => JsonText::Null,
    }
}

/// An array of texts.
pub open spec fn text_array(t: Seq<Seq<char>>) -> JsonText {
    JsonText::Array(t.map_values(|s: Seq<char>| JsonText::Str(s)))
}

pub(crate) fn object(m: Vec<(String, Json)>) -> (v: Json)
    ensures
        v@ == JsonText::Object(member_texts(m@)),
        v == Json::Object(m),
{
    let v = Json::Object(m);
    proof {
        assert(v@->Object_0 =~= member_texts(m@));
    }
    v
}

pub(crate) fn array(a: Vec<Json>) -> (v: Json)
    ensures
        v@ == JsonText::Array(item_texts(a@)),
        v == Json::Array(a),
{
    let v = Json::Array(a);
    proof {
        assert(v@->Array_0 =~= item_texts(a@));
    }
    v
}

/// Adds a member behind the others.
pub(crate) fn put(m: &mut Vec<(String, Json)>, key: &str, v: Json)
    ensures
        member_texts(final(m)@) == member_texts(old(m)@).push((key@, v@)),
        final(m)@.len() == old(m)@.len() + 1,
{
    let ghost before = m@;
    m.push((key.to_owned(), v));
    proof {
        assert(member_texts(m@) =~= member_texts(before).push((key@, v@)));
    }
}

pub(crate) fn text_value(s: &str) -> (v: Json)
    ensures
        v@ == JsonText::Str(s@),
{
    Json::Str(s.to_owned())
}

pub(crate) fn opt_value(s: &Option<String>) -> (v: Json)
    ensures
        v@ == text_or_null(opt_text(*s)),
{
    match s {
        Some(x) => Json::Str(x.as_str().to_owned()),
        None => Json::Null,
    }
}

pub open spec fn opt_text(s: Option<String>) -> Option<Seq<char>> {
    match s {
        Some(x) => Some(x@),
        None => None,
    }
}

pub(crate) fn texts_value(t: &Vec<String>) -> (v: Json)
    ensures
        v@ == text_array(crate::text::texts(t@)),
{
    let mut a: Vec<Json> = Vec::new();
    let mut i: usize = 0;
    while i < t.len()
        invariant
            i <= t@.len(),
            a@.len() == i,
            forall|k: int| 0 <= k < i ==> tree(#[trigger] a@[k]) == JsonText::Str(t@[k]@),
        decreases t.len() - i,
    {
        a.push(text_value(t[i].as_str()));
        i += 1;
    }
    let v = array(a);
    proof {
        assert(v@->Array_0 =~= text_array(crate::text::texts(t@))->Array_0);
    }
    v
}

/// A copy of a value.
pub(crate) fn copy(v: &Json) -> (r: Json)
    ensures
        r@ == v@,
    decreases v,
{
    match v {
        Json::Null => Json::Null,
        Json::Bool(b) => Json::Bool(*b),
        Json::Int(n) => Json::Int(*n),
        Json::Number(s) => Json::Number(s.as_str().to_owned()),
        Json::Str(s) => Json::Str(s.as_str().to_owned()),
        Json::Array(a) => {
            let mut out: Vec<Json> = Vec::new();
            let mut i: usize = 0;
            while i < a.len()
                invariant
                    *v == Json::Array(*a),
                    i <= a@.len(),
                    out@.len() == i,
                    forall|k: int| 0 <= k < i ==> tree(#[trigger] out@[k]) == tree(a@[k]),
                decreases a.len() - i,
            {
                proof {
                    assert(decreases_to!(*v => v->Array_0));
                    assert(decreases_to!(v->Array_0 => v->Array_0@));
                    assert(decreases_to!(v->Array_0@ => v->Array_0@[i as int]));
                }
                out.push(copy(&a[i]));
                i += 1;
            }
            let r = array(out);
            proof {
                assert(r@->Array_0 =~= v@->Array_0);
            }
            r
        },
        Json::Object(m) => {
            let mut out: Vec<(String, Json)> = Vec::new();
            let mut i: usize = 0;
            while i < m.len()
                invariant
                    *v == Json::Object(*m),
                    i <= m@.len(),
                    out@.len() == i,
                    forall|k: int|
                        0 <= k < i ==> (#[trigger] out@[k]).0@ == m@[k].0@ && tree(out@[k].1)
                            == tree(m@[k].1),
                decreases m.len() - i,
            {
                proof {
                    assert(decreases_to!(*v => v->Object_0));
                    assert(decreases_to!(v->Object_0 => v->Object_0@));
                    assert(decreases_to!(v->Object_0@ => v->Object_0@[i as int]));
                    assert(decreases_to!(v->Object_0@[i as int] => v->Object_0@[i as int].1));
                }
                let c = copy(&m[i].1);
                out.push((m[i].0.as_str().to_owned(), c));
                i += 1;
            }
            let r = object(out);
            proof {
                assert(r@->Object_0 =~= v@->Object_0);
            }
            r
        },
    }
}

/// The member of an object that is handed out is the first of its name; a value without
/// such a member, or that is no object, has none.
pub proof fn law_member(m: Vec<(String, Json)>, key: Seq<char>, k: int)
    ensures
        0 <= k < m@.len() && m@[k].0@ == key && (forall|j: int|
            0 <= j < k ==> (#[trigger] m@[j]).0@ != key) ==> member(Json::Object(m), key) == Some(
            m@[k].1,
        ) && member_of(Json::Object(m)@, key) == Some(m@[k].1@),
        (forall|j: int| 0 <= j < m@.len() ==> (#[trigger] m@[j]).0@ != key) ==> member(
            Json::Object(m),
            key,
        ) is None,
{
    lemma_first_member(m@, key, 0, k);
    lemma_member(Json::Object(m), key);
}

proof fn lemma_first_member(m: Seq<(String, Json)>, key: Seq<char>, i: int, k: int)
    requires
        0 <= i,
    ensures
        i <= k < m.len() && m[k].0@ == key && (forall|j: int|
            i <= j < k ==> (#[trigger] m[j]).0@ != key) ==> member_index(m, key, i) == Some(k),
        (forall|j: int| i <= j < m.len() ==> (#[trigger] m[j]).0@ != key) ==> member_index(
            m,
            key,
            i,
        ) is None,
    decreases m.len() - i,
{
    if i < m.len() {
        lemma_first_member(m, key, i + 1, k);
    }
}

/// Only an object has members, only an array has items, and only a text is one.
pub proof fn law_kinds(v: Json, key: Seq<char>)
    ensures
        member(v, key) is Some ==> v is Object,
        first_item(v) is Some ==> v is Array && v->Array_0@.len() > 0 && first_item(v) == Some(
            v->Array_0@[0],
        ),
        v is Array && v->Array_0@.len() > 0 ==> first_item(v) is Some,
        v is Str ==> text_of(v) == Some(v->Str_0@),
        text_of(v) is Some ==> v is Str,
        text_member(v, key) is Some ==> member(v, key) is Some && member(v, key)->0 is Str
            && text_member(v, key)->0 == (member(v, key)->0)->Str_0@,
        member(v, key) is Some && member(v, key)->0 is Str ==> text_member(v, key) is Some,
{
}

} // verus!
