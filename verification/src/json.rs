//! JSON values, as far as answers of Herdr are read.

use vstd::prelude::*;

use crate::text::{self, str_eq};

verus! {

/// A JSON value.
pub enum Json {
    Null,
    Bool(bool),
    Number(String),
    Text(String),
    List(Vec<Json>),
    Object(Vec<(String, Json)>),
}

/// What a JSON value says. The members of an object have different keys.
pub enum JsonView {
    Null,
    Bool(bool),
    Number(Seq<char>),
    Text(Seq<char>),
    List(Seq<JsonView>),
    Object(Seq<(Seq<char>, JsonView)>),
}

impl View for Json {
    type V = JsonView;

    open spec fn view(&self) -> JsonView {
        json_view(*self)
    }
}

/// What a JSON value says.
pub open spec fn json_view(j: Json) -> JsonView
    decreases j,
{
    match j {
        Json::Null => JsonView::Null,
        Json::Bool(b) => JsonView::Bool(b),
        Json::Number(s) => JsonView::Number(s@),
        Json::Text(s) => JsonView::Text(s@),
        Json::List(v) => JsonView::List(
            Seq::new(
                v@.len(),
                |i: int|
                    if 0 <= i < v@.len() {
                        json_view(v@[i])
                    } else {
                        JsonView::Null
                    },
            ),
        ),
        Json::Object(v) => JsonView::Object(
            Seq::new(
                v@.len(),
                |i: int|
                    if 0 <= i < v@.len() {
                        (v@[i].0@, json_view(v@[i].1))
                    } else {
                        (Seq::empty(), JsonView::Null)
                    },
            ),
        ),
    }
}

/// The value that a JSON text stands for, or what is wrong with a text that is not JSON.
pub uninterp spec fn json_parse(text: Seq<char>) -> Result<JsonView, Seq<char>>;

/// A JSON value of serde_json.
#[verifier::external_type_specification]
#[verifier::external_body]
pub struct ExValue(serde_json::Value);

/// What a JSON value of serde_json holds.
pub uninterp spec fn value_contents(v: serde_json::Value) -> JsonView;

/// `serde_json::from_str` into a value of any kind: the value, or for a text that is not
/// JSON the words of the error. Both depend on the text alone.
#[verifier::external_body]
fn parse_value(s: &str) -> (r: Result<serde_json::Value, String>)
    ensures
        match r {
            Ok(v) => json_parse(s@) == Ok::<JsonView, Seq<char>>(value_contents(v)),
            Err(e) => json_parse(s@) == Err::<JsonView, Seq<char>>(e@),
        },
{
    serde_json::from_str(s).map_err(|e: serde_json::Error| e.to_string())
}

/// The outermost layer of a JSON value of serde_json.
pub enum Layer {
    Null,
    Bool(bool),
    Number(String),
    Text(String),
    List(Vec<serde_json::Value>),
    Object(Vec<(String, serde_json::Value)>),
}

/// What the values in a list hold.
pub open spec fn list_contents(v: Seq<serde_json::Value>) -> Seq<JsonView> {
    v.map_values(|x: serde_json::Value| value_contents(x))
}

/// What the members of an object hold.
pub open spec fn object_contents(v: Seq<(String, serde_json::Value)>) -> Seq<
    (Seq<char>, JsonView),
> {
    v.map_values(|m: (String, serde_json::Value)| (m.0@, value_contents(m.1)))
}

/// The variants of `serde_json::Value`, told apart one by one; an array hands out its
/// values in order, and an object its members.
#[verifier::external_body]
fn outer_layer(v: serde_json::Value) -> (r: Layer)
    ensures
        value_contents(v) == (match r {
            Layer::Null => JsonView::Null,
            Layer::Bool(b) => JsonView::Bool(b),
            Layer::Number(s) => JsonView::Number(s@),
            Layer::Text(s) => JsonView::Text(s@),
            Layer::List(a) => JsonView::List(list_contents(a@)),
            Layer::Object(o) => JsonView::Object(object_contents(o@)),
        }),
{
    match v {
        serde_json::Value::Null => Layer::Null,
        serde_json::Value::Bool(b) => Layer::Bool(b),
        serde_json::Value::Number(n) => Layer::Number(n.to_string()),
        serde_json::Value::String(s) => Layer::Text(s),
        serde_json::Value::Array(a) => Layer::List(a),
        serde_json::Value::Object(o) => Layer::Object(o.into_iter().collect()),
    }
}

/// The value that `v` holds.
fn from_value(v: serde_json::Value) -> (r: Json)
    ensures
        r@ == value_contents(v),
    decreases value_contents(v),
{
    let ghost whole = value_contents(v);
    match outer_layer(v) {
        Layer::Null => Json::Null,
        Layer::Bool(b) => Json::Bool(b),
        Layer::Number(s) => Json::Number(s),
        Layer::Text(s) => Json::Text(s),
        Layer::List(a) => {
            let ghost all = a@;
            let mut out: Vec<Json> = Vec::new();
            for x in it: a
                invariant
                    it.seq() == all,
                    whole == value_contents(v),
                    whole == JsonView::List(list_contents(all)),
                    out@.len() == it.index(),
                    forall|i: int|
                        0 <= i < out@.len() ==> json_view(#[trigger] out@[i]) == value_contents(
                            all[i],
                        ),
            {
                proof {
                    assert(list_contents(all)[it.index()] == value_contents(x));
                    assert(decreases_to!(whole => whole->List_0));
                    assert(decreases_to!(whole->List_0 => whole->List_0[it.index()]));
                }
                out.push(from_value(x));
            }
            let r = Json::List(out);
            proof {
                assert(r@->List_0 =~= list_contents(all));
            }
            r
        },
        Layer::Object(o) => {
            let ghost all = o@;
            let mut out: Vec<(String, Json)> = Vec::new();
            for m in it: o
                invariant
                    it.seq() == all,
                    whole == value_contents(v),
                    whole == JsonView::Object(object_contents(all)),
                    out@.len() == it.index(),
                    forall|i: int|
                        0 <= i < out@.len() ==> (#[trigger] out@[i]).0@ == all[i].0@ && json_view(
                            out@[i].1,
                        ) == value_contents(all[i].1),
            {
                proof {
                    let c = object_contents(all)[it.index()];
                    assert(c == (m.0@, value_contents(m.1)));
                    assert(decreases_to!(whole => whole->Object_0));
                    assert(decreases_to!(whole->Object_0 => whole->Object_0[it.index()]));
                    assert(decreases_to!(c => c.1));
                }
                out.push((m.0, from_value(m.1)));
            }
            let r = Json::Object(out);
            proof {
                assert(r@->Object_0 =~= object_contents(all));
            }
            r
        },
    }
}

/// The JSON value that `s` stands for, or what is wrong with `s`.
pub fn parse(s: &str) -> (r: Result<Json, String>)
    ensures
        match r {
            Ok(j) => json_parse(s@) == Ok::<JsonView, Seq<char>>(j@),
            Err(e) => json_parse(s@) == Err::<JsonView, Seq<char>>(e@),
        },
{
    match parse_value(s) {
        Ok(v) => Ok(from_value(v)),
        Err(e) => Err(e),
    }
}

/// The member of an object with the key `key`, from the `k`th member on.
pub open spec fn member_from(
    members: Seq<(Seq<char>, JsonView)>,
    key: Seq<char>,
    k: int,
) -> Option<JsonView>
    decreases members.len() - k,
{
    if k < 0 || k >= members.len() {
        None
    } else if members[k].0 == key {
        Some(members[k].1)
    } else {
        member_from(members, key, k + 1)
    }
}

impl JsonView {
    /// The member with the key `key`, where the value is an object that has one.
    pub open spec fn get(self, key: Seq<char>) -> Option<JsonView> {
        match self {
            JsonView::Object(members) => member_from(members, key, 0),
            _ => None,
        }
    }

    /// The member with the key `key`, or the value itself where there is none.
    pub open spec fn get_or_self(self, key: Seq<char>) -> JsonView {
        match self.get(key) {
            Some(v) => v,
            None => self,
        }
    }

    /// The text of a member, where there is one and it is a text.
    pub open spec fn text_at(self, key: Seq<char>) -> Option<Seq<char>> {
        match self.get(key) {
            Some(JsonView::Text(s)) => Some(s),
            _ => None,
        }
    }

    /// Whether a member is `true`.
    pub open spec fn true_at(self, key: Seq<char>) -> bool {
        self.get(key) == Some(JsonView::Bool(true))
    }

    /// The values of a member that is a list; empty where it is none.
    pub open spec fn list_at(self, key: Seq<char>) -> Seq<JsonView> {
        match self.get(key) {
            Some(JsonView::List(v)) => v,
            _ => Seq::empty(),
        }
    }
}

impl Json {
    /// The member with the key `key`.
    pub fn get(&self, key: &str) -> (r: Option<&Json>)
        ensures
            match r {
                Some(v) => self@.get(key@) == Some(v@),
                None => self@.get(key@) is None,
            },
    {
        match self {
            Json::Object(v) => {
                let ghost members = self@->Object_0;
                let mut k: usize = 0;
                while k < v.len()
                    invariant
                        k <= v@.len(),
                        members.len() == v@.len(),
                        forall|i: int|
                            0 <= i < v@.len() ==> #[trigger] members[i] == (
                                v@[i].0@,
                                json_view(v@[i].1),
                            ),
                        self@.get(key@) == member_from(members, key@, k as int),
                    decreases v@.len() - k,
                {
                    proof {
                        assert(members[k as int] == (v@[k as int].0@, json_view(v@[k as int].1)));
                    }
                    if str_eq(v[k].0.as_str(), key) {
                        return Some(&v[k].1);
                    }
                    k = k + 1;
                }
                None
            },
            _ => None,
        }
    }

    /// The text of the member with the key `key`.
    pub fn text_at(&self, key: &str) -> (r: Option<String>)
        ensures
            text::text_option(r) == self@.text_at(key@),
    {
        match self.get(key) {
            Some(Json::Text(s)) => Some(s.clone()),
            _ => None,
        }
    }

    /// Whether the member with the key `key` is `true`.
    pub fn true_at(&self, key: &str) -> (r: bool)
        ensures
            r == self@.true_at(key@),
    {
        match self.get(key) {
            Some(Json::Bool(b)) => *b,
            _ => false,
        }
    }

    /// The member with the key `key`, or the value itself where there is none.
    pub fn get_or_self(&self, key: &str) -> (r: &Json)
        ensures
            r@ == self@.get_or_self(key@),
    {
        match self.get(key) {
            Some(v) => v,
            None => self,
        }
    }

    /// The values of the member with the key `key`, where it is a list.
    pub fn list_at(&self, key: &str) -> (r: Option<&Vec<Json>>)
        ensures
            match r {
                Some(v) => v@.len() == self@.list_at(key@).len() && forall|i: int|
                    0 <= i < v@.len() ==> (#[trigger] v@[i])@ == self@.list_at(key@)[i],
                None => self@.list_at(key@).len() == 0,
            },
    {
        match self.get(key) {
            Some(Json::List(v)) => Some(v),
            _ => None,
        }
    }

    /// The member with the key `key` on its own, or the value itself where there is none.
    pub fn into_get_or_self(self, key: &str) -> (r: Json)
        ensures
            r@ == self@.get_or_self(key@),
    {
        match self {
            Json::Object(v) => {
                let ghost members = self@->Object_0;
                let mut v = v;
                let mut k: usize = 0;
                while k < v.len()
                    invariant
                        k <= v@.len(),
                        self == Json::Object(v),
                        members == self@->Object_0,
                        members.len() == v@.len(),
                        forall|i: int|
                            0 <= i < v@.len() ==> #[trigger] members[i] == (
                                v@[i].0@,
                                json_view(v@[i].1),
                            ),
                        self@.get(key@) == member_from(members, key@, k as int),
                    decreases v@.len() - k,
                {
                    proof {
                        assert(members[k as int] == (v@[k as int].0@, json_view(v@[k as int].1)));
                    }
                    if str_eq(v[k].0.as_str(), key) {
                        return v.remove(k).1;
                    }
                    k = k + 1;
                }
                Json::Object(v)
            },
            other => other,
        }
    }
}

/// A member of an object is found by its key, the first where there are several, and none
/// where no member has it.
pub proof fn law_member(members: Seq<(Seq<char>, JsonView)>, key: Seq<char>, i: int)
    ensures
        0 <= i < members.len() && members[i].0 == key && (forall|j: int|
            0 <= j < i ==> (#[trigger] members[j]).0 != key) ==> JsonView::Object(members).get(key)
            == Some(members[i].1),
        (forall|j: int| 0 <= j < members.len() ==> (#[trigger] members[j]).0 != key)
            ==> JsonView::Object(members).get(key) is None,
{
    lemma_member_from(members, key, 0, i);
}

proof fn lemma_member_from(members: Seq<(Seq<char>, JsonView)>, key: Seq<char>, k: int, i: int)
    requires
        0 <= k,
    ensures
        k <= i < members.len() && members[i].0 == key && (forall|j: int|
            k <= j < i ==> (#[trigger] members[j]).0 != key) ==> member_from(members, key, k)
            == Some(members[i].1),
        (forall|j: int| k <= j < members.len() ==> (#[trigger] members[j]).0 != key)
            ==> member_from(members, key, k) is None,
    decreases members.len() - k,
{
    if k < members.len() && members[k].0 != key {
        lemma_member_from(members, key, k + 1, i);
    }
}

} // verus!
