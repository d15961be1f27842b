//! JSON values.

use crate::text;
use crate::text::same;
use vstd::prelude::*;

verus! {

/// A JSON value. A number is kept as it is printed; the members of an object
/// keep their order.
#[derive(Debug)]
pub enum Json {
    Null,
    Bool(bool),
    Number(String),
    Text(String),
    List(Vec<Json>),
    Object(Vec<(String, Json)>),
}

/// What a `Json` says.
pub enum JsonView {
    Null,
    Bool(bool),
    Number(Seq<char>),
    Text(Seq<char>),
    List(Seq<JsonView>),
    Object(Seq<(Seq<char>, JsonView)>),
}

pub open spec fn json_view(j: Json) -> JsonView
    decreases j,
{
    match j {
        Json::Null => JsonView::Null,
        Json::Bool(b) => JsonView::Bool(b),
        Json::Number(s) => JsonView::Number(s@),
        Json::Text(s) => JsonView::Text(s@),
        Json::List(v) => JsonView::List(
            Seq::new(
                v@.len(),
                |i: int|
                    if 0 <= i < v@.len() {
                        json_view(v@[i])
                    } else {
                        JsonView::Null
                    },
            ),
        ),
        Json::Object(v) => JsonView::Object(
            Seq::new(
                v@.len(),
                |i: int|
                    if 0 <= i < v@.len() {
                        (v@[i].0@, json_view(v@[i].1))
                    } else {
                        (Seq::empty(), JsonView::Null)
                    },
            ),
        ),
    }
}

impl View for Json {
    type V = JsonView;

    open spec fn view(&self) -> JsonView {
        json_view(*self)
    }
}

pub open spec fn json_views(v: Seq<Json>) -> Seq<JsonView> {
    Seq::new(v.len(), |i: int| v[i]@)
}

/// The first member of the name in an object.
pub open spec fn member_at(m: Seq<(Seq<char>, JsonView)>, key: Seq<char>) -> Option<JsonView>
    decreases m.len(),
{
    if m.len() == 0 {
        None
    } else if m[0].0 == key {
        Some(m[0].1)
    } else {
        member_at(m.skip(1), key)
    }
}

impl JsonView {
    /// The member `key`: `Null` where the value is no object or has none.
    pub open spec fn at(self, key: Seq<char>) -> JsonView {
        match self {
            JsonView::Object(m) => match member_at(m, key) {
                Some(v) => v,
                None => JsonView::Null,
            },
            _ => JsonView::Null,
        }
    }

    pub open spec fn text(self) -> Option<Seq<char>> {
        match self {
            JsonView::Text(s) => Some(s),
            _ => None,
        }
    }

    pub open spec fn list(self) -> Option<Seq<JsonView>> {
        match self {
            JsonView::List(v) => Some(v),
            _ => None,
        }
    }
}

impl Json {
    /// The member `key` of an object.
    pub fn get(&self, key: &str) -> (r: Option<&Json>)
        ensures
            match r {
                Some(v) => self@ is Object && member_at(self@->Object_0, key@) == Some(v@),
                None => self@ is Object ==> member_at(self@->Object_0, key@) is None,
            },
    {
        match self {
            Json::Object(v) => {
                let mut i: usize = 0;
                let ghost m = self@->Object_0;
                assert(m.skip(0) =~= m);
                while i < v.len()
                    invariant
                        i <= v.len(),
                        m.len() == v.len(),
                        forall|k: int| 0 <= k < v.len() ==> #[trigger] m[k] == (v@[k].0@, v@[k].1@),
                        member_at(m, key@) == member_at(m.skip(i as int), key@),
                        self@ == JsonView::Object(m),
                    decreases v.len() - i,
                {
                    assert(m[i as int] == (v@[i as int].0@, v@[i as int].1@));
                    if same(v[i].0.as_str(), key) {
                        return Some(&v[i].1);
                    }
                    assert(m.skip(i as int).skip(1) =~= m.skip(i + 1));
                    i += 1;
                }
                None
            },
            _ => None,
        }
    }

    /// The text of the member `key`, where there is one.
    pub fn text_of(&self, key: &str) -> (r: Option<String>)
        ensures
            text::opt_text(r) == self@.at(key@).text(),
    {
        match self.get(key) {
            Some(Json::Text(s)) => Some(s.clone()),
            _ => None,
        }
    }

    /// Whether the member `key` is a list with something in it.
    pub fn has_items(&self, key: &str) -> (r: bool)
        ensures
            r == (self@.at(key@) is List && self@.at(key@)->List_0.len() > 0),
    {
        match self.get(key) {
            Some(Json::List(v)) => v.len() > 0,
            _ => false,
        }
    }
}

/// What `serde_json::from_str` makes of a text as a value: the value, or
/// what is wrong with the text.
pub uninterp spec fn json_read(s: Seq<char>) -> Result<JsonView, Seq<char>>;

/// serde_json's own type of values.
#[verifier::external_type_specification]
#[verifier::external_body]
pub struct ExValue(serde_json::Value);

/// Turns a `serde_json::Value` into a `Json`, one for one.
#[verifier::external_body]
fn json_of_value(v: serde_json::Value) -> (j: Json) {
    match v {
        serde_json::Value::Null => Json::Null,
        serde_json::Value::Bool(b) => Json::Bool(b),
        serde_json::Value::Number(n) => Json::Number(n.to_string()),
        serde_json::Value::String(s) => Json::Text(s),
        serde_json::Value::Array(a) => Json::List(a.into_iter().map(json_of_value).collect()),
        serde_json::Value::Object(m) => Json::Object(
            m.into_iter().map(|(k, v)| (k, json_of_value(v))).collect(),
        ),
    }
}

/// `serde_json::from_str` reads a text as a value, or says what is wrong
/// where the text is not JSON. The result depends on the text alone.
#[verifier::external_body]
pub(crate) fn parse_json(s: &str) -> (r: Result<Json, String>)
    ensures
        match r {
            Ok(j) => json_read(s@) == Ok::<JsonView, Seq<char>>(j@),
            Err(e) => json_read(s@) == Err::<JsonView, Seq<char>>(e@),
        },
{
    serde_json::from_str::<serde_json::Value>(s).map(json_of_value).map_err(|e| e.to_string())
}

/// The value of a text, `Null` where it is not JSON.
pub open spec fn json_or_null(s: Seq<char>) -> JsonView {
    match json_read(s) {
        Ok(v) => v,
        Err(_) => JsonView::Null,
    }
}

/// The value of a text, `Null` where it is not JSON.
pub fn parse_or_null(s: &str) -> (j: Json)
    ensures
        j@ == json_or_null(s@),
{
    match parse_json(s) {
        Ok(j) => j,
        Err(_) => Json::Null,
    }
}


impl Clone for Json {
    fn clone(&self) -> (r: Self)
        ensures
            r@ == self@,
        decreases self,
    {
        match self {
            Json::Null => Json::Null,
            Json::Bool(b) => Json::Bool(*b),
            Json::Number(s) => Json::Number(s.clone()),
            Json::Text(s) => Json::Text(s.clone()),
            Json::List(v) => {
                let mut out: Vec<Json> = Vec::new();
                let mut i: usize = 0;
                while i < v.len()
                    invariant
                        i <= v.len(),
                        out.len() == i,
                        *self == Json::List(*v),
                        forall|k: int| 0 <= k < i ==> (#[trigger] out@[k])@ == v@[k]@,
                    decreases v.len() - i,
                {
                    assert(decreases_to!(self => self->List_0@[i as int]));
                    out.push(v[i].clone());
                    i += 1;
                }
                let r = Json::List(out);
                assert(r@->List_0 =~= self@->List_0);
                r
            },
            Json::Object(v) => {
                let mut out: Vec<(String, Json)> = Vec::new();
                let mut i: usize = 0;
                while i < v.len()
                    invariant
                        i <= v.len(),
                        out.len() == i,
                        *self == Json::Object(*v),
                        forall|k: int|
                            0 <= k < i ==> (#[trigger] out@[k]).0@ == v@[k].0@ && out@[k].1@ == v@[k].1@,
                    decreases v.len() - i,
                {
                    assert(decreases_to!(self => self->Object_0@[i as int]));
                    out.push((v[i].0.clone(), v[i].1.clone()));
                    i += 1;
                }
                let r = Json::Object(out);
                assert(r@->Object_0 =~= self@->Object_0);
                r
            },
        }
    }
}

/// What `serde_json::Value::to_string` prints.
pub uninterp spec fn json_print(j: JsonView) -> Seq<char>;

/// What `serde_json::to_string_pretty` prints.
pub uninterp spec fn json_pretty(j: JsonView) -> Seq<char>;

/// Turns a `Json` into a `serde_json::Value`, one for one. A number that
/// serde_json cannot read becomes null.
#[verifier::external_body]
fn value_of_json(j: &Json) -> (v: serde_json::Value) {
    match j {
        Json::Null => serde_json::Value::Null,
        Json::Bool(b) => serde_json::Value::Bool(*b),
        Json::Number(n) => n.parse().map_or(serde_json::Value::Null, serde_json::Value::Number),
        Json::Text(s) => serde_json::Value::String(s.clone()),
        Json::List(v) => serde_json::Value::Array(v.iter().map(value_of_json).collect()),
        Json::Object(m) => serde_json::Value::Object(
            m.iter().map(|(k, v)| (k.clone(), value_of_json(v))).collect(),
        ),
    }
}

/// `serde_json::Value::to_string` prints a value on one line. The text
/// depends on the value alone.
#[verifier::external_body]
pub(crate) fn print_json(j: &Json) -> (s: String)
    ensures
        s@ == json_print(j@),
{
    value_of_json(j).to_string()
}

/// `serde_json::to_string_pretty` prints a value over several lines. The
/// text depends on the value alone; a value always prints.
#[verifier::external_body]
pub(crate) fn print_json_pretty(j: &Json) -> (s: String)
    ensures
        s@ == json_pretty(j@),
{
    serde_json::to_string_pretty(&value_of_json(j)).unwrap_or_default()
}

/// A key gives the first member that has it, and nothing where none has.
pub proof fn first_member_counts(m: Seq<(Seq<char>, JsonView)>, key: Seq<char>, i: int)
    requires
        0 <= i <= m.len(),
        forall|k: int| 0 <= k < i ==> (#[trigger] m[k]).0 != key,
    ensures
        i < m.len() && m[i].0 == key ==> member_at(m, key) == Some(m[i].1) && JsonView::Object(m).at(
            key,
        ) == m[i].1,
        i == m.len() ==> member_at(m, key) is None && JsonView::Object(m).at(key) == JsonView::Null,
    decreases m.len(),
{
    if i > 0 {
        let t = m.skip(1);
        assert forall|k: int| 0 <= k < i - 1 implies (#[trigger] t[k]).0 != key by {
            assert(t[k] == m[k + 1]);
        }
        first_member_counts(t, key, i - 1);
        if i < m.len() {
            assert(t[i - 1] == m[i]);
        }
        assert(m[0].0 != key);
    }
}

} // verus!
