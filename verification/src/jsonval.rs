//! The library's JSON model: what the manifest decoder hands the package
//! logic. Parsing itself is the `json` crate's work, behind a trusted
//! wrapper; everything that reads the parsed value is verified against
//! this model.

use vstd::prelude::*;

verus! {

/// A JSON document. Numbers carry no payload: nothing in the package
/// logic reads one, only their not-being-a-string matters.
pub enum JsonVal {
    Null,
    Bool(bool),
    Num,
    Str(String),
    Arr(Vec<JsonVal>),
    Obj(Vec<(String, JsonVal)>),
}

/// Spec-level mirror of `JsonVal`.
pub enum JsonView {
    Null,
    Bool(bool),
    Num,
    Str(Seq<char>),
    Arr(Seq<JsonView>),
    Obj(Seq<(Seq<char>, JsonView)>),
}

/// The view of a JSON value.
pub open spec fn json_view(v: JsonVal) -> JsonView
    decreases v, 1int, 0int,
{
    match v {
        JsonVal::Null => JsonView::Null,
        JsonVal::Bool(b) => JsonView::Bool(b),
        JsonVal::Num => JsonView::Num,
        JsonVal::Str(s) => JsonView::Str(s@),
        JsonVal::Arr(vs) => JsonView::Arr(json_view_arr(v->Arr_0@)),
        JsonVal::Obj(es) => JsonView::Obj(json_view_obj(v->Obj_0@)),
    }
}

/// The views of a JSON array's elements.
pub open spec fn json_view_arr(s: Seq<JsonVal>) -> Seq<JsonView>
    decreases s, 0int, s.len(),
{
    if s.len() == 0 {
        Seq::empty()
    } else {
        seq![json_view(s[0])] + json_view_arr(s.subrange(1, s.len() as int))
    }
}

/// The views of a JSON object's members.
pub open spec fn json_view_obj(s: Seq<(String, JsonVal)>) -> Seq<(Seq<char>, JsonView)>
    decreases s, 0int, s.len(),
{
    if s.len() == 0 {
        Seq::empty()
    } else {
        seq![(s[0].0@, json_view(s[0].1))] + json_view_obj(s.subrange(1, s.len() as int))
    }
}


/// The first value under key `k` in an object's members.
pub open spec fn spec_obj_get(es: Seq<(Seq<char>, JsonView)>, k: Seq<char>) -> Option<JsonView>
    decreases es.len(),
{
    if es.len() == 0 {
        Option::None
    } else if es[0].0 == k {
        Option::Some(es[0].1)
    } else {
        spec_obj_get(es.subrange(1, es.len() as int), k)
    }
}

pub proof fn lemma_json_view_arr_index(s: Seq<JsonVal>, i: int)
    requires
        0 <= i < s.len(),
    ensures
        json_view_arr(s).len() == s.len(),
        json_view_arr(s)[i] == json_view(s[i]),
    decreases s.len(),
{
    lemma_json_view_arr_len(s);
    if i > 0 {
        lemma_json_view_arr_index(s.subrange(1, s.len() as int), i - 1);
    } else {
        lemma_json_view_arr_len(s.subrange(1, s.len() as int));
    }
}

pub proof fn lemma_json_view_arr_len(s: Seq<JsonVal>)
    ensures
        json_view_arr(s).len() == s.len(),
    decreases s.len(),
{
    if s.len() > 0 {
        lemma_json_view_arr_len(s.subrange(1, s.len() as int));
    }
}

pub proof fn lemma_json_view_obj_len(s: Seq<(String, JsonVal)>)
    ensures
        json_view_obj(s).len() == s.len(),
    decreases s.len(),
{
    if s.len() > 0 {
        lemma_json_view_obj_len(s.subrange(1, s.len() as int));
    }
}

pub proof fn lemma_json_view_obj_index(s: Seq<(String, JsonVal)>, i: int)
    requires
        0 <= i < s.len(),
    ensures
        json_view_obj(s).len() == s.len(),
        json_view_obj(s)[i] == (s[i].0@, json_view(s[i].1)),
    decreases s.len(),
{
    lemma_json_view_obj_len(s);
    if i > 0 {
        lemma_json_view_obj_index(s.subrange(1, s.len() as int), i - 1);
    } else {
        lemma_json_view_obj_len(s.subrange(1, s.len() as int));
    }
}

proof fn lemma_obj_get_at(es: Seq<(Seq<char>, JsonView)>, k: Seq<char>, i: int)
    requires
        0 <= i < es.len(),
        es[i].0 == k,
        forall|j: int| 0 <= j < i ==> es[j].0 != k,
    ensures
        spec_obj_get(es, k) == Option::Some(es[i].1),
    decreases i,
{
    if i > 0 {
        lemma_obj_get_at(es.subrange(1, es.len() as int), k, i - 1);
    }
}

proof fn lemma_obj_get_none(es: Seq<(Seq<char>, JsonView)>, k: Seq<char>)
    requires
        forall|j: int| 0 <= j < es.len() ==> es[j].0 != k,
    ensures
        spec_obj_get(es, k) is None,
    decreases es.len(),
{
    if es.len() > 0 {
        lemma_obj_get_none(es.subrange(1, es.len() as int), k);
    }
}

impl JsonVal {
    /// The member of this object under `k`, when this is an object that
    /// has one.
    #[verifier::loop_isolation(false)]
    pub fn obj_get<'a>(&'a self, k: &str) -> (r: Option<&'a JsonVal>)
        ensures
            match r {
                Option::Some(w) => json_view(*self) is Obj && spec_obj_get(
                    json_view(*self)->Obj_0,
                    k@,
                ) == Option::Some(json_view(*w)),
                Option::None => json_view(*self) is Obj ==> spec_obj_get(
                    json_view(*self)->Obj_0,
                    k@,
                ) is None,
            },
    {
        match self {
            JsonVal::Obj(es) => {
                let ghost ev = json_view(*self)->Obj_0;
                let mut i: usize = 0;
                while i < es.len()
                    invariant
                        i <= es@.len(),
                        forall|j: int| 0 <= j < i ==> #[trigger] es@[j].0@ != k@,
                    decreases es@.len() - i,
                {
                    if crate::strutil::str_eq(es[i].0.as_str(), k) {
                        proof {
                            lemma_json_view_obj_index(es@, i as int);
                            assert forall|j: int| 0 <= j < i implies ev[j].0 != k@ by {
                                lemma_json_view_obj_index(es@, j);
                            }
                            lemma_obj_get_at(ev, k@, i as int);
                        }
                        return Option::Some(&es[i].1);
                    }
                    i = i + 1;
                }
                proof {
                    lemma_json_view_obj_len(es@);
                    assert forall|j: int| 0 <= j < ev.len() implies ev[j].0 != k@ by {
                        lemma_json_view_obj_index(es@, j);
                    }
                    lemma_obj_get_none(ev, k@);
                }
                Option::None
            },
            _ => Option::None,
        }
    }

    pub fn is_string(&self) -> (r: bool)
        ensures
            r == (json_view(*self) is Str),
    {
        matches!(self, JsonVal::Str(_))
    }

    pub fn is_object(&self) -> (r: bool)
        ensures
            r == (json_view(*self) is Obj),
    {
        matches!(self, JsonVal::Obj(_))
    }

    pub fn is_boolean(&self) -> (r: bool)
        ensures
            r == (json_view(*self) is Bool),
    {
        matches!(self, JsonVal::Bool(_))
    }

    pub fn as_bool(&self) -> (r: Option<bool>)
        ensures
            match r {
                Option::Some(b) => json_view(*self) == JsonView::Bool(b),
                Option::None => !(json_view(*self) is Bool),
            },
    {
        match self {
            JsonVal::Bool(b) => Option::Some(*b),
            _ => Option::None,
        }
    }

    /// The text of a string value.
    pub fn str_value(&self) -> (r: Option<&String>)
        ensures
            match r {
                Option::Some(s) => json_view(*self) == JsonView::Str(s@),
                Option::None => !(json_view(*self) is Str),
            },
    {
        match self {
            JsonVal::Str(s) => Option::Some(s),
            _ => Option::None,
        }
    }

    /// How many elements an array value has; zero for anything else.
    pub fn arr_len(&self) -> (r: usize)
        ensures
            json_view(*self) is Arr ==> r == json_view(*self)->Arr_0.len(),
            !(json_view(*self) is Arr) ==> r == 0,
    {
        match self {
            JsonVal::Arr(vs) => {
                proof {
                    lemma_json_view_arr_len(vs@);
                }
                vs.len()
            },
            _ => 0,
        }
    }

    pub fn arr_at(&self, i: usize) -> (r: &JsonVal)
        requires
            json_view(*self) is Arr,
            i < json_view(*self)->Arr_0.len(),
        ensures
            json_view(*r) == json_view(*self)->Arr_0[i as int],
    {
        match self {
            JsonVal::Arr(vs) => {
                proof {
                    lemma_json_view_arr_len(vs@);
                    lemma_json_view_arr_index(vs@, i as int);
                }
                &vs[i]
            },
            _ => {
                proof {
                    assert(false);
                }
                self
            },
        }
    }

    /// How many members an object value has; zero for anything else.
    pub fn obj_len(&self) -> (r: usize)
        ensures
            json_view(*self) is Obj ==> r == json_view(*self)->Obj_0.len(),
            !(json_view(*self) is Obj) ==> r == 0,
    {
        match self {
            JsonVal::Obj(es) => {
                proof {
                    lemma_json_view_obj_len(es@);
                }
                es.len()
            },
            _ => 0,
        }
    }

    pub fn obj_at(&self, i: usize) -> (r: (&String, &JsonVal))
        requires
            json_view(*self) is Obj,
            i < json_view(*self)->Obj_0.len(),
        ensures
            json_view(*self)->Obj_0[i as int] == (r.0@, json_view(*r.1)),
    {
        match self {
            JsonVal::Obj(es) => {
                proof {
                    lemma_json_view_obj_len(es@);
                    lemma_json_view_obj_index(es@, i as int);
                }
                (&es[i].0, &es[i].1)
            },
            _ => {
                proof {
                    assert(false);
                }
                (
                    match self {
                        JsonVal::Obj(es) => &es[0].0,
                        _ => unreached(),
                    },
                    self,
                )
            },
        }
    }
}

// ---------------------------------------------------------------------------
// The trusted parsing boundary.
// ---------------------------------------------------------------------------

#[verifier::external_type_specification]
#[verifier::external_body]
pub struct ExJsonValue(json::JsonValue);

/// What `json::parse` yields on a document, as a view of this model:
/// `None` for invalid JSON.
pub uninterp spec fn json_of(s: Seq<char>) -> Option<JsonView>;

/// Relies on the `json` crate's value enum: one model variant per crate
/// variant, members and elements carried over in order. No contract of its
/// own; `parse_json` names the composite result.
#[verifier::external_body]
fn json_value_model(v: json::JsonValue) -> JsonVal {
    match v {
        json::JsonValue::Null => JsonVal::Null,
        json::JsonValue::Short(s) => JsonVal::Str(s.as_str().to_string()),
        json::JsonValue::String(s) => JsonVal::Str(s),
        json::JsonValue::Number(_) => JsonVal::Num,
        json::JsonValue::Boolean(b) => JsonVal::Bool(b),
        json::JsonValue::Array(vs) => JsonVal::Arr(
            vs.into_iter().map(json_value_model).collect(),
        ),
        json::JsonValue::Object(o) => JsonVal::Obj(
            o.iter().map(|(k, w)| (k.to_string(), json_value_model(w.clone()))).collect(),
        ),
    }
}

/// Relies on `json::parse`: a document parses to the same value on every
/// call, `None` exactly on invalid JSON.
#[verifier::external_body]
pub fn parse_json(s: &str) -> (r: Option<JsonVal>)
    ensures
        (r matches Option::Some(v) ==> json_of(s@) == Option::Some(json_view(v))),
        (r is None) ==> (json_of(s@) is None),
{
    match json::parse(s) {
        Ok(v) => Some(json_value_model(v)),
        Err(_) => None,
    }
}

} // verus!
