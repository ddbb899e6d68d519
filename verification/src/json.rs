//! JSON documents as the library sees them.
//!
//! Shard files and index manifests are JSON; the surrounding engine parses
//! and renders them with `serde_json`, while all structural reasoning
//! happens on the library's own tree. Integral numbers are held exactly;
//! any other number keeps its literal text and stays opaque.

use vstd::prelude::*;

verus! {

broadcast use vstd::seq::axiom_seq_index_decreases, vstd::std_specs::vec::axiom_vec_decreases_to_view;

/// Mathematical model of a JSON document.
#[verifier::ext_equal]
pub enum JsonV {
    Null,
    Bool(bool),
    Int(int),
    /// A number that is not a 64-bit integer, by its literal text.
    NumText(Seq<char>),
    Text(Seq<char>),
    Arr(Seq<JsonV>),
    Obj(Seq<(Seq<char>, JsonV)>),
}

/// Executable JSON tree. Object fields keep the order in which the parser
/// handed them over (sorted by key for the parser used here).
#[derive(Debug, PartialEq)]
pub enum JsonValue {
    Null,
    Bool(bool),
    Int(i64),
    NumText(String),
    Text(String),
    Arr(Vec<JsonValue>),
    Obj(Vec<(String, JsonValue)>),
}

pub open spec fn json_view(v: JsonValue) -> JsonV
    decreases v,
{
    match v {
        JsonValue::Null => JsonV::Null,
        JsonValue::Bool(b) => JsonV::Bool(b),
        JsonValue::Int(i) => JsonV::Int(i as int),
        JsonValue::NumText(s) => JsonV::NumText(s@),
        JsonValue::Text(s) => JsonV::Text(s@),
        JsonValue::Arr(a) => JsonV::Arr(json_view_seq(a@)),
        JsonValue::Obj(o) => JsonV::Obj(json_view_fields(o@)),
    }
}

pub open spec fn json_view_seq(s: Seq<JsonValue>) -> Seq<JsonV>
    decreases s,
{
    if s.len() == 0 {
        Seq::empty()
    } else {
        seq![json_view(s[0])] + json_view_seq(s.drop_first())
    }
}

pub open spec fn json_view_fields(s: Seq<(String, JsonValue)>) -> Seq<(Seq<char>, JsonV)>
    decreases s,
{
    if s.len() == 0 {
        Seq::empty()
    } else {
        seq![(s[0].0@, json_view(s[0].1))] + json_view_fields(s.drop_first())
    }
}

impl View for JsonValue {
    type V = JsonV;

    open spec fn view(&self) -> JsonV {
        json_view(*self)
    }
}

pub proof fn lemma_json_view_seq_index(s: Seq<JsonValue>)
    ensures
        json_view_seq(s).len() == s.len(),
        forall|i: int| 0 <= i < s.len() ==> json_view_seq(s)[i] == s[i]@,
    decreases s.len(),
{
    if s.len() > 0 {
        lemma_json_view_seq_index(s.drop_first());
    }
}

pub proof fn lemma_json_view_fields_index(s: Seq<(String, JsonValue)>)
    ensures
        json_view_fields(s).len() == s.len(),
        forall|i: int| 0 <= i < s.len() ==> json_view_fields(s)[i] == (s[i].0@, s[i].1@),
    decreases s.len(),
{
    if s.len() > 0 {
        lemma_json_view_fields_index(s.drop_first());
    }
}


pub proof fn lemma_json_view_seq_push(s: Seq<JsonValue>, x: JsonValue)
    ensures
        json_view_seq(s.push(x)) =~= json_view_seq(s).push(json_view(x)),
{
    lemma_json_view_seq_index(s.push(x));
    lemma_json_view_seq_index(s);
}

/// First field of an object with the given name, if any.
pub open spec fn obj_get(fields: Seq<(Seq<char>, JsonV)>, name: Seq<char>) -> Option<JsonV>
    decreases fields.len(),
{
    if fields.len() == 0 {
        None
    } else if fields[0].0 == name {
        Some(fields[0].1)
    } else {
        obj_get(fields.drop_first(), name)
    }
}

/// What `serde_json` parses the given text into, if it parses at all.
pub uninterp spec fn json_of(s: Seq<char>) -> Option<JsonV>;

/// What `serde_json` renders the given document as.
pub uninterp spec fn json_text_of(v: JsonV) -> Seq<char>;

#[verifier::external_type_specification]
#[verifier::external_body]
pub struct ExJsonValue(serde_json::Value);

/// Relies on `serde_json::from_str::<Value>`: what a document parses into
/// is a function of its text alone.
#[verifier::external_body]
pub fn parse_json(s: &str) -> (r: Option<JsonValue>)
    ensures
        match r {
            Some(v) => json_of(s@) == Some(v@),
            None => json_of(s@) is None,
        },
{
    serde_json::from_str::<serde_json::Value>(s).ok().map(|v| json_from_outside(&v))
}

/// Relies on `serde_json::Value`: rebuilds the outside JSON tree in the
/// library's own representation, one node for one node.
#[verifier::external_body]
fn json_from_outside(v: &serde_json::Value) -> JsonValue {
    match v {
        serde_json::Value::Null => JsonValue::Null,
        serde_json::Value::Bool(b) => JsonValue::Bool(*b),
        serde_json::Value::Number(n) => match n.as_i64() {
            Some(i) => JsonValue::Int(i),
            None => JsonValue::NumText(n.to_string()),
        },
        serde_json::Value::String(s) => JsonValue::Text(s.clone()),
        serde_json::Value::Array(a) => JsonValue::Arr(a.iter().map(json_from_outside).collect()),
        serde_json::Value::Object(m) => JsonValue::Obj(
            m.iter().map(|(k, x)| (k.clone(), json_from_outside(x))).collect(),
        ),
    }
}

/// Relies on `serde_json::to_string`: the rendered text is a function of
/// the document alone (object fields are rendered sorted by key).
#[verifier::external_body]
pub fn json_to_text(v: &JsonValue) -> (r: String)
    ensures
        r@ == json_text_of(v@),
{
    serde_json::to_string(&json_to_outside(v)).unwrap_or_default()
}

/// Relies on `serde_json::Value`: rebuilds the library's tree as an outside
/// JSON tree, one node for one node.
#[verifier::external_body]
fn json_to_outside(v: &JsonValue) -> serde_json::Value {
    match v {
        JsonValue::Null => serde_json::Value::Null,
        JsonValue::Bool(b) => serde_json::Value::Bool(*b),
        JsonValue::Int(i) => serde_json::Value::Number(serde_json::Number::from(*i)),
        JsonValue::NumText(s) => match s.parse::<serde_json::Number>() {
            Ok(n) => serde_json::Value::Number(n),
            Err(_) => serde_json::Value::Null,
        },
        JsonValue::Text(s) => serde_json::Value::String(s.clone()),
        JsonValue::Arr(a) => serde_json::Value::Array(a.iter().map(json_to_outside).collect()),
        JsonValue::Obj(m) => serde_json::Value::Object(
            m.iter().map(|(k, x)| (k.clone(), json_to_outside(x))).collect(),
        ),
    }
}


/// Relies on `serde_json::to_string` rendering a vector as the JSON array
/// of its elements.
#[verifier::external_body]
pub fn json_to_text_array(items: &Vec<JsonValue>) -> (r: String)
    ensures
        r@ == json_text_of(JsonV::Arr(json_view_seq(items@))),
{
    let outside: Vec<serde_json::Value> = items.iter().map(json_to_outside).collect();
    serde_json::to_string(&outside).unwrap_or_default()
}

/// A deep copy of a JSON tree, equal to its source in the model.
pub fn clone_json(v: &JsonValue) -> (r: JsonValue)
    ensures
        r@ == v@,
    decreases v,
{
    match v {
        JsonValue::Null => JsonValue::Null,
        JsonValue::Bool(b) => JsonValue::Bool(*b),
        JsonValue::Int(i) => JsonValue::Int(*i),
        JsonValue::NumText(s) => JsonValue::NumText(s.clone()),
        JsonValue::Text(s) => JsonValue::Text(s.clone()),
        JsonValue::Arr(a) => JsonValue::Arr(clone_json_vec(a)),
        JsonValue::Obj(o) => JsonValue::Obj(clone_fields(o)),
    }
}

pub fn clone_json_vec(a: &Vec<JsonValue>) -> (r: Vec<JsonValue>)
    ensures
        json_view_seq(r@) == json_view_seq(a@),
    decreases a,
{
    proof {
        lemma_json_view_seq_index(a@);
    }
    let mut out: Vec<JsonValue> = Vec::new();
    let mut i: usize = 0;
    while i < a.len()
        invariant
            i <= a@.len(),
            out@.len() == i,
            forall|j: int| 0 <= j < i ==> #[trigger] out@[j]@ == a@[j]@,
        decreases a@.len() - i,
    {
        out.push(clone_json(&a[i]));
        i = i + 1;
    }
    proof {
        lemma_json_view_seq_index(out@);
        assert(json_view_seq(out@) =~= json_view_seq(a@));
    }
    out
}

pub fn clone_fields(o: &Vec<(String, JsonValue)>) -> (r: Vec<(String, JsonValue)>)
    ensures
        json_view_fields(r@) == json_view_fields(o@),
    decreases o,
{
    proof {
        lemma_json_view_fields_index(o@);
    }
    let mut out: Vec<(String, JsonValue)> = Vec::new();
    let mut i: usize = 0;
    while i < o.len()
        invariant
            i <= o@.len(),
            out@.len() == i,
            forall|j: int| 0 <= j < i ==> #[trigger] out@[j].0@ == o@[j].0@ && out@[j].1@
                == o@[j].1@,
        decreases o@.len() - i,
    {
        out.push((o[i].0.clone(), clone_json(&o[i].1)));
        i = i + 1;
    }
    proof {
        lemma_json_view_fields_index(out@);
        assert(json_view_fields(out@) =~= json_view_fields(o@));
    }
    out
}

/// An executable value views as a string exactly when it is one.
pub proof fn lemma_text_view(x: JsonValue)
    ensures
        (x is Text) <==> (x@ is Text),
{
    match x {
        JsonValue::Null => {},
        JsonValue::Bool(_) => {},
        JsonValue::Int(_) => {},
        JsonValue::NumText(_) => {},
        JsonValue::Text(_) => {},
        JsonValue::Arr(_) => {},
        JsonValue::Obj(_) => {},
    }
}

/// An executable value views as an array exactly when it is one.
pub proof fn lemma_arr_view(x: JsonValue)
    ensures
        (x is Arr) <==> (x@ is Arr),
{
    match x {
        JsonValue::Null => {},
        JsonValue::Bool(_) => {},
        JsonValue::Int(_) => {},
        JsonValue::NumText(_) => {},
        JsonValue::Text(_) => {},
        JsonValue::Arr(_) => {},
        JsonValue::Obj(_) => {},
    }
}

} // verus!
