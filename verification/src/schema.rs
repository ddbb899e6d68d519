//! Shared pieces of the shard schemas: the number model, the heterogeneous
//! tag fields, string arrays, and reasoning about JSON objects whose fields
//! come sorted by key.

use vstd::prelude::*;
use vstd::string::StrSliceExecFns;

use crate::json::{obj_get, JsonV, JsonValue};
use crate::text::{join_sep, split_whitespace_tokens, split_ws};

verus! {

/// A JSON number as the library holds it: a 64-bit integer exactly, any
/// other number by its literal text.
#[derive(Debug, PartialEq, Clone)]
pub enum JNum {
    Int(i64),
    Text(String),
}

pub enum JNumV {
    Int(int),
    Text(Seq<char>),
}

impl View for JNum {
    type V = JNumV;

    open spec fn view(&self) -> JNumV {
        match self {
            JNum::Int(i) => JNumV::Int(*i as int),
            JNum::Text(s) => JNumV::Text(s@),
        }
    }
}

/// The number a JSON value stands for, if it is a number.
pub open spec fn jnum_of(v: JsonV) -> Option<JNumV> {
    match v {
        JsonV::Int(i) => Some(JNumV::Int(i)),
        JsonV::NumText(s) => Some(JNumV::Text(s)),
        _ => None,
    }
}

pub open spec fn jnum_json(n: JNumV) -> JsonV {
    match n {
        JNumV::Int(i) => JsonV::Int(i),
        JNumV::Text(s) => JsonV::NumText(s),
    }
}

pub fn decode_jnum(v: JsonValue) -> (r: Option<JNum>)
    ensures
        match r {
            Some(n) => jnum_of(v@) == Some(n@),
            None => jnum_of(v@) is None,
        },
{
    match v {
        JsonValue::Int(i) => Some(JNum::Int(i)),
        JsonValue::NumText(s) => Some(JNum::Text(s)),
        _ => None,
    }
}

pub fn encode_jnum(n: &JNum) -> (r: JsonValue)
    ensures
        r@ == jnum_json(n@),
{
    match n {
        JNum::Int(i) => JsonValue::Int(*i),
        JNum::Text(s) => JsonValue::NumText(s.clone()),
    }
}

/// What a tag field decodes to: `null` and the empty string mean an absent
/// list, any other string its whitespace-separated tokens. A non-string,
/// non-null value does not decode.
pub open spec fn tags_of(v: JsonV) -> Option<Option<Seq<Seq<char>>>> {
    match v {
        JsonV::Null => Some(None),
        JsonV::Text(s) => if s.len() == 0 {
            Some(None)
        } else {
            Some(Some(split_ws(s)))
        },
        _ => None,
    }
}

/// The JSON form a tag list is written back as: an absent list becomes the
/// empty string, a present list its tokens joined by single spaces.
pub open spec fn tags_json(t: Option<Seq<Seq<char>>>) -> JsonV {
    match t {
        None => JsonV::Text(Seq::empty()),
        Some(toks) => JsonV::Text(join_sep(toks, ' ')),
    }
}

/// A tag field that writes back exactly as it came: a string whose tokens,
/// joined by single spaces, give the string again.
pub open spec fn tags_canonical(v: JsonV) -> bool {
    v is Text && join_sep(split_ws(v->Text_0), ' ') == v->Text_0
}

pub proof fn lemma_tags_round_trip(v: JsonV)
    requires
        tags_of(v) is Some,
        tags_canonical(v),
    ensures
        tags_json(tags_of(v)->0) == v,
{
}

pub fn decode_tags(v: JsonValue) -> (r: Option<Option<Vec<String>>>)
    ensures
        match r {
            Some(Some(ts)) => tags_of(v@) == Some(Some(ts.deep_view())),
            Some(None) => tags_of(v@) == Some(None::<Seq<Seq<char>>>),
            None => tags_of(v@) is None,
        },
{
    match v {
        JsonValue::Null => Some(None),
        JsonValue::Text(s) => {
            if s.as_str().unicode_len() == 0 {
                Some(None)
            } else {
                let toks = split_whitespace_tokens(s.as_str());
                proof {
                    assert(toks.deep_view() =~= split_ws(s@));
                }
                Some(Some(toks))
            }
        },
        _ => None,
    }
}

pub fn encode_tags(t: &Option<Vec<String>>) -> (r: JsonValue)
    ensures
        r@ == tags_json(t.deep_view()),
{
    match t {
        None => JsonValue::Text(String::new()),
        Some(toks) => JsonValue::Text(crate::text::join_with_char(toks, ' ')),
    }
}

/// An array of strings, if every element is a string.
pub open spec fn texts_of(items: Seq<JsonV>) -> Option<Seq<Seq<char>>>
    decreases items.len(),
{
    if items.len() == 0 {
        Some(Seq::empty())
    } else {
        match items[0] {
            JsonV::Text(s) => match texts_of(items.drop_first()) {
                Some(rest) => Some(seq![s] + rest),
                None => None,
            },
            _ => None,
        }
    }
}

pub open spec fn texts_json(ts: Seq<Seq<char>>) -> Seq<JsonV> {
    ts.map_values(|t: Seq<char>| JsonV::Text(t))
}

pub proof fn lemma_texts_round_trip(items: Seq<JsonV>)
    requires
        texts_of(items) is Some,
    ensures
        texts_json(texts_of(items)->0) =~= items,
    decreases items.len(),
{
    if items.len() > 0 {
        lemma_texts_round_trip(items.drop_first());
        let s0 = items[0]->Text_0;
        let rest = texts_of(items.drop_first())->0;
        let ts = texts_of(items)->0;
        assert(ts == seq![s0] + rest);
        assert forall|i: int| 0 <= i < items.len() implies texts_json(ts)[i] == items[i] by {
            if i == 0 {
                assert(ts[0] == s0);
            } else {
                assert(ts[i] == rest[i - 1]);
                assert(texts_json(rest)[i - 1] == items.drop_first()[i - 1]);
            }
        }
    }
}

/// Index-characterization of `texts_of`, as loops need it.
pub proof fn lemma_texts_of_index(items: Seq<JsonV>)
    requires
        forall|i: int| 0 <= i < items.len() ==> items[i] is Text,
    ensures
        texts_of(items) is Some,
        texts_of(items)->0.len() == items.len(),
        forall|i: int| 0 <= i < items.len() ==> texts_of(items)->0[i] == items[i]->Text_0,
    decreases items.len(),
{
    if items.len() > 0 {
        lemma_texts_of_index(items.drop_first());
    }
}

pub proof fn lemma_texts_of_none(items: Seq<JsonV>, i: int)
    requires
        0 <= i < items.len(),
        !(items[i] is Text),
    ensures
        texts_of(items) is None,
    decreases items.len(),
{
    if i > 0 {
        lemma_texts_of_none(items.drop_first(), i - 1);
    }
}

pub fn decode_text_array_ref(items: &Vec<JsonValue>) -> (r: Option<Vec<String>>)
    ensures
        match r {
            Some(ts) => texts_of(crate::json::json_view_seq(items@)) == Some(ts.deep_view()),
            None => texts_of(crate::json::json_view_seq(items@)) is None,
        },
{
    let ghost orig = crate::json::json_view_seq(items@);
    proof {
        crate::json::lemma_json_view_seq_index(items@);
    }
    let mut out: Vec<String> = Vec::new();
    let n = items.len();
    let mut i: usize = 0;
    while i < n
        invariant
            i <= n,
            n == items@.len(),
            orig == crate::json::json_view_seq(items@),
            orig.len() == n,
            forall|j: int| 0 <= j < n ==> orig[j] == items@[j]@,
            out@.len() == i,
            forall|j: int| 0 <= j < i ==> orig[j] is Text && out@[j]@ == orig[j]->Text_0,
        decreases n - i,
    {
        match &items[i] {
            JsonValue::Text(s) => {
                out.push(s.clone());
            },
            _ => {
                proof {
                    lemma_texts_of_none(orig, i as int);
                }
                return None;
            },
        }
        i = i + 1;
    }
    proof {
        lemma_texts_of_index(orig);
        assert(out.deep_view() =~= texts_of(orig)->0);
    }
    Some(out)
}

pub fn encode_text_array(ts: &Vec<String>) -> (r: Vec<JsonValue>)
    ensures
        crate::json::json_view_seq(r@) =~= texts_json(ts.deep_view()),
{
    let mut out: Vec<JsonValue> = Vec::new();
    let mut i: usize = 0;
    while i < ts.len()
        invariant
            i <= ts@.len(),
            out@.len() == i,
            forall|j: int| 0 <= j < i ==> out@[j]@ == JsonV::Text(ts@[j]@),
        decreases ts@.len() - i,
    {
        out.push(JsonValue::Text(ts[i].clone()));
        i = i + 1;
    }
    proof {
        crate::json::lemma_json_view_seq_index(out@);
    }
    out
}

/// The field names of a JSON object, in the order they stand.
pub open spec fn obj_keys(fields: Seq<(Seq<char>, JsonV)>) -> Seq<Seq<char>> {
    fields.map_values(|f: (Seq<char>, JsonV)| f.0)
}

/// The position of a name in a list of distinct names.
pub open spec fn name_rank(names: Seq<Seq<char>>, k: Seq<char>) -> int {
    choose|r: int| 0 <= r < names.len() && names[r] == k
}

/// An object is ranked by `names` when every field name occurs in `names`
/// and the field order follows the order of `names` strictly.
pub open spec fn ranked_obj(fields: Seq<(Seq<char>, JsonV)>, names: Seq<Seq<char>>) -> bool {
    (forall|i: int|
        0 <= i < fields.len() ==> exists|r: int|
            0 <= r < names.len() && names[r] == #[trigger] fields[i].0) && (forall|i: int|
        0 <= i < fields.len() - 1 ==> name_rank(names, fields[i].0) < name_rank(
            names,
            #[trigger] fields[i + 1].0,
        ))
}

/// The fields of `names` that are present in `fields`, written in the order
/// of `names`.
pub open spec fn present_fields(
    fields: Seq<(Seq<char>, JsonV)>,
    names: Seq<Seq<char>>,
    i: int,
) -> Seq<(Seq<char>, JsonV)>
    decreases names.len() - i,
{
    if i < 0 || i >= names.len() {
        Seq::empty()
    } else {
        (match obj_get(fields, names[i]) {
            Some(v) => seq![(names[i], v)],
            None => Seq::empty(),
        }) + present_fields(fields, names, i + 1)
    }
}

pub open spec fn distinct_names(names: Seq<Seq<char>>) -> bool {
    forall|i: int, j: int| 0 <= i < j < names.len() ==> #[trigger] names[i] != #[trigger] names[j]
}

pub proof fn lemma_obj_get_absent(fields: Seq<(Seq<char>, JsonV)>, name: Seq<char>)
    requires
        forall|i: int| 0 <= i < fields.len() ==> (#[trigger] fields[i].0) != name,
    ensures
        obj_get(fields, name) is None,
    decreases fields.len(),
{
    if fields.len() > 0 {
        lemma_obj_get_absent(fields.drop_first(), name);
    }
}

proof fn lemma_present_skip(
    fields: Seq<(Seq<char>, JsonV)>,
    names: Seq<Seq<char>>,
    i: int,
    r: int,
)
    requires
        0 <= i <= r <= names.len(),
        forall|j: int| i <= j < r ==> obj_get(fields, #[trigger] names[j]) is None,
    ensures
        present_fields(fields, names, i) == present_fields(fields, names, r),
    decreases r - i,
{
    if i < r {
        lemma_present_skip(fields, names, i + 1, r);
        assert(present_fields(fields, names, i) =~= present_fields(fields, names, i + 1));
    }
}

proof fn lemma_present_drop(
    fields: Seq<(Seq<char>, JsonV)>,
    names: Seq<Seq<char>>,
    i: int,
)
    requires
        fields.len() > 0,
        forall|j: int| i <= j < names.len() ==> fields[0].0 != #[trigger] names[j],
    ensures
        present_fields(fields, names, i) == present_fields(fields.drop_first(), names, i),
    decreases names.len() - i,
{
    if 0 <= i < names.len() {
        lemma_present_drop(fields, names, i + 1);
        assert(obj_get(fields, names[i]) == obj_get(fields.drop_first(), names[i]));
        assert(present_fields(fields, names, i) =~= present_fields(
            fields.drop_first(),
            names,
            i,
        ));
    } else {
        assert(present_fields(fields, names, i) =~= Seq::empty());
        assert(present_fields(fields.drop_first(), names, i) =~= Seq::empty());
    }
}

/// A ranked object is exactly its present fields, laid out in name order.
/// This is what lets an encoder that writes fields in name order restore
/// such an object byte for byte.
pub proof fn lemma_ranked_obj_is_present(
    fields: Seq<(Seq<char>, JsonV)>,
    names: Seq<Seq<char>>,
    i: int,
)
    requires
        distinct_names(names),
        ranked_obj(fields, names),
        0 <= i <= names.len(),
        forall|j: int| 0 <= j < fields.len() ==> i <= name_rank(names, #[trigger] fields[j].0),
    ensures
        fields =~= present_fields(fields, names, i),
    decreases fields.len(),
{
    if fields.len() == 0 {
        assert forall|j: int| i <= j < names.len() implies obj_get(
            fields,
            #[trigger] names[j],
        ) is None by {
            lemma_obj_get_absent(fields, names[j]);
        }
        lemma_present_skip(fields, names, i, names.len() as int);
        assert(present_fields(fields, names, names.len() as int) =~= Seq::empty());
    } else {
        let r = name_rank(names, fields[0].0);
        assert(0 <= r < names.len() && names[r] == fields[0].0);
        // every later field has a strictly larger rank
        assert forall|j: int| 1 <= j < fields.len() implies r < name_rank(
            names,
            #[trigger] fields[j].0,
        ) by {
            lemma_rank_chain(fields, names, 0, j);
        }
        // names before r are absent
        assert forall|j: int| i <= j < r implies obj_get(fields, #[trigger] names[j]) is None by {
            assert forall|m: int| 0 <= m < fields.len() implies (#[trigger] fields[m].0)
                != names[j] by {
                if fields[m].0 == names[j] {
                    assert(name_rank(names, fields[m].0) == j);
                }
            }
            lemma_obj_get_absent(fields, names[j]);
        }
        lemma_present_skip(fields, names, i, r);
        // at r the first field is found
        assert(obj_get(fields, names[r]) == Some(fields[0].1));
        // the tail never mentions names[r] or anything before it
        assert forall|j: int| r + 1 <= j < names.len() implies fields[0].0
            != #[trigger] names[j] by {
            if fields[0].0 == names[j] {
                assert(name_rank(names, fields[0].0) == j);
            }
        }
        let tail = fields.drop_first();
        assert(ranked_obj(tail, names)) by {
            assert forall|m: int| 0 <= m < tail.len() - 1 implies name_rank(names, tail[m].0)
                < name_rank(names, #[trigger] tail[m + 1].0) by {
                assert(tail[m] == fields[m + 1]);
                assert(tail[m + 1] == fields[m + 2]);
            }
            assert forall|m: int| 0 <= m < tail.len() implies exists|rr: int|
                0 <= rr < names.len() && names[rr] == #[trigger] tail[m].0 by {
                assert(tail[m] == fields[m + 1]);
            }
        }
        assert forall|m: int| 0 <= m < tail.len() implies r + 1 <= name_rank(
            names,
            #[trigger] tail[m].0,
        ) by {
            assert(tail[m] == fields[m + 1]);
        }
        lemma_ranked_obj_is_present(tail, names, r + 1);
        lemma_present_drop(fields, names, r + 1);
        assert(present_fields(fields, names, r) =~= seq![(names[r], fields[0].1)]
            + present_fields(fields, names, r + 1));
        assert(fields =~= seq![fields[0]] + tail);
    }
}

proof fn lemma_rank_chain(
    fields: Seq<(Seq<char>, JsonV)>,
    names: Seq<Seq<char>>,
    a: int,
    b: int,
)
    requires
        ranked_obj(fields, names),
        0 <= a < b < fields.len(),
    ensures
        name_rank(names, fields[a].0) < name_rank(names, fields[b].0),
    decreases b - a,
{
    if a + 1 < b {
        lemma_rank_chain(fields, names, a + 1, b);
    }
    assert(name_rank(names, fields[a].0) < name_rank(names, fields[a + 1].0));
}

proof fn lemma_obj_get_first(fields: Seq<(Seq<char>, JsonV)>, name: Seq<char>, i: int)
    requires
        0 <= i < fields.len(),
        fields[i].0 == name,
        forall|j: int| 0 <= j < i ==> (#[trigger] fields[j].0) != name,
    ensures
        obj_get(fields, name) == Some(fields[i].1),
    decreases i,
{
    if i > 0 {
        lemma_obj_get_first(fields.drop_first(), name, i - 1);
    }
}

/// Linear scan for a field, as `obj_get` names it.
pub fn get_field<'a>(fields: &'a Vec<(String, JsonValue)>, name: &str) -> (r: Option<
    &'a JsonValue,
>)
    ensures
        match r {
            Some(v) => obj_get(crate::json::json_view_fields(fields@), name@) == Some(v@),
            None => obj_get(crate::json::json_view_fields(fields@), name@) is None,
        },
{
    let ghost fv = crate::json::json_view_fields(fields@);
    proof {
        crate::json::lemma_json_view_fields_index(fields@);
    }
    let n = fields.len();
    let mut i: usize = 0;
    while i < n
        invariant
            i <= n,
            n == fields@.len(),
            fv == crate::json::json_view_fields(fields@),
            fv.len() == n,
            forall|j: int| 0 <= j < n ==> fv[j] == (#[trigger] fields@[j].0@, fields@[j].1@),
            forall|j: int| 0 <= j < i ==> (#[trigger] fv[j].0) != name@,
        decreases n - i,
    {
        if crate::text::str_eq(fields[i].0.as_str(), name) {
            proof {
                lemma_obj_get_first(fv, name@, i as int);
            }
            return Some(&fields[i].1);
        }
        i = i + 1;
    }
    proof {
        lemma_obj_get_absent(fv, name@);
    }
    None
}

/// The position of a key in a list of distinct names, by linear search.
fn rank_of_key(names: &Vec<String>, k: &str) -> (r: Option<usize>)
    ensures
        match r {
            Some(i) => i < names@.len() && names@[i as int]@ == k@,
            None => forall|j: int| 0 <= j < names@.len() ==> (#[trigger] names@[j]@) != k@,
        },
{
    let n = names.len();
    let mut i: usize = 0;
    while i < n
        invariant
            i <= n,
            n == names@.len(),
            forall|j: int| 0 <= j < i ==> (#[trigger] names@[j]@) != k@,
        decreases n - i,
    {
        if crate::text::str_eq(names[i].as_str(), k) {
            return Some(i);
        }
        i = i + 1;
    }
    None
}

/// Decides whether an object's fields stand in the strict order of the
/// given distinct names.
pub fn check_ranked(fields: &Vec<(String, JsonValue)>, names: &Vec<String>) -> (r: bool)
    requires
        distinct_names(names.deep_view()),
    ensures
        r == ranked_obj(crate::json::json_view_fields(fields@), names.deep_view()),
{
    let ghost fv = crate::json::json_view_fields(fields@);
    let ghost ns = names.deep_view();
    proof {
        crate::json::lemma_json_view_fields_index(fields@);
    }
    let n = fields.len();
    let mut i: usize = 0;
    let mut prev: usize = 0;
    while i < n
        invariant
            i <= n,
            n == fields@.len(),
            fv == crate::json::json_view_fields(fields@),
            ns == names.deep_view(),
            distinct_names(ns),
            fv.len() == n,
            forall|j: int| 0 <= j < n ==> fv[j] == (#[trigger] fields@[j].0@, fields@[j].1@),
            forall|j: int| 0 <= j < i ==> exists|rr: int|
                0 <= rr < ns.len() && ns[rr] == #[trigger] fv[j].0,
            forall|j: int| 0 <= j < i - 1 ==> name_rank(ns, fv[j].0) < name_rank(
                ns,
                #[trigger] fv[j + 1].0,
            ),
            i > 0 ==> prev == name_rank(ns, fv[i - 1].0),
        decreases n - i,
    {
        match rank_of_key(names, fields[i].0.as_str()) {
            Some(rk) => {
                proof {
                    assert(ns[rk as int] == fv[i as int].0);
                    assert(name_rank(ns, fv[i as int].0) == rk as int) by {
                        let rr = choose|rr: int| 0 <= rr < ns.len() && ns[rr] == fv[i as int].0;
                        assert(ns[rr] == fv[i as int].0);
                    }
                }
                if i > 0 && rk <= prev {
                    proof {
                        assert(name_rank(ns, fv[i - 1].0) >= name_rank(ns, fv[(i - 1) + 1].0));
                        assert(!ranked_obj(fv, ns));
                    }
                    return false;
                }
                prev = rk;
            },
            None => {
                proof {
                    assert(fv[i as int].0 == fields@[i as int].0@);
                    if ranked_obj(fv, ns) {
                        assert((i as int) < fv.len());
                        assert(exists|rr: int|
                            0 <= rr < ns.len() && ns[rr] == fv[i as int].0);
                        let rr = choose|rr: int|
                            0 <= rr < ns.len() && ns[rr] == fv[i as int].0;
                        assert(ns[rr] == names@[rr]@);
                        assert(false);
                    }
                }
                return false;
            },
        }
        i = i + 1;
    }
    proof {
        assert(ranked_obj(fv, ns));
    }
    true
}

pub fn decode_jnum_ref(v: &JsonValue) -> (r: Option<JNum>)
    ensures
        match r {
            Some(n) => jnum_of(v@) == Some(n@),
            None => jnum_of(v@) is None,
        },
{
    match v {
        JsonValue::Int(i) => Some(JNum::Int(*i)),
        JsonValue::NumText(s) => Some(JNum::Text(s.clone())),
        _ => None,
    }
}

} // verus!
