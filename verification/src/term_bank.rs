//! The term shard schema: an entry is a positional 8-tuple of headword,
//! reading, tag list, rule identifiers, score, definitions, sequence number
//! and term tags. Definitions are an untagged union told apart by shape.

use vstd::prelude::*;
use vstd::string::StringExecFns;

use crate::json::{
    json_view_fields, json_view_seq, lemma_json_view_fields_index, lemma_json_view_seq_index,
    obj_get, JsonV, JsonValue,
};
use crate::schema::{
    decode_jnum, decode_tags, distinct_names, encode_jnum, encode_tags, jnum_json, jnum_of,
    lemma_ranked_obj_is_present, lemma_tags_round_trip, lemma_texts_round_trip, name_rank,
    obj_keys, present_fields, ranked_obj, tags_canonical, tags_json, tags_of, texts_json,
    texts_of, JNum, JNumV,
};
use crate::text::str_eq;

verus! {

/// One sense of a term entry.
#[derive(Debug, PartialEq)]
pub enum Definition {
    Simple(String),
    Structured(StructuredDefinition),
    Deinflection(DeinflectionDefinition),
}

#[derive(Debug, PartialEq)]
pub struct StructuredDefinition {
    pub def_type: String,
    pub content: Option<JsonValue>,
    pub attributes: Option<Vec<(String, JsonValue)>>,
}

#[derive(Debug, PartialEq)]
pub struct DeinflectionDefinition {
    pub base_form: String,
    pub inflections: Vec<String>,
}

/// One row of a term shard.
#[derive(Debug, PartialEq)]
pub struct TermEntry {
    pub text: String,
    pub reading: String,
    pub tags: Option<Vec<String>>,
    pub rule_identifiers: String,
    pub score: JNum,
    pub definitions: Vec<Definition>,
    pub sequence_number: i64,
    pub term_tags: Option<Vec<String>>,
}

pub enum DefinitionV {
    Simple(Seq<char>),
    Structured(StructuredDefinitionV),
    Deinflection(DeinflectionDefinitionV),
}

pub struct StructuredDefinitionV {
    pub def_type: Seq<char>,
    pub content: Option<JsonV>,
    pub attributes: Option<Seq<(Seq<char>, JsonV)>>,
}

pub struct DeinflectionDefinitionV {
    pub base_form: Seq<char>,
    pub inflections: Seq<Seq<char>>,
}

pub struct TermEntryV {
    pub text: Seq<char>,
    pub reading: Seq<char>,
    pub tags: Option<Seq<Seq<char>>>,
    pub rule_identifiers: Seq<char>,
    pub score: JNumV,
    pub definitions: Seq<DefinitionV>,
    pub sequence_number: int,
    pub term_tags: Option<Seq<Seq<char>>>,
}

impl View for StructuredDefinition {
    type V = StructuredDefinitionV;

    open spec fn view(&self) -> StructuredDefinitionV {
        StructuredDefinitionV {
            def_type: self.def_type@,
            content: match self.content {
                Some(c) => Some(c@),
                None => None,
            },
            attributes: match self.attributes {
                Some(a) => Some(json_view_fields(a@)),
                None => None,
            },
        }
    }
}

impl View for DeinflectionDefinition {
    type V = DeinflectionDefinitionV;

    open spec fn view(&self) -> DeinflectionDefinitionV {
        DeinflectionDefinitionV {
            base_form: self.base_form@,
            inflections: self.inflections.deep_view(),
        }
    }
}

impl View for Definition {
    type V = DefinitionV;

    open spec fn view(&self) -> DefinitionV {
        match self {
            Definition::Simple(s) => DefinitionV::Simple(s@),
            Definition::Structured(s) => DefinitionV::Structured(s@),
            Definition::Deinflection(d) => DefinitionV::Deinflection(d@),
        }
    }
}

pub open spec fn defs_view(ds: Seq<Definition>) -> Seq<DefinitionV> {
    ds.map_values(|d: Definition| d@)
}

impl View for TermEntry {
    type V = TermEntryV;

    open spec fn view(&self) -> TermEntryV {
        TermEntryV {
            text: self.text@,
            reading: self.reading@,
            tags: self.tags.deep_view(),
            rule_identifiers: self.rule_identifiers@,
            score: self.score@,
            definitions: defs_view(self.definitions@),
            sequence_number: self.sequence_number as int,
            term_tags: self.term_tags.deep_view(),
        }
    }
}

/// The field names a structured definition may carry, in the order the
/// parser leaves them.
pub open spec fn structured_names() -> Seq<Seq<char>> {
    seq!["attributes"@, "content"@, "type"@]
}

/// What one definition value decodes to: a string is a simple gloss, an
/// object with exactly `baseForm` and `inflections` is a de-inflection,
/// any other object carrying a string `type` is structured content.
pub open spec fn def_of(v: JsonV) -> Option<DefinitionV> {
    match v {
        JsonV::Text(s) => Some(DefinitionV::Simple(s)),
        JsonV::Obj(fields) => {
            if obj_keys(fields) == seq!["baseForm"@, "inflections"@] {
                let base = obj_get(fields, "baseForm"@);
                let infl = obj_get(fields, "inflections"@);
                if base->0 is Text && infl->0 is Arr && texts_of(infl->0->Arr_0) is Some {
                    Some(DefinitionV::Deinflection(DeinflectionDefinitionV {
                        base_form: base->0->Text_0,
                        inflections: texts_of(infl->0->Arr_0)->0,
                    }))
                } else {
                    None
                }
            } else if ranked_obj(fields, structured_names()) {
                let t = obj_get(fields, "type"@);
                let a = obj_get(fields, "attributes"@);
                if t is Some && t->0 is Text && (a is None || a->0 is Obj) {
                    Some(DefinitionV::Structured(StructuredDefinitionV {
                        def_type: t->0->Text_0,
                        content: obj_get(fields, "content"@),
                        attributes: match a {
                            Some(av) => Some(av->Obj_0),
                            None => None,
                        },
                    }))
                } else {
                    None
                }
            } else {
                None
            }
        },
        _ => None,
    }
}

pub open spec fn defs_of_list(items: Seq<JsonV>) -> Option<Seq<DefinitionV>>
    decreases items.len(),
{
    if items.len() == 0 {
        Some(Seq::empty())
    } else {
        match def_of(items[0]) {
            Some(d) => match defs_of_list(items.drop_first()) {
                Some(rest) => Some(seq![d] + rest),
                None => None,
            },
            None => None,
        }
    }
}

pub open spec fn defs_of(v: JsonV) -> Option<Seq<DefinitionV>> {
    match v {
        JsonV::Arr(items) => defs_of_list(items),
        _ => None,
    }
}

/// What a term row decodes to, if it has the 8-tuple shape.
pub open spec fn term_entry_of(v: JsonV) -> Option<TermEntryV> {
    match v {
        JsonV::Arr(items) => {
            if items.len() == 8 && items[0] is Text && items[1] is Text && items[3] is Text
                && items[6] is Int && tags_of(items[2]) is Some && jnum_of(items[4]) is Some
                && defs_of(items[5]) is Some && tags_of(items[7]) is Some {
                Some(TermEntryV {
                    text: items[0]->Text_0,
                    reading: items[1]->Text_0,
                    tags: tags_of(items[2])->0,
                    rule_identifiers: items[3]->Text_0,
                    score: jnum_of(items[4])->0,
                    definitions: defs_of(items[5])->0,
                    sequence_number: items[6]->Int_0,
                    term_tags: tags_of(items[7])->0,
                })
            } else {
                None
            }
        },
        _ => None,
    }
}

/// The JSON a definition writes back as.
pub open spec fn def_json(d: DefinitionV) -> JsonV {
    match d {
        DefinitionV::Simple(s) => JsonV::Text(s),
        DefinitionV::Structured(s) => JsonV::Obj(
            (match s.attributes {
                Some(a) => seq![("attributes"@, JsonV::Obj(a))],
                None => Seq::empty(),
            }) + (match s.content {
                Some(c) => seq![("content"@, c)],
                None => Seq::empty(),
            }) + seq![("type"@, JsonV::Text(s.def_type))],
        ),
        DefinitionV::Deinflection(d) => JsonV::Obj(
            seq![
                ("baseForm"@, JsonV::Text(d.base_form)),
                ("inflections"@, JsonV::Arr(texts_json(d.inflections))),
            ],
        ),
    }
}

pub open spec fn defs_json(ds: Seq<DefinitionV>) -> Seq<JsonV> {
    ds.map_values(|d: DefinitionV| def_json(d))
}

/// The JSON a term entry writes back as: the positional 8-tuple.
pub open spec fn term_entry_json(e: TermEntryV) -> JsonV {
    JsonV::Arr(
        seq![
            JsonV::Text(e.text),
            JsonV::Text(e.reading),
            tags_json(e.tags),
            JsonV::Text(e.rule_identifiers),
            jnum_json(e.score),
            JsonV::Arr(defs_json(e.definitions)),
            JsonV::Int(e.sequence_number),
            tags_json(e.term_tags),
        ],
    )
}

/// Facts about the structured-definition field names.
proof fn lemma_structured_ranks()
    ensures
        distinct_names(structured_names()),
        name_rank(structured_names(), "attributes"@) == 0,
        name_rank(structured_names(), "content"@) == 1,
        name_rank(structured_names(), "type"@) == 2,
        "attributes"@ != "content"@,
        "attributes"@ != "type"@,
        "content"@ != "type"@,
        "baseForm"@ != "inflections"@,
        "baseForm"@ != "type"@,
        "inflections"@ != "type"@,
        "baseForm"@ != "attributes"@,
        "inflections"@ != "attributes"@,
        "baseForm"@ != "content"@,
        "inflections"@ != "content"@,
{
    reveal_strlit("attributes");
    reveal_strlit("content");
    reveal_strlit("type");
    reveal_strlit("baseForm");
    reveal_strlit("inflections");
    let ns = structured_names();
    assert(ns[0] == "attributes"@ && ns[1] == "content"@ && ns[2] == "type"@);
    assert("attributes"@.len() == 10 && "content"@.len() == 7 && "type"@.len() == 4);
    assert("baseForm"@.len() == 8 && "inflections"@.len() == 11);
    assert(distinct_names(ns));
    assert(0 <= 0 < ns.len() && ns[0] == "attributes"@);
    assert(0 <= 1 < ns.len() && ns[1] == "content"@);
    assert(0 <= 2 < ns.len() && ns[2] == "type"@);
    let r0 = name_rank(ns, "attributes"@);
    assert(ns[r0] == "attributes"@);
    assert(r0 == 0);
    let r1 = name_rank(ns, "content"@);
    assert(ns[r1] == "content"@);
    assert(r1 == 1);
    let r2 = name_rank(ns, "type"@);
    assert(ns[r2] == "type"@);
    assert(r2 == 2);
}

/// A decoded definition writes back as the value it came from. For
/// structured content this rests on the fields standing in name order,
/// which `def_of` demands.
pub proof fn lemma_def_round_trip(v: JsonV)
    requires
        def_of(v) is Some,
    ensures
        def_json(def_of(v)->0) == v,
{
    lemma_structured_ranks();
    match v {
        JsonV::Text(_) => {},
        JsonV::Obj(fields) => {
            if obj_keys(fields) == seq!["baseForm"@, "inflections"@] {
                assert(obj_keys(fields).len() == fields.len());
                assert(obj_keys(fields) =~= seq!["baseForm"@, "inflections"@]);
                assert(fields.len() == 2);
                assert(obj_keys(fields)[0] == fields[0].0);
                assert(obj_keys(fields)[1] == fields[1].0);
                assert(fields[0].0 == "baseForm"@);
                assert(fields[1].0 == "inflections"@);
                assert(fields.drop_first()[0] == fields[1]);
                assert(fields.drop_first().len() == 1);
                assert(obj_get(fields, "baseForm"@) == Some(fields[0].1));
                assert(obj_get(fields.drop_first(), "inflections"@) == Some(fields[1].1));
                assert(obj_get(fields, "inflections"@) == Some(fields[1].1));
                lemma_texts_round_trip(obj_get(fields, "inflections"@)->0->Arr_0);
                assert(def_json(def_of(v)->0)->Obj_0 =~= fields);
            } else {
                let ns = structured_names();
                assert forall|j: int| 0 <= j < fields.len() implies 0 <= name_rank(
                    ns,
                    #[trigger] fields[j].0,
                ) by {
                    let r = choose|r: int| 0 <= r < ns.len() && ns[r] == fields[j].0;
                    assert(ns[r] == fields[j].0);
                }
                lemma_ranked_obj_is_present(fields, ns, 0);
                reveal_with_fuel(crate::schema::present_fields, 5);
                assert(present_fields(fields, ns, 3) =~= Seq::empty());
                assert(present_fields(fields, ns, 0) =~= (match obj_get(fields, "attributes"@) {
                    Some(av) => seq![("attributes"@, av)],
                    None => Seq::empty(),
                }) + (match obj_get(fields, "content"@) {
                    Some(cv) => seq![("content"@, cv)],
                    None => Seq::empty(),
                }) + (match obj_get(fields, "type"@) {
                    Some(tv) => seq![("type"@, tv)],
                    None => Seq::empty(),
                }));
                assert(def_json(def_of(v)->0)->Obj_0 =~= fields);
            }
        },
        _ => {},
    }
}

pub proof fn lemma_defs_round_trip(items: Seq<JsonV>)
    requires
        defs_of_list(items) is Some,
    ensures
        defs_json(defs_of_list(items)->0) =~= items,
    decreases items.len(),
{
    if items.len() > 0 {
        lemma_def_round_trip(items[0]);
        lemma_defs_round_trip(items.drop_first());
        let d0 = def_of(items[0])->0;
        let rest = defs_of_list(items.drop_first())->0;
        let ds = defs_of_list(items)->0;
        assert(ds == seq![d0] + rest);
        assert forall|i: int| 0 <= i < items.len() implies defs_json(ds)[i] == items[i] by {
            if i == 0 {
                assert(ds[0] == d0);
            } else {
                assert(ds[i] == rest[i - 1]);
                assert(defs_json(rest)[i - 1] == items.drop_first()[i - 1]);
            }
        }
    }
}

/// Whether every tag field of a raw term row is written canonically:
/// a string whose tokens, joined by single spaces, give it back.
pub open spec fn term_entry_canonical(v: JsonV) -> bool {
    v is Arr && v->Arr_0.len() == 8 && tags_canonical(v->Arr_0[2]) && tags_canonical(v->Arr_0[7])
}

/// Decoding a well-formed term row and writing it back restores the row.
/// Rows whose tag fields are `null` or carry irregular spacing fall outside
/// `term_entry_canonical` and are not claimed.
pub proof fn lemma_term_entry_round_trip(v: JsonV)
    requires
        term_entry_of(v) is Some,
        term_entry_canonical(v),
    ensures
        term_entry_json(term_entry_of(v)->0) == v,
{
    let items = v->Arr_0;
    lemma_tags_round_trip(items[2]);
    lemma_tags_round_trip(items[7]);
    lemma_defs_round_trip(items[5]->Arr_0);
    assert(term_entry_json(term_entry_of(v)->0)->Arr_0 =~= items);
}

/// A ranked object cannot have more fields than there are names.
proof fn lemma_rank_min(fields: Seq<(Seq<char>, JsonV)>, names: Seq<Seq<char>>, j: int)
    requires
        ranked_obj(fields, names),
        0 <= j < fields.len(),
    ensures
        j <= name_rank(names, fields[j].0) < names.len(),
    decreases j,
{
    let r = name_rank(names, fields[j].0);
    assert(exists|rr: int| 0 <= rr < names.len() && names[rr] == fields[j].0);
    assert(0 <= r < names.len() && names[r] == fields[j].0) by {
        let rr = choose|rr: int| 0 <= rr < names.len() && names[rr] == fields[j].0;
        assert(names[rr] == fields[j].0);
    }
    if j > 0 {
        lemma_rank_min(fields, names, j - 1);
        assert(name_rank(names, fields[j - 1].0) < name_rank(names, fields[(j - 1) + 1].0));
    }
}

proof fn lemma_ranked_len_bound(fields: Seq<(Seq<char>, JsonV)>, names: Seq<Seq<char>>)
    requires
        ranked_obj(fields, names),
    ensures
        fields.len() <= names.len(),
{
    if fields.len() > names.len() {
        lemma_rank_min(fields, names, names.len() as int);
    }
}

/// Decodes one definition value; returns the definition exactly when
/// `def_of` names one.
pub fn decode_definition(v: JsonValue) -> (r: Option<Definition>)
    ensures
        match r {
            Some(d) => def_of(v@) == Some(d@),
            None => def_of(v@) is None,
        },
{
    match v {
        JsonValue::Text(s) => Some(Definition::Simple(s)),
        JsonValue::Obj(fields) => decode_def_obj(fields),
        _ => None,
    }
}

fn decode_def_obj(fields: Vec<(String, JsonValue)>) -> (r: Option<Definition>)
    ensures
        match r {
            Some(d) => def_of(JsonV::Obj(json_view_fields(fields@))) == Some(d@),
            None => def_of(JsonV::Obj(json_view_fields(fields@))) is None,
        },
{
    let ghost fv = json_view_fields(fields@);
    proof {
        lemma_json_view_fields_index(fields@);
        lemma_structured_ranks();
        reveal_with_fuel(crate::json::obj_get, 5);
    }
    let n = fields.len();
    if n == 2 && str_eq(fields[0].0.as_str(), "baseForm") && str_eq(
        fields[1].0.as_str(),
        "inflections",
    ) {
        proof {
            assert(fv[0].0 == "baseForm"@ && fv[1].0 == "inflections"@);
            assert(obj_keys(fv) =~= seq!["baseForm"@, "inflections"@]);
            assert(fv.drop_first()[0] == fv[1]);
            assert(obj_get(fv, "baseForm"@) == Some(fv[0].1));
            assert(obj_get(fv, "inflections"@) == Some(fv[1].1));
        }
        let mut fields = fields;
        let f0 = fields.remove(0);
        let f1 = fields.remove(0);
        let base = match f0.1 {
            JsonValue::Text(b) => b,
            _ => {
                return None;
            },
        };
        let items = match f1.1 {
            JsonValue::Arr(items) => items,
            _ => {
                return None;
            },
        };
        proof {
            assert(fv[1].1 == JsonV::Arr(json_view_seq(items@)));
        }
        match crate::schema::decode_text_array_ref(&items) {
            Some(infl) => Some(Definition::Deinflection(DeinflectionDefinition {
                base_form: base,
                inflections: infl,
            })),
            None => None,
        }
    } else {
        proof {
            assert(obj_keys(fv).len() == fv.len());
            assert(obj_keys(fv) != seq!["baseForm"@, "inflections"@]) by {
                if obj_keys(fv) == seq!["baseForm"@, "inflections"@] {
                    assert(fv.len() == 2);
                    assert(obj_keys(fv)[0] == fv[0].0 && obj_keys(fv)[1] == fv[1].0);
                }
            }
        }
        decode_def_obj_structured(fields)
    }
}

/// The structured-definition arm: fields must stand in name order.
fn decode_def_obj_structured(fields: Vec<(String, JsonValue)>) -> (r: Option<Definition>)
    requires
        !(obj_keys(json_view_fields(fields@)) =~= seq!["baseForm"@, "inflections"@]),
    ensures
        match r {
            Some(d) => def_of(JsonV::Obj(json_view_fields(fields@))) == Some(d@),
            None => def_of(JsonV::Obj(json_view_fields(fields@))) is None,
        },
{
    let ghost fv = json_view_fields(fields@);
    let ghost ns = structured_names();
    proof {
        lemma_json_view_fields_index(fields@);
        lemma_structured_ranks();
        reveal_with_fuel(crate::json::obj_get, 5);
    }
    let n = fields.len();
    if n > 3 {
        proof {
            if ranked_obj(fv, ns) {
                lemma_ranked_len_bound(fv, ns);
            }
        }
        return None;
    }
    let has_a = n >= 1 && str_eq(fields[0].0.as_str(), "attributes");
    let p1: usize = if has_a { 1 } else { 0 };
    let has_c = p1 < n && str_eq(fields[p1].0.as_str(), "content");
    let p2: usize = if has_c { p1 + 1 } else { p1 };
    let has_t = p2 < n && str_eq(fields[p2].0.as_str(), "type");
    let p3: usize = if has_t { p2 + 1 } else { p2 };
    if !has_t || p3 != n {
        proof {
            assert(obj_keys(fv) != seq!["baseForm"@, "inflections"@]);
            lemma_def_obj_shape_refuted(fv, has_a, has_c, has_t);
        }
        return None;
    }
    proof {
        assert(ranked_obj(fv, ns)) by {
            assert forall|i: int| 0 <= i < fv.len() implies exists|rr: int|
                0 <= rr < ns.len() && ns[rr] == #[trigger] fv[i].0 by {
                if has_a && i == 0 {
                    assert(ns[0] == fv[i].0);
                } else if has_c && i == p1 as int {
                    assert(ns[1] == fv[i].0);
                } else {
                    assert(i == p2 as int);
                    assert(ns[2] == fv[i].0);
                }
            }
            assert forall|i: int| 0 <= i < fv.len() - 1 implies name_rank(ns, fv[i].0) < name_rank(
                ns,
                #[trigger] fv[i + 1].0,
            ) by {}
        }
        if has_a {
            assert(obj_get(fv, "attributes"@) == Some(fv[0].1));
        } else {
            assert(obj_get(fv, "attributes"@) is None);
        }
        if has_c {
            assert(obj_get(fv, "content"@) == Some(fv[p1 as int].1));
        } else {
            assert(obj_get(fv, "content"@) is None);
        }
        assert(obj_get(fv, "type"@) == Some(fv[p2 as int].1));
    }
    let mut fields = fields;
    let attributes: Option<Vec<(String, JsonValue)>> = if has_a {
        let fa = fields.remove(0);
        match fa.1 {
            JsonValue::Obj(af) => Some(af),
            _ => {
                return None;
            },
        }
    } else {
        None
    };
    let content: Option<JsonValue> = if has_c {
        let fc = fields.remove(0);
        Some(fc.1)
    } else {
        None
    };
    let ft = fields.remove(0);
    let def_type = match ft.1 {
        JsonValue::Text(t) => t,
        _ => {
            return None;
        },
    };
    Some(Definition::Structured(StructuredDefinition { def_type, content, attributes }))
}

/// When the greedy name match fails, the object is not in structured form.
proof fn lemma_def_obj_shape_refuted(fv: Seq<(Seq<char>, JsonV)>, has_a: bool, has_c: bool, has_t: bool)
    requires
        fv.len() <= 3,
        has_a == (fv.len() >= 1 && fv[0].0 == "attributes"@),
        has_c == ((if has_a { 1int } else { 0int }) < fv.len() && fv[if has_a { 1int } else { 0int }].0 == "content"@),
        has_t == ({
            let p2 = (if has_a { 1int } else { 0int }) + (if has_c { 1int } else { 0int });
            p2 < fv.len() && fv[p2].0 == "type"@
        }),
        !has_t || (if has_a { 1int } else { 0int }) + (if has_c { 1int } else { 0int }) + (if has_t { 1int } else { 0int }) != fv.len(),
        obj_keys(fv) != seq!["baseForm"@, "inflections"@],
    ensures
        def_of(JsonV::Obj(fv)) is None,
{
    lemma_structured_ranks();
    reveal_with_fuel(crate::json::obj_get, 5);
    let ns = structured_names();
    let p1: int = if has_a { 1 } else { 0 };
    let p2: int = p1 + if has_c { 1int } else { 0int };
    let p3: int = p2 + if has_t { 1int } else { 0int };
    if !ranked_obj(fv, ns) {
        return;
    }
    // under ranked order the greedy match must have succeeded
    if !has_t {
        if p2 == fv.len() {
            // no field is named "type"
            assert forall|m: int| 0 <= m < fv.len() implies (#[trigger] fv[m].0) != "type"@ by {
                if has_a && m == 0 {
                } else {
                    assert(has_c && m == p1);
                }
            }
            crate::schema::lemma_obj_get_absent(fv, "type"@);
            assert(obj_get(fv, "type"@) is None);
        } else {
            // an unmatched key stands at p2
            let k = fv[p2].0;
            assert(k != "type"@);
            lemma_rank_min(fv, ns, p2);
            let rk = name_rank(ns, k);
            assert(ns[rk] == k) by {
                let rr = choose|rr: int| 0 <= rr < ns.len() && ns[rr] == k;
                assert(ns[rr] == k);
            }
            assert(rk != 2);
            if rk == 0 {
                // "attributes" reappears after the front
                assert(p2 >= 1);
                if p2 == 1 {
                    if has_a {
                        assert(name_rank(ns, fv[0].0) == 0);
                        assert(name_rank(ns, fv[0].0) < name_rank(ns, fv[0int + 1].0));
                    } else {
                        assert(has_c && fv[0].0 == "content"@);
                        assert(name_rank(ns, fv[0].0) == 1);
                        assert(name_rank(ns, fv[0int + 1].0) == 0);
                        assert(name_rank(ns, fv[0].0) < name_rank(ns, fv[0int + 1].0));
                    }
                } else {
                    assert(p2 == 2 && has_a && has_c);
                    assert(fv[1].0 == "content"@);
                    assert(name_rank(ns, fv[1].0) == 1);
                    assert(name_rank(ns, fv[1].0) < name_rank(ns, fv[1int + 1].0));
                }
                assert(false);
            } else {
                assert(rk == 1 && k == "content"@);
                // "content" cannot stand at p2: the greedy match would have
                // taken it, so an earlier "content" already stands at p1
                assert(has_c && fv[p1].0 == "content"@);
                assert(p2 == p1 + 1);
                assert(name_rank(ns, fv[p1].0) == 1);
                assert(name_rank(ns, fv[p1].0) < name_rank(ns, fv[p1 + 1].0));
                assert(false);
            }
        }
    } else {
        // extra fields follow "type"
        assert(p3 < fv.len());
        assert(fv[p2].0 == "type"@);
        lemma_rank_min(fv, ns, p3);
        assert(name_rank(ns, fv[p2].0) == 2);
        assert(name_rank(ns, fv[p2].0) < name_rank(ns, fv[p2 + 1].0));
        let k = fv[p3].0;
        let rk = name_rank(ns, k);
        assert(ns[rk] == k) by {
            let rr = choose|rr: int| 0 <= rr < ns.len() && ns[rr] == k;
            assert(ns[rr] == k);
        }
        assert(rk <= 2);
        assert(false);
    }
}

proof fn lemma_defs_list_none(items: Seq<JsonV>, i: int)
    requires
        0 <= i < items.len(),
        def_of(items[i]) is None,
    ensures
        defs_of_list(items) is None,
    decreases items.len(),
{
    if i > 0 {
        lemma_defs_list_none(items.drop_first(), i - 1);
    }
}

proof fn lemma_defs_list_some(items: Seq<JsonV>)
    requires
        forall|i: int| 0 <= i < items.len() ==> def_of(#[trigger] items[i]) is Some,
    ensures
        defs_of_list(items) is Some,
        defs_of_list(items)->0.len() == items.len(),
        forall|i: int| 0 <= i < items.len() ==> defs_of_list(items)->0[i] == def_of(
            #[trigger] items[i],
        )->0,
    decreases items.len(),
{
    if items.len() > 0 {
        lemma_defs_list_some(items.drop_first());
        let ds = defs_of_list(items)->0;
        let rest = defs_of_list(items.drop_first())->0;
        assert(ds == seq![def_of(items[0])->0] + rest);
        assert forall|i: int| 0 <= i < items.len() implies ds[i] == def_of(
            #[trigger] items[i],
        )->0 by {
            if i > 0 {
                assert(ds[i] == rest[i - 1]);
                assert(items.drop_first()[i - 1] == items[i]);
            }
        }
    }
}

/// Decodes a definitions array element by element.
pub fn decode_definitions(items: &Vec<JsonValue>) -> (r: Option<Vec<Definition>>)
    ensures
        match r {
            Some(ds) => defs_of_list(json_view_seq(items@)) == Some(defs_view(ds@)),
            None => defs_of_list(json_view_seq(items@)) is None,
        },
{
    let ghost orig = json_view_seq(items@);
    proof {
        lemma_json_view_seq_index(items@);
    }
    let mut out: Vec<Definition> = Vec::new();
    let n = items.len();
    let mut i: usize = 0;
    while i < n
        invariant
            i <= n,
            n == items@.len(),
            orig == json_view_seq(items@),
            orig.len() == n,
            forall|j: int| 0 <= j < n ==> orig[j] == #[trigger] items@[j]@,
            out@.len() == i,
            forall|j: int| 0 <= j < i ==> #[trigger] def_of(orig[j]) is Some && def_of(orig[j])->0
                == out@[j]@,
        decreases n - i,
    {
        let x = crate::json::clone_json(&items[i]);
        proof {
            assert(x@ == orig[i as int]);
        }
        match decode_definition(x) {
            Some(d) => {
                proof {
                    assert(def_of(orig[i as int]) == Some(d@));
                }
                out.push(d);
                proof {
                    assert(out@[i as int] == d);
                }
            },
            None => {
                proof {
                    lemma_defs_list_none(orig, i as int);
                }
                return None;
            },
        }
        i = i + 1;
    }
    proof {
        lemma_defs_list_some(orig);
        assert(defs_view(out@).len() == defs_of_list(orig)->0.len());
        assert forall|j: int| 0 <= j < out@.len() implies defs_view(out@)[j] == defs_of_list(
            orig,
        )->0[j] by {
            assert(def_of(orig[j]) is Some);
            assert(defs_view(out@)[j] == out@[j]@);
            assert(defs_of_list(orig)->0[j] == def_of(orig[j])->0);
        }
        assert(defs_view(out@) =~= defs_of_list(orig)->0);
    }
    Some(out)
}

/// Decodes one term row; yields the entry exactly when `term_entry_of`
/// names one.
pub fn decode_term_entry(v: JsonValue) -> (r: Option<TermEntry>)
    ensures
        match r {
            Some(e) => term_entry_of(v@) == Some(e@),
            None => term_entry_of(v@) is None,
        },
{
    let items = match v {
        JsonValue::Arr(items) => items,
        _ => {
            return None;
        },
    };
    let ghost iv = json_view_seq(items@);
    proof {
        lemma_json_view_seq_index(items@);
    }
    if items.len() != 8 {
        return None;
    }
    let mut items = items;
    let x0 = items.remove(0);
    let x1 = items.remove(0);
    let x2 = items.remove(0);
    let x3 = items.remove(0);
    let x4 = items.remove(0);
    let x5 = items.remove(0);
    let x6 = items.remove(0);
    let x7 = items.remove(0);
    proof {
        assert(x0@ == iv[0] && x1@ == iv[1] && x2@ == iv[2] && x3@ == iv[3]);
        assert(x4@ == iv[4] && x5@ == iv[5] && x6@ == iv[6] && x7@ == iv[7]);
    }
    let text = match x0 {
        JsonValue::Text(s) => s,
        _ => {
            return None;
        },
    };
    let reading = match x1 {
        JsonValue::Text(s) => s,
        _ => {
            return None;
        },
    };
    let tags = match decode_tags(x2) {
        Some(t) => t,
        None => {
            return None;
        },
    };
    let rule_identifiers = match x3 {
        JsonValue::Text(s) => s,
        _ => {
            return None;
        },
    };
    let score = match decode_jnum(x4) {
        Some(n) => n,
        None => {
            return None;
        },
    };
    let def_items = match x5 {
        JsonValue::Arr(ds) => ds,
        _ => {
            return None;
        },
    };
    let definitions = match decode_definitions(&def_items) {
        Some(ds) => ds,
        None => {
            return None;
        },
    };
    let sequence_number = match x6 {
        JsonValue::Int(n) => n,
        _ => {
            return None;
        },
    };
    let term_tags = match decode_tags(x7) {
        Some(t) => t,
        None => {
            return None;
        },
    };
    Some(TermEntry {
        text,
        reading,
        tags,
        rule_identifiers,
        score,
        definitions,
        sequence_number,
        term_tags,
    })
}

/// Writes one definition back as JSON.
pub fn encode_definition(d: &Definition) -> (r: JsonValue)
    ensures
        r@ == def_json(d@),
{
    match d {
        Definition::Simple(s) => JsonValue::Text(s.clone()),
        Definition::Structured(sd) => {
            let mut fields: Vec<(String, JsonValue)> = Vec::new();
            match &sd.attributes {
                Some(af) => {
                    fields.push((String::from_str("attributes"), JsonValue::Obj(crate::json::clone_fields(af))));
                },
                None => {},
            }
            match &sd.content {
                Some(c) => {
                    fields.push((String::from_str("content"), crate::json::clone_json(c)));
                },
                None => {},
            }
            fields.push((String::from_str("type"), JsonValue::Text(sd.def_type.clone())));
            proof {
                lemma_json_view_fields_index(fields@);
                assert(json_view_fields(fields@) =~= def_json(d@)->Obj_0);
            }
            JsonValue::Obj(fields)
        },
        Definition::Deinflection(dd) => {
            let mut fields: Vec<(String, JsonValue)> = Vec::new();
            fields.push((String::from_str("baseForm"), JsonValue::Text(dd.base_form.clone())));
            fields.push((
                String::from_str("inflections"),
                JsonValue::Arr(crate::schema::encode_text_array(&dd.inflections)),
            ));
            proof {
                lemma_json_view_fields_index(fields@);
                assert(json_view_fields(fields@) =~= def_json(d@)->Obj_0);
            }
            JsonValue::Obj(fields)
        },
    }
}

/// Writes one term entry back as its positional 8-tuple.
pub fn encode_term_entry(e: &TermEntry) -> (r: JsonValue)
    ensures
        r@ == term_entry_json(e@),
{
    let mut items: Vec<JsonValue> = Vec::new();
    items.push(JsonValue::Text(e.text.clone()));
    items.push(JsonValue::Text(e.reading.clone()));
    items.push(encode_tags(&e.tags));
    items.push(JsonValue::Text(e.rule_identifiers.clone()));
    items.push(encode_jnum(&e.score));
    let mut defs: Vec<JsonValue> = Vec::new();
    let mut i: usize = 0;
    while i < e.definitions.len()
        invariant
            i <= e.definitions@.len(),
            defs@.len() == i,
            forall|j: int| 0 <= j < i ==> #[trigger] defs@[j]@ == def_json(e.definitions@[j]@),
        decreases e.definitions@.len() - i,
    {
        defs.push(encode_definition(&e.definitions[i]));
        i = i + 1;
    }
    proof {
        lemma_json_view_seq_index(defs@);
        assert(json_view_seq(defs@) =~= defs_json(defs_view(e.definitions@))) by {
            assert(forall|j: int| 0 <= j < e.definitions@.len() ==> defs_view(e.definitions@)[j]
                == #[trigger] e.definitions@[j]@);
        }
    }
    items.push(JsonValue::Arr(defs));
    items.push(JsonValue::Int(e.sequence_number));
    items.push(encode_tags(&e.term_tags));
    proof {
        lemma_json_view_seq_index(items@);
        assert(json_view_seq(items@) =~= term_entry_json(e@)->Arr_0);
    }
    JsonValue::Arr(items)
}

} // verus!
