//! The kanji-meta shard schema: an entry is a positional 3-tuple of
//! character, kind and a frequency payload.

use vstd::prelude::*;
use vstd::string::StringExecFns;

use crate::json::{
    json_view_fields, json_view_seq, lemma_json_view_fields_index, lemma_json_view_seq_index,
    obj_get, JsonV, JsonValue,
};
use crate::schema::{
    check_ranked, decode_jnum_ref, distinct_names, encode_jnum, get_field, jnum_json, jnum_of,
    lemma_ranked_obj_is_present, name_rank, present_fields, ranked_obj, JNum, JNumV,
};

verus! {

/// A bare frequency: a number or a string.
#[derive(Debug, PartialEq)]
pub enum SimpleFreq {
    Num(JNum),
    Str(String),
}

/// The detailed frequency form: a value with an optional display form.
#[derive(Debug, PartialEq)]
pub struct DetailedFreq {
    pub value: JNum,
    pub display_value: Option<String>,
}

#[derive(Debug, PartialEq)]
pub enum Frequency {
    Simple(SimpleFreq),
    Detailed(DetailedFreq),
}

/// One row of a kanji-meta shard.
#[derive(Debug, PartialEq)]
pub struct KanjiMetaEntry(pub String, pub String, pub Frequency);

pub enum SimpleFreqV {
    Num(JNumV),
    Str(Seq<char>),
}

pub struct DetailedFreqV {
    pub value: JNumV,
    pub display_value: Option<Seq<char>>,
}

pub enum FrequencyV {
    Simple(SimpleFreqV),
    Detailed(DetailedFreqV),
}

pub struct KanjiMetaEntryV {
    pub kanji: Seq<char>,
    pub kind: Seq<char>,
    pub frequency: FrequencyV,
}

impl View for SimpleFreq {
    type V = SimpleFreqV;

    open spec fn view(&self) -> SimpleFreqV {
        match self {
            SimpleFreq::Num(n) => SimpleFreqV::Num(n@),
            SimpleFreq::Str(s) => SimpleFreqV::Str(s@),
        }
    }
}

impl View for DetailedFreq {
    type V = DetailedFreqV;

    open spec fn view(&self) -> DetailedFreqV {
        DetailedFreqV { value: self.value@, display_value: self.display_value.deep_view() }
    }
}

impl View for Frequency {
    type V = FrequencyV;

    open spec fn view(&self) -> FrequencyV {
        match self {
            Frequency::Simple(s) => FrequencyV::Simple(s@),
            Frequency::Detailed(d) => FrequencyV::Detailed(d@),
        }
    }
}

impl View for KanjiMetaEntry {
    type V = KanjiMetaEntryV;

    open spec fn view(&self) -> KanjiMetaEntryV {
        KanjiMetaEntryV { kanji: self.0@, kind: self.1@, frequency: self.2@ }
    }
}

/// The field names of the detailed form, in parser order.
pub open spec fn detailed_freq_names() -> Seq<Seq<char>> {
    seq!["displayValue"@, "value"@]
}

/// What a kanji frequency payload decodes to: a bare number or string, or
/// a detailed object whose `value` is required.
pub open spec fn kanji_freq_of(v: JsonV) -> Option<FrequencyV> {
    match v {
        JsonV::Int(_) => Some(FrequencyV::Simple(SimpleFreqV::Num(jnum_of(v)->0))),
        JsonV::NumText(_) => Some(FrequencyV::Simple(SimpleFreqV::Num(jnum_of(v)->0))),
        JsonV::Text(s) => Some(FrequencyV::Simple(SimpleFreqV::Str(s))),
        JsonV::Obj(fields) => {
            if ranked_obj(fields, detailed_freq_names()) {
                let dv = obj_get(fields, "displayValue"@);
                let va = obj_get(fields, "value"@);
                if va is Some && jnum_of(va->0) is Some && (dv is None || dv->0 is Text) {
                    Some(FrequencyV::Detailed(DetailedFreqV {
                        value: jnum_of(va->0)->0,
                        display_value: match dv {
                            Some(t) => Some(t->Text_0),
                            None => None,
                        },
                    }))
                } else {
                    None
                }
            } else {
                None
            }
        },
        _ => None,
    }
}

/// The JSON a kanji frequency payload writes back as.
pub open spec fn kanji_freq_json(f: FrequencyV) -> JsonV {
    match f {
        FrequencyV::Simple(SimpleFreqV::Num(n)) => jnum_json(n),
        FrequencyV::Simple(SimpleFreqV::Str(s)) => JsonV::Text(s),
        FrequencyV::Detailed(d) => JsonV::Obj(
            (match d.display_value {
                Some(t) => seq![("displayValue"@, JsonV::Text(t))],
                None => Seq::empty(),
            }) + seq![("value"@, jnum_json(d.value))],
        ),
    }
}

/// What a kanji-meta row decodes to, if it has the 3-tuple shape.
pub open spec fn kanji_meta_of(v: JsonV) -> Option<KanjiMetaEntryV> {
    match v {
        JsonV::Arr(items) => {
            if items.len() == 3 && items[0] is Text && items[1] is Text && kanji_freq_of(items[2])
                is Some {
                Some(KanjiMetaEntryV {
                    kanji: items[0]->Text_0,
                    kind: items[1]->Text_0,
                    frequency: kanji_freq_of(items[2])->0,
                })
            } else {
                None
            }
        },
        _ => None,
    }
}

/// The JSON a kanji-meta row writes back as.
pub open spec fn kanji_meta_json(e: KanjiMetaEntryV) -> JsonV {
    JsonV::Arr(seq![JsonV::Text(e.kanji), JsonV::Text(e.kind), kanji_freq_json(e.frequency)])
}

proof fn lemma_detailed_freq_ranks()
    ensures
        distinct_names(detailed_freq_names()),
        detailed_freq_names().len() == 2,
{
    reveal_strlit("displayValue");
    reveal_strlit("value");
    assert("displayValue"@.len() == 12 && "value"@.len() == 5);
    assert(distinct_names(detailed_freq_names()));
}

/// Decoding a kanji-meta row and writing it back restores the row exactly.
pub proof fn lemma_kanji_meta_round_trip(v: JsonV)
    requires
        kanji_meta_of(v) is Some,
    ensures
        kanji_meta_json(kanji_meta_of(v)->0) == v,
{
    let items = v->Arr_0;
    let f = items[2];
    match f {
        JsonV::Obj(fields) => {
            lemma_detailed_freq_ranks();
            let ns = detailed_freq_names();
            assert forall|j: int| 0 <= j < fields.len() implies 0 <= name_rank(
                ns,
                #[trigger] fields[j].0,
            ) by {
                let r = choose|r: int| 0 <= r < ns.len() && ns[r] == fields[j].0;
                assert(ns[r] == fields[j].0);
            }
            lemma_ranked_obj_is_present(fields, ns, 0);
            reveal_with_fuel(crate::schema::present_fields, 4);
            assert(present_fields(fields, ns, 2) =~= Seq::empty());
            assert(kanji_freq_json(kanji_freq_of(f)->0)->Obj_0 =~= fields);
        },
        _ => {},
    }
    assert(kanji_meta_json(kanji_meta_of(v)->0)->Arr_0 =~= items);
}

fn detailed_freq_names_vec() -> (r: Vec<String>)
    ensures
        r.deep_view() =~= detailed_freq_names(),
{
    let mut v: Vec<String> = Vec::new();
    v.push(String::from_str("displayValue"));
    v.push(String::from_str("value"));
    proof {
        assert(v.deep_view() =~= detailed_freq_names());
    }
    v
}

/// Decodes a kanji frequency payload.
pub fn decode_kanji_freq(v: &JsonValue) -> (r: Option<Frequency>)
    ensures
        match r {
            Some(f) => kanji_freq_of(v@) == Some(f@),
            None => kanji_freq_of(v@) is None,
        },
{
    match v {
        JsonValue::Int(i) => Some(Frequency::Simple(SimpleFreq::Num(JNum::Int(*i)))),
        JsonValue::NumText(s) => Some(Frequency::Simple(SimpleFreq::Num(JNum::Text(s.clone())))),
        JsonValue::Text(s) => Some(Frequency::Simple(SimpleFreq::Str(s.clone()))),
        JsonValue::Obj(fields) => {
            proof {
                lemma_detailed_freq_ranks();
            }
            let names = detailed_freq_names_vec();
            if !check_ranked(fields, &names) {
                return None;
            }
            let value: JNum = match get_field(fields, "value") {
                Some(n) => match decode_jnum_ref(n) {
                    Some(num) => num,
                    None => {
                        return None;
                    },
                },
                None => {
                    return None;
                },
            };
            let display_value: Option<String> = match get_field(fields, "displayValue") {
                Some(JsonValue::Text(t)) => Some(t.clone()),
                Some(_) => {
                    return None;
                },
                None => None,
            };
            Some(Frequency::Detailed(DetailedFreq { value, display_value }))
        },
        _ => None,
    }
}

/// Decodes one kanji-meta row.
pub fn decode_kanji_meta_entry(v: &JsonValue) -> (r: Option<KanjiMetaEntry>)
    ensures
        match r {
            Some(e) => kanji_meta_of(v@) == Some(e@),
            None => kanji_meta_of(v@) is None,
        },
{
    let items = match v {
        JsonValue::Arr(items) => items,
        _ => {
            return None;
        },
    };
    proof {
        lemma_json_view_seq_index(items@);
    }
    if items.len() != 3 {
        return None;
    }
    let kanji = match &items[0] {
        JsonValue::Text(t) => t.clone(),
        _ => {
            return None;
        },
    };
    let kind = match &items[1] {
        JsonValue::Text(t) => t.clone(),
        _ => {
            return None;
        },
    };
    match decode_kanji_freq(&items[2]) {
        Some(f) => Some(KanjiMetaEntry(kanji, kind, f)),
        None => None,
    }
}

/// Writes one kanji-meta row back as its positional 3-tuple.
pub fn encode_kanji_meta_entry(e: &KanjiMetaEntry) -> (r: JsonValue)
    ensures
        r@ == kanji_meta_json(e@),
{
    let freq: JsonValue = match &e.2 {
        Frequency::Simple(SimpleFreq::Num(n)) => encode_jnum(n),
        Frequency::Simple(SimpleFreq::Str(s)) => JsonValue::Text(s.clone()),
        Frequency::Detailed(d) => {
            let mut fields: Vec<(String, JsonValue)> = Vec::new();
            match &d.display_value {
                Some(t) => {
                    fields.push((String::from_str("displayValue"), JsonValue::Text(t.clone())));
                },
                None => {},
            }
            fields.push((String::from_str("value"), encode_jnum(&d.value)));
            proof {
                lemma_json_view_fields_index(fields@);
                assert(json_view_fields(fields@) =~= kanji_freq_json(e.2@)->Obj_0);
            }
            JsonValue::Obj(fields)
        },
    };
    let mut items: Vec<JsonValue> = Vec::new();
    items.push(JsonValue::Text(e.0.clone()));
    items.push(JsonValue::Text(e.1.clone()));
    items.push(freq);
    proof {
        lemma_json_view_seq_index(items@);
        assert(json_view_seq(items@) =~= kanji_meta_json(e@)->Arr_0);
    }
    JsonValue::Arr(items)
}

} // verus!
