//! The term-meta shard schema: an entry is a positional 3-tuple of term,
//! kind and payload, where the payload's shape depends on the kind
//! (`freq`, `pitch` or `ipa`).

use vstd::prelude::*;
use vstd::string::StringExecFns;

use crate::json::{
    json_view_fields, json_view_seq, lemma_json_view_fields_index, lemma_json_view_seq_index,
    obj_get, JsonV, JsonValue,
};
use crate::schema::{
    check_ranked, distinct_names, encode_jnum, get_field, jnum_json, jnum_of,
    lemma_ranked_obj_is_present, lemma_texts_round_trip, name_rank, obj_keys, present_fields,
    ranked_obj, texts_json, texts_of, JNum, JNumV,
};
use crate::text::str_eq;

verus! {

/// The detailed frequency payload; all fields are optional, `frequency`
/// itself stays an opaque JSON value.
#[derive(Debug, PartialEq)]
pub struct FrequencyDetails {
    pub value: Option<JNum>,
    pub display_value: Option<String>,
    pub reading: Option<String>,
    pub frequency: Option<JsonValue>,
}

/// A frequency payload: a bare number, a bare string, or the detailed form.
#[derive(Debug, PartialEq)]
pub enum FrequencyData {
    SimpleNumber(i32),
    SimpleString(String),
    Detailed(FrequencyDetails),
}

#[derive(Debug, PartialEq)]
pub struct PitchInfo {
    pub position: i32,
    pub nasal: Option<JsonValue>,
    pub devoice: Option<JsonValue>,
    pub tags: Option<Vec<String>>,
}

#[derive(Debug, PartialEq)]
pub struct PitchData {
    pub reading: String,
    pub pitches: Vec<PitchInfo>,
}

#[derive(Debug, PartialEq)]
pub struct IPATranscription {
    pub ipa: String,
    pub tags: Vec<String>,
}

#[derive(Debug, PartialEq)]
pub struct IPAData {
    pub reading: String,
    pub transcriptions: Vec<IPATranscription>,
}

#[derive(Debug, PartialEq)]
pub enum TermMetaData {
    Frequency(FrequencyData),
    Pitch(PitchData),
    Ipa(IPAData),
}

/// One row of a term-meta shard.
#[derive(Debug, PartialEq)]
pub struct TermMetaEntry {
    pub term: String,
    pub entry_type: String,
    pub data: TermMetaData,
}

/// The fields a frequency payload contributes to a lookup result.
#[derive(Debug, PartialEq)]
pub struct FrequencyUnion {
    pub value: Option<i32>,
    pub display_value: Option<String>,
    pub reading: Option<String>,
}

pub struct FrequencyDetailsV {
    pub value: Option<JNumV>,
    pub display_value: Option<Seq<char>>,
    pub reading: Option<Seq<char>>,
    pub frequency: Option<JsonV>,
}

pub enum FrequencyDataV {
    SimpleNumber(int),
    SimpleString(Seq<char>),
    Detailed(FrequencyDetailsV),
}

pub struct PitchInfoV {
    pub position: int,
    pub nasal: Option<JsonV>,
    pub devoice: Option<JsonV>,
    pub tags: Option<Seq<Seq<char>>>,
}

pub struct PitchDataV {
    pub reading: Seq<char>,
    pub pitches: Seq<PitchInfoV>,
}

pub struct IPATranscriptionV {
    pub ipa: Seq<char>,
    pub tags: Seq<Seq<char>>,
}

pub struct IPADataV {
    pub reading: Seq<char>,
    pub transcriptions: Seq<IPATranscriptionV>,
}

pub enum TermMetaDataV {
    Frequency(FrequencyDataV),
    Pitch(PitchDataV),
    Ipa(IPADataV),
}

pub struct TermMetaEntryV {
    pub term: Seq<char>,
    pub entry_type: Seq<char>,
    pub data: TermMetaDataV,
}

pub struct FrequencyUnionV {
    pub value: Option<int>,
    pub display_value: Option<Seq<char>>,
    pub reading: Option<Seq<char>>,
}

impl View for FrequencyDetails {
    type V = FrequencyDetailsV;

    open spec fn view(&self) -> FrequencyDetailsV {
        FrequencyDetailsV {
            value: match self.value {
                Some(n) => Some(n@),
                None => None,
            },
            display_value: self.display_value.deep_view(),
            reading: self.reading.deep_view(),
            frequency: match self.frequency {
                Some(f) => Some(f@),
                None => None,
            },
        }
    }
}

impl View for FrequencyData {
    type V = FrequencyDataV;

    open spec fn view(&self) -> FrequencyDataV {
        match self {
            FrequencyData::SimpleNumber(n) => FrequencyDataV::SimpleNumber(*n as int),
            FrequencyData::SimpleString(s) => FrequencyDataV::SimpleString(s@),
            FrequencyData::Detailed(d) => FrequencyDataV::Detailed(d@),
        }
    }
}

impl View for PitchInfo {
    type V = PitchInfoV;

    open spec fn view(&self) -> PitchInfoV {
        PitchInfoV {
            position: self.position as int,
            nasal: match self.nasal {
                Some(v) => Some(v@),
                None => None,
            },
            devoice: match self.devoice {
                Some(v) => Some(v@),
                None => None,
            },
            tags: self.tags.deep_view(),
        }
    }
}

pub open spec fn pitches_view(ps: Seq<PitchInfo>) -> Seq<PitchInfoV> {
    ps.map_values(|p: PitchInfo| p@)
}

impl View for PitchData {
    type V = PitchDataV;

    open spec fn view(&self) -> PitchDataV {
        PitchDataV { reading: self.reading@, pitches: pitches_view(self.pitches@) }
    }
}

impl View for IPATranscription {
    type V = IPATranscriptionV;

    open spec fn view(&self) -> IPATranscriptionV {
        IPATranscriptionV { ipa: self.ipa@, tags: self.tags.deep_view() }
    }
}

pub open spec fn transcriptions_view(ts: Seq<IPATranscription>) -> Seq<IPATranscriptionV> {
    ts.map_values(|t: IPATranscription| t@)
}

impl View for IPAData {
    type V = IPADataV;

    open spec fn view(&self) -> IPADataV {
        IPADataV {
            reading: self.reading@,
            transcriptions: transcriptions_view(self.transcriptions@),
        }
    }
}

impl View for TermMetaData {
    type V = TermMetaDataV;

    open spec fn view(&self) -> TermMetaDataV {
        match self {
            TermMetaData::Frequency(f) => TermMetaDataV::Frequency(f@),
            TermMetaData::Pitch(p) => TermMetaDataV::Pitch(p@),
            TermMetaData::Ipa(i) => TermMetaDataV::Ipa(i@),
        }
    }
}

impl View for TermMetaEntry {
    type V = TermMetaEntryV;

    open spec fn view(&self) -> TermMetaEntryV {
        TermMetaEntryV { term: self.term@, entry_type: self.entry_type@, data: self.data@ }
    }
}

impl View for FrequencyUnion {
    type V = FrequencyUnionV;

    open spec fn view(&self) -> FrequencyUnionV {
        FrequencyUnionV {
            value: match self.value {
                Some(n) => Some(n as int),
                None => None,
            },
            display_value: self.display_value.deep_view(),
            reading: self.reading.deep_view(),
        }
    }
}

/// The field names of the detailed frequency form, in parser order.
pub open spec fn detailed_names() -> Seq<Seq<char>> {
    seq!["displayValue"@, "frequency"@, "reading"@, "value"@]
}

/// What a frequency payload decodes to: a 32-bit number, a string, or a
/// detailed object whose fields stand in name order.
pub open spec fn freq_of(v: JsonV) -> Option<FrequencyDataV> {
    match v {
        JsonV::Int(i) => if i32::MIN <= i <= i32::MAX {
            Some(FrequencyDataV::SimpleNumber(i))
        } else {
            None
        },
        JsonV::Text(s) => Some(FrequencyDataV::SimpleString(s)),
        JsonV::Obj(fields) => {
            if ranked_obj(fields, detailed_names()) {
                let dv = obj_get(fields, "displayValue"@);
                let fr = obj_get(fields, "frequency"@);
                let rd = obj_get(fields, "reading"@);
                let va = obj_get(fields, "value"@);
                if (dv is None || dv->0 is Text) && (rd is None || rd->0 is Text) && (va is None
                    || jnum_of(va->0) is Some) {
                    Some(FrequencyDataV::Detailed(FrequencyDetailsV {
                        value: match va {
                            Some(n) => Some(jnum_of(n)->0),
                            None => None,
                        },
                        display_value: match dv {
                            Some(t) => Some(t->Text_0),
                            None => None,
                        },
                        reading: match rd {
                            Some(t) => Some(t->Text_0),
                            None => None,
                        },
                        frequency: fr,
                    }))
                } else {
                    None
                }
            } else {
                None
            }
        },
        _ => None,
    }
}

/// The JSON a frequency payload writes back as.
pub open spec fn freq_json(f: FrequencyDataV) -> JsonV {
    match f {
        FrequencyDataV::SimpleNumber(n) => JsonV::Int(n),
        FrequencyDataV::SimpleString(s) => JsonV::Text(s),
        FrequencyDataV::Detailed(d) => JsonV::Obj(
            (match d.display_value {
                Some(t) => seq![("displayValue"@, JsonV::Text(t))],
                None => Seq::empty(),
            }) + (match d.frequency {
                Some(f) => seq![("frequency"@, f)],
                None => Seq::empty(),
            }) + (match d.reading {
                Some(t) => seq![("reading"@, JsonV::Text(t))],
                None => Seq::empty(),
            }) + (match d.value {
                Some(n) => seq![("value"@, jnum_json(n))],
                None => Seq::empty(),
            }),
        ),
    }
}

proof fn lemma_detailed_ranks()
    ensures
        distinct_names(detailed_names()),
        detailed_names().len() == 4,
        detailed_names()[0] == "displayValue"@,
        detailed_names()[1] == "frequency"@,
        detailed_names()[2] == "reading"@,
        detailed_names()[3] == "value"@,
{
    reveal_strlit("displayValue");
    reveal_strlit("frequency");
    reveal_strlit("reading");
    reveal_strlit("value");
    assert("displayValue"@.len() == 12 && "frequency"@.len() == 9 && "reading"@.len() == 7
        && "value"@.len() == 5);
    assert(distinct_names(detailed_names()));
}

/// A decoded frequency payload writes back as the value it came from.
pub proof fn lemma_freq_round_trip(v: JsonV)
    requires
        freq_of(v) is Some,
    ensures
        freq_json(freq_of(v)->0) == v,
{
    lemma_detailed_ranks();
    match v {
        JsonV::Obj(fields) => {
            let ns = detailed_names();
            assert forall|j: int| 0 <= j < fields.len() implies 0 <= name_rank(
                ns,
                #[trigger] fields[j].0,
            ) by {
                let r = choose|r: int| 0 <= r < ns.len() && ns[r] == fields[j].0;
                assert(ns[r] == fields[j].0);
            }
            lemma_ranked_obj_is_present(fields, ns, 0);
            reveal_with_fuel(crate::schema::present_fields, 6);
            assert(present_fields(fields, ns, 4) =~= Seq::empty());
            assert(freq_json(freq_of(v)->0)->Obj_0 =~= fields);
        },
        _ => {},
    }
}

/// The field names a pitch record may carry, in parser order.
pub open spec fn pitch_info_names() -> Seq<Seq<char>> {
    seq!["devoice"@, "nasal"@, "position"@, "tags"@]
}

/// What one pitch record decodes to: `position` is required, `nasal` and
/// `devoice` stay opaque, `tags` is an optional string array.
pub open spec fn pitch_info_of(v: JsonV) -> Option<PitchInfoV> {
    match v {
        JsonV::Obj(fields) => {
            if ranked_obj(fields, pitch_info_names()) {
                let po = obj_get(fields, "position"@);
                let tg = obj_get(fields, "tags"@);
                if po is Some && po->0 is Int && i32::MIN <= po->0->Int_0 <= i32::MAX && (tg
                    is None || (tg->0 is Arr && texts_of(tg->0->Arr_0) is Some)) {
                    Some(PitchInfoV {
                        position: po->0->Int_0,
                        nasal: obj_get(fields, "nasal"@),
                        devoice: obj_get(fields, "devoice"@),
                        tags: match tg {
                            Some(t) => Some(texts_of(t->Arr_0)->0),
                            None => None,
                        },
                    })
                } else {
                    None
                }
            } else {
                None
            }
        },
        _ => None,
    }
}

pub open spec fn pitch_list_of(items: Seq<JsonV>) -> Option<Seq<PitchInfoV>>
    decreases items.len(),
{
    if items.len() == 0 {
        Some(Seq::empty())
    } else {
        match pitch_info_of(items[0]) {
            Some(p) => match pitch_list_of(items.drop_first()) {
                Some(rest) => Some(seq![p] + rest),
                None => None,
            },
            None => None,
        }
    }
}

/// What a pitch payload decodes to: exactly a reading and a record list.
pub open spec fn pitch_of(v: JsonV) -> Option<PitchDataV> {
    match v {
        JsonV::Obj(fields) => {
            if obj_keys(fields) == seq!["pitches"@, "reading"@] {
                let ps = obj_get(fields, "pitches"@);
                let rd = obj_get(fields, "reading"@);
                if rd->0 is Text && ps->0 is Arr && pitch_list_of(ps->0->Arr_0) is Some {
                    Some(PitchDataV {
                        reading: rd->0->Text_0,
                        pitches: pitch_list_of(ps->0->Arr_0)->0,
                    })
                } else {
                    None
                }
            } else {
                None
            }
        },
        _ => None,
    }
}

/// What one transcription decodes to: exactly an `ipa` string and a tag
/// array.
pub open spec fn ipa_tr_of(v: JsonV) -> Option<IPATranscriptionV> {
    match v {
        JsonV::Obj(fields) => {
            if obj_keys(fields) == seq!["ipa"@, "tags"@] {
                let ip = obj_get(fields, "ipa"@);
                let tg = obj_get(fields, "tags"@);
                if ip->0 is Text && tg->0 is Arr && texts_of(tg->0->Arr_0) is Some {
                    Some(IPATranscriptionV {
                        ipa: ip->0->Text_0,
                        tags: texts_of(tg->0->Arr_0)->0,
                    })
                } else {
                    None
                }
            } else {
                None
            }
        },
        _ => None,
    }
}

pub open spec fn ipa_list_of(items: Seq<JsonV>) -> Option<Seq<IPATranscriptionV>>
    decreases items.len(),
{
    if items.len() == 0 {
        Some(Seq::empty())
    } else {
        match ipa_tr_of(items[0]) {
            Some(t) => match ipa_list_of(items.drop_first()) {
                Some(rest) => Some(seq![t] + rest),
                None => None,
            },
            None => None,
        }
    }
}

/// What an IPA payload decodes to: exactly a reading and transcriptions.
pub open spec fn ipa_of(v: JsonV) -> Option<IPADataV> {
    match v {
        JsonV::Obj(fields) => {
            if obj_keys(fields) == seq!["reading"@, "transcriptions"@] {
                let rd = obj_get(fields, "reading"@);
                let ts = obj_get(fields, "transcriptions"@);
                if rd->0 is Text && ts->0 is Arr && ipa_list_of(ts->0->Arr_0) is Some {
                    Some(IPADataV {
                        reading: rd->0->Text_0,
                        transcriptions: ipa_list_of(ts->0->Arr_0)->0,
                    })
                } else {
                    None
                }
            } else {
                None
            }
        },
        _ => None,
    }
}

/// What a term-meta row decodes to: term, kind, and the payload the kind
/// demands.
pub open spec fn term_meta_of(v: JsonV) -> Option<TermMetaEntryV> {
    match v {
        JsonV::Arr(items) => {
            if items.len() == 3 && items[0] is Text && items[1] is Text {
                let kind = items[1]->Text_0;
                if kind == "freq"@ && freq_of(items[2]) is Some {
                    Some(TermMetaEntryV {
                        term: items[0]->Text_0,
                        entry_type: kind,
                        data: TermMetaDataV::Frequency(freq_of(items[2])->0),
                    })
                } else if kind == "pitch"@ && pitch_of(items[2]) is Some {
                    Some(TermMetaEntryV {
                        term: items[0]->Text_0,
                        entry_type: kind,
                        data: TermMetaDataV::Pitch(pitch_of(items[2])->0),
                    })
                } else if kind == "ipa"@ && ipa_of(items[2]) is Some {
                    Some(TermMetaEntryV {
                        term: items[0]->Text_0,
                        entry_type: kind,
                        data: TermMetaDataV::Ipa(ipa_of(items[2])->0),
                    })
                } else {
                    None
                }
            } else {
                None
            }
        },
        _ => None,
    }
}

pub open spec fn pitch_info_json(p: PitchInfoV) -> JsonV {
    JsonV::Obj(
        (match p.devoice {
            Some(d) => seq![("devoice"@, d)],
            None => Seq::empty(),
        }) + (match p.nasal {
            Some(n) => seq![("nasal"@, n)],
            None => Seq::empty(),
        }) + seq![("position"@, JsonV::Int(p.position))] + (match p.tags {
            Some(ts) => seq![("tags"@, JsonV::Arr(texts_json(ts)))],
            None => Seq::empty(),
        }),
    )
}

pub open spec fn pitch_list_json(ps: Seq<PitchInfoV>) -> Seq<JsonV> {
    ps.map_values(|p: PitchInfoV| pitch_info_json(p))
}

pub open spec fn pitch_json(p: PitchDataV) -> JsonV {
    JsonV::Obj(
        seq![
            ("pitches"@, JsonV::Arr(pitch_list_json(p.pitches))),
            ("reading"@, JsonV::Text(p.reading)),
        ],
    )
}

pub open spec fn ipa_tr_json(t: IPATranscriptionV) -> JsonV {
    JsonV::Obj(seq![("ipa"@, JsonV::Text(t.ipa)), ("tags"@, JsonV::Arr(texts_json(t.tags)))])
}

pub open spec fn ipa_list_json(ts: Seq<IPATranscriptionV>) -> Seq<JsonV> {
    ts.map_values(|t: IPATranscriptionV| ipa_tr_json(t))
}

pub open spec fn ipa_json(d: IPADataV) -> JsonV {
    JsonV::Obj(
        seq![
            ("reading"@, JsonV::Text(d.reading)),
            ("transcriptions"@, JsonV::Arr(ipa_list_json(d.transcriptions))),
        ],
    )
}

pub open spec fn term_meta_json(e: TermMetaEntryV) -> JsonV {
    JsonV::Arr(
        seq![
            JsonV::Text(e.term),
            JsonV::Text(e.entry_type),
            match e.data {
                TermMetaDataV::Frequency(f) => freq_json(f),
                TermMetaDataV::Pitch(p) => pitch_json(p),
                TermMetaDataV::Ipa(i) => ipa_json(i),
            },
        ],
    )
}

proof fn lemma_pitch_info_ranks()
    ensures
        distinct_names(pitch_info_names()),
        pitch_info_names().len() == 4,
        "pitches"@ != "reading"@,
        "ipa"@ != "tags"@,
        "reading"@ != "transcriptions"@,
        "freq"@ != "pitch"@,
        "freq"@ != "ipa"@,
        "pitch"@ != "ipa"@,
{
    reveal_strlit("devoice");
    reveal_strlit("nasal");
    reveal_strlit("position");
    reveal_strlit("tags");
    reveal_strlit("pitches");
    reveal_strlit("reading");
    reveal_strlit("ipa");
    reveal_strlit("transcriptions");
    reveal_strlit("freq");
    reveal_strlit("pitch");
    assert("devoice"@.len() == 7 && "nasal"@.len() == 5 && "position"@.len() == 8
        && "tags"@.len() == 4);
    assert("pitches"@.len() == 7 && "reading"@.len() == 7 && "ipa"@.len() == 3
        && "transcriptions"@.len() == 14);
    assert("freq"@.len() == 4 && "pitch"@.len() == 5);
    assert("pitches"@[0] == 'p' && "reading"@[0] == 'r');
    assert("freq"@[0] == 'f' && "ipa"@[0] == 'i' && "pitch"@[0] == 'p');
    assert(distinct_names(pitch_info_names()));
}

pub proof fn lemma_pitch_info_round_trip(v: JsonV)
    requires
        pitch_info_of(v) is Some,
    ensures
        pitch_info_json(pitch_info_of(v)->0) == v,
{
    lemma_pitch_info_ranks();
    match v {
        JsonV::Obj(fields) => {
            let ns = pitch_info_names();
            assert forall|j: int| 0 <= j < fields.len() implies 0 <= name_rank(
                ns,
                #[trigger] fields[j].0,
            ) by {
                let r = choose|r: int| 0 <= r < ns.len() && ns[r] == fields[j].0;
                assert(ns[r] == fields[j].0);
            }
            lemma_ranked_obj_is_present(fields, ns, 0);
            reveal_with_fuel(crate::schema::present_fields, 6);
            assert(present_fields(fields, ns, 4) =~= Seq::empty());
            match pitch_info_of(v)->0.tags {
                Some(_) => {
                    lemma_texts_round_trip(obj_get(fields, "tags"@)->0->Arr_0);
                },
                None => {},
            }
            assert(pitch_info_json(pitch_info_of(v)->0)->Obj_0 =~= fields);
        },
        _ => {},
    }
}

pub proof fn lemma_pitch_list_round_trip(items: Seq<JsonV>)
    requires
        pitch_list_of(items) is Some,
    ensures
        pitch_list_json(pitch_list_of(items)->0) =~= items,
    decreases items.len(),
{
    if items.len() > 0 {
        lemma_pitch_info_round_trip(items[0]);
        lemma_pitch_list_round_trip(items.drop_first());
        let p0 = pitch_info_of(items[0])->0;
        let rest = pitch_list_of(items.drop_first())->0;
        let ps = pitch_list_of(items)->0;
        assert(ps == seq![p0] + rest);
        assert forall|i: int| 0 <= i < items.len() implies pitch_list_json(ps)[i] == items[i] by {
            if i > 0 {
                assert(ps[i] == rest[i - 1]);
                assert(pitch_list_json(rest)[i - 1] == items.drop_first()[i - 1]);
            }
        }
    }
}

pub proof fn lemma_pitch_round_trip(v: JsonV)
    requires
        pitch_of(v) is Some,
    ensures
        pitch_json(pitch_of(v)->0) == v,
{
    lemma_pitch_info_ranks();
    let fields = v->Obj_0;
    assert(obj_keys(fields).len() == fields.len());
    assert(obj_keys(fields) =~= seq!["pitches"@, "reading"@]);
    assert(fields.len() == 2);
    assert(obj_keys(fields)[0] == fields[0].0 && obj_keys(fields)[1] == fields[1].0);
    assert(fields.drop_first()[0] == fields[1]);
    assert(obj_get(fields, "pitches"@) == Some(fields[0].1));
    assert(obj_get(fields.drop_first(), "reading"@) == Some(fields[1].1));
    assert(obj_get(fields, "reading"@) == Some(fields[1].1));
    lemma_pitch_list_round_trip(obj_get(fields, "pitches"@)->0->Arr_0);
    assert(pitch_json(pitch_of(v)->0)->Obj_0 =~= fields);
}

pub proof fn lemma_ipa_tr_round_trip(v: JsonV)
    requires
        ipa_tr_of(v) is Some,
    ensures
        ipa_tr_json(ipa_tr_of(v)->0) == v,
{
    lemma_pitch_info_ranks();
    let fields = v->Obj_0;
    assert(obj_keys(fields).len() == fields.len());
    assert(obj_keys(fields) =~= seq!["ipa"@, "tags"@]);
    assert(fields.len() == 2);
    assert(obj_keys(fields)[0] == fields[0].0 && obj_keys(fields)[1] == fields[1].0);
    assert(fields.drop_first()[0] == fields[1]);
    assert(obj_get(fields, "ipa"@) == Some(fields[0].1));
    assert(obj_get(fields.drop_first(), "tags"@) == Some(fields[1].1));
    assert(obj_get(fields, "tags"@) == Some(fields[1].1));
    lemma_texts_round_trip(obj_get(fields, "tags"@)->0->Arr_0);
    assert(ipa_tr_json(ipa_tr_of(v)->0)->Obj_0 =~= fields);
}

pub proof fn lemma_ipa_list_round_trip(items: Seq<JsonV>)
    requires
        ipa_list_of(items) is Some,
    ensures
        ipa_list_json(ipa_list_of(items)->0) =~= items,
    decreases items.len(),
{
    if items.len() > 0 {
        lemma_ipa_tr_round_trip(items[0]);
        lemma_ipa_list_round_trip(items.drop_first());
        let t0 = ipa_tr_of(items[0])->0;
        let rest = ipa_list_of(items.drop_first())->0;
        let ts = ipa_list_of(items)->0;
        assert(ts == seq![t0] + rest);
        assert forall|i: int| 0 <= i < items.len() implies ipa_list_json(ts)[i] == items[i] by {
            if i > 0 {
                assert(ts[i] == rest[i - 1]);
                assert(ipa_list_json(rest)[i - 1] == items.drop_first()[i - 1]);
            }
        }
    }
}

pub proof fn lemma_ipa_round_trip(v: JsonV)
    requires
        ipa_of(v) is Some,
    ensures
        ipa_json(ipa_of(v)->0) == v,
{
    lemma_pitch_info_ranks();
    let fields = v->Obj_0;
    assert(obj_keys(fields).len() == fields.len());
    assert(obj_keys(fields) =~= seq!["reading"@, "transcriptions"@]);
    assert(fields.len() == 2);
    assert(obj_keys(fields)[0] == fields[0].0 && obj_keys(fields)[1] == fields[1].0);
    assert(fields.drop_first()[0] == fields[1]);
    assert(obj_get(fields, "reading"@) == Some(fields[0].1));
    assert(obj_get(fields.drop_first(), "transcriptions"@) == Some(fields[1].1));
    assert(obj_get(fields, "transcriptions"@) == Some(fields[1].1));
    lemma_ipa_list_round_trip(obj_get(fields, "transcriptions"@)->0->Arr_0);
    assert(ipa_json(ipa_of(v)->0)->Obj_0 =~= fields);
}

/// Decoding a term-meta row and writing it back restores the row exactly.
pub proof fn lemma_term_meta_round_trip(v: JsonV)
    requires
        term_meta_of(v) is Some,
    ensures
        term_meta_json(term_meta_of(v)->0) == v,
{
    let items = v->Arr_0;
    let kind = items[1]->Text_0;
    if kind == "freq"@ && freq_of(items[2]) is Some {
        lemma_freq_round_trip(items[2]);
    } else if kind == "pitch"@ && pitch_of(items[2]) is Some {
        lemma_pitch_round_trip(items[2]);
    } else {
        lemma_ipa_round_trip(items[2]);
    }
    assert(term_meta_json(term_meta_of(v)->0)->Arr_0 =~= items);
}

fn detailed_names_vec() -> (r: Vec<String>)
    ensures
        r.deep_view() =~= detailed_names(),
{
    let mut v: Vec<String> = Vec::new();
    v.push(String::from_str("displayValue"));
    v.push(String::from_str("frequency"));
    v.push(String::from_str("reading"));
    v.push(String::from_str("value"));
    proof {
        assert(v.deep_view() =~= detailed_names());
    }
    v
}

fn pitch_info_names_vec() -> (r: Vec<String>)
    ensures
        r.deep_view() =~= pitch_info_names(),
{
    let mut v: Vec<String> = Vec::new();
    v.push(String::from_str("devoice"));
    v.push(String::from_str("nasal"));
    v.push(String::from_str("position"));
    v.push(String::from_str("tags"));
    proof {
        assert(v.deep_view() =~= pitch_info_names());
    }
    v
}

/// Decodes a frequency payload.
pub fn decode_freq(v: &JsonValue) -> (r: Option<FrequencyData>)
    ensures
        match r {
            Some(f) => freq_of(v@) == Some(f@),
            None => freq_of(v@) is None,
        },
{
    match v {
        JsonValue::Int(i) => {
            if i32::MIN as i64 <= *i && *i <= i32::MAX as i64 {
                Some(FrequencyData::SimpleNumber(*i as i32))
            } else {
                None
            }
        },
        JsonValue::Text(s) => Some(FrequencyData::SimpleString(s.clone())),
        JsonValue::Obj(fields) => {
            proof {
                lemma_detailed_ranks();
            }
            let names = detailed_names_vec();
            if !check_ranked(fields, &names) {
                return None;
            }
            let value: Option<JNum> = match get_field(fields, "value") {
                Some(n) => match crate::schema::decode_jnum_ref(n) {
                    Some(num) => Some(num),
                    None => {
                        return None;
                    },
                },
                None => None,
            };
            let display_value: Option<String> = match get_field(fields, "displayValue") {
                Some(JsonValue::Text(t)) => Some(t.clone()),
                Some(_) => {
                    return None;
                },
                None => None,
            };
            let reading: Option<String> = match get_field(fields, "reading") {
                Some(JsonValue::Text(t)) => Some(t.clone()),
                Some(_) => {
                    return None;
                },
                None => None,
            };
            let frequency: Option<JsonValue> = match get_field(fields, "frequency") {
                Some(f) => Some(crate::json::clone_json(f)),
                None => None,
            };
            Some(FrequencyData::Detailed(FrequencyDetails {
                value,
                display_value,
                reading,
                frequency,
            }))
        },
        _ => None,
    }
}

/// Decodes one pitch record.
pub fn decode_pitch_info(v: &JsonValue) -> (r: Option<PitchInfo>)
    ensures
        match r {
            Some(p) => pitch_info_of(v@) == Some(p@),
            None => pitch_info_of(v@) is None,
        },
{
    let fields = match v {
        JsonValue::Obj(fields) => fields,
        _ => {
            return None;
        },
    };
    proof {
        lemma_pitch_info_ranks();
    }
    let names = pitch_info_names_vec();
    if !check_ranked(fields, &names) {
        return None;
    }
    let position: i32 = match get_field(fields, "position") {
        Some(JsonValue::Int(i)) => {
            if i32::MIN as i64 <= *i && *i <= i32::MAX as i64 {
                *i as i32
            } else {
                return None;
            }
        },
        _ => {
            return None;
        },
    };
    let tags: Option<Vec<String>> = match get_field(fields, "tags") {
        Some(JsonValue::Arr(items)) => match crate::schema::decode_text_array_ref(items) {
            Some(ts) => Some(ts),
            None => {
                return None;
            },
        },
        Some(_) => {
            return None;
        },
        None => None,
    };
    let nasal: Option<JsonValue> = match get_field(fields, "nasal") {
        Some(n) => Some(crate::json::clone_json(n)),
        None => None,
    };
    let devoice: Option<JsonValue> = match get_field(fields, "devoice") {
        Some(d) => Some(crate::json::clone_json(d)),
        None => None,
    };
    Some(PitchInfo { position, nasal, devoice, tags })
}

proof fn lemma_pitch_list_none(items: Seq<JsonV>, i: int)
    requires
        0 <= i < items.len(),
        pitch_info_of(items[i]) is None,
    ensures
        pitch_list_of(items) is None,
    decreases items.len(),
{
    if i > 0 {
        lemma_pitch_list_none(items.drop_first(), i - 1);
    }
}

proof fn lemma_pitch_list_some(items: Seq<JsonV>)
    requires
        forall|i: int| 0 <= i < items.len() ==> #[trigger] pitch_info_of(items[i]) is Some,
    ensures
        pitch_list_of(items) is Some,
        pitch_list_of(items)->0.len() == items.len(),
        forall|i: int| 0 <= i < items.len() ==> pitch_list_of(items)->0[i] == #[trigger] pitch_info_of(
            items[i],
        )->0,
    decreases items.len(),
{
    if items.len() > 0 {
        lemma_pitch_list_some(items.drop_first());
        let ps = pitch_list_of(items)->0;
        let rest = pitch_list_of(items.drop_first())->0;
        assert forall|i: int| 0 <= i < items.len() implies ps[i] == #[trigger] pitch_info_of(
            items[i],
        )->0 by {
            if i > 0 {
                assert(ps[i] == rest[i - 1]);
                assert(items.drop_first()[i - 1] == items[i]);
            }
        }
    }
}

/// Decodes a pitch record array element by element.
pub fn decode_pitch_list(items: &Vec<JsonValue>) -> (r: Option<Vec<PitchInfo>>)
    ensures
        match r {
            Some(ps) => pitch_list_of(json_view_seq(items@)) == Some(pitches_view(ps@)),
            None => pitch_list_of(json_view_seq(items@)) is None,
        },
{
    let ghost orig = json_view_seq(items@);
    proof {
        lemma_json_view_seq_index(items@);
    }
    let mut out: Vec<PitchInfo> = Vec::new();
    let n = items.len();
    let mut i: usize = 0;
    while i < n
        invariant
            i <= n,
            n == items@.len(),
            orig == json_view_seq(items@),
            orig.len() == n,
            forall|j: int| 0 <= j < n ==> orig[j] == #[trigger] items@[j]@,
            out@.len() == i,
            forall|j: int| 0 <= j < i ==> #[trigger] pitch_info_of(orig[j]) is Some
                && pitch_info_of(orig[j])->0 == out@[j]@,
        decreases n - i,
    {
        match decode_pitch_info(&items[i]) {
            Some(p) => {
                out.push(p);
            },
            None => {
                proof {
                    lemma_pitch_list_none(orig, i as int);
                }
                return None;
            },
        }
        i = i + 1;
    }
    proof {
        lemma_pitch_list_some(orig);
        assert(pitches_view(out@).len() == pitch_list_of(orig)->0.len());
        assert forall|j: int| 0 <= j < out@.len() implies pitches_view(out@)[j] == pitch_list_of(
            orig,
        )->0[j] by {
            assert(pitches_view(out@)[j] == out@[j]@);
        }
        assert(pitches_view(out@) =~= pitch_list_of(orig)->0);
    }
    Some(out)
}

/// Decodes a pitch payload.
pub fn decode_pitch(v: &JsonValue) -> (r: Option<PitchData>)
    ensures
        match r {
            Some(p) => pitch_of(v@) == Some(p@),
            None => pitch_of(v@) is None,
        },
{
    let fields = match v {
        JsonValue::Obj(fields) => fields,
        _ => {
            return None;
        },
    };
    let ghost fv = json_view_fields(fields@);
    proof {
        lemma_json_view_fields_index(fields@);
        lemma_pitch_info_ranks();
    }
    if !(fields.len() == 2 && str_eq(fields[0].0.as_str(), "pitches") && str_eq(
        fields[1].0.as_str(),
        "reading",
    )) {
        proof {
            assert(obj_keys(fv).len() == fv.len());
            assert(obj_keys(fv) != seq!["pitches"@, "reading"@]) by {
                if obj_keys(fv) == seq!["pitches"@, "reading"@] {
                    assert(fv.len() == 2);
                    assert(obj_keys(fv)[0] == fv[0].0 && obj_keys(fv)[1] == fv[1].0);
                }
            }
        }
        return None;
    }
    proof {
        assert(fv[0].0 == "pitches"@ && fv[1].0 == "reading"@);
        assert(obj_keys(fv) =~= seq!["pitches"@, "reading"@]);
        assert(fv.drop_first()[0] == fv[1]);
        assert(obj_get(fv, "pitches"@) == Some(fv[0].1));
        assert(obj_get(fv.drop_first(), "reading"@) == Some(fv[1].1));
        assert(obj_get(fv, "reading"@) == Some(fv[1].1));
    }
    let items = match &fields[0].1 {
        JsonValue::Arr(items) => items,
        _ => {
            return None;
        },
    };
    let reading = match &fields[1].1 {
        JsonValue::Text(t) => t.clone(),
        _ => {
            return None;
        },
    };
    match decode_pitch_list(items) {
        Some(pitches) => Some(PitchData { reading, pitches }),
        None => None,
    }
}

/// Decodes one transcription.
pub fn decode_ipa_tr(v: &JsonValue) -> (r: Option<IPATranscription>)
    ensures
        match r {
            Some(t) => ipa_tr_of(v@) == Some(t@),
            None => ipa_tr_of(v@) is None,
        },
{
    let fields = match v {
        JsonValue::Obj(fields) => fields,
        _ => {
            return None;
        },
    };
    let ghost fv = json_view_fields(fields@);
    proof {
        lemma_json_view_fields_index(fields@);
        lemma_pitch_info_ranks();
    }
    if !(fields.len() == 2 && str_eq(fields[0].0.as_str(), "ipa") && str_eq(
        fields[1].0.as_str(),
        "tags",
    )) {
        proof {
            assert(obj_keys(fv).len() == fv.len());
            assert(obj_keys(fv) != seq!["ipa"@, "tags"@]) by {
                if obj_keys(fv) == seq!["ipa"@, "tags"@] {
                    assert(fv.len() == 2);
                    assert(obj_keys(fv)[0] == fv[0].0 && obj_keys(fv)[1] == fv[1].0);
                }
            }
        }
        return None;
    }
    proof {
        assert(fv[0].0 == "ipa"@ && fv[1].0 == "tags"@);
        assert(obj_keys(fv) =~= seq!["ipa"@, "tags"@]);
        assert(fv.drop_first()[0] == fv[1]);
        assert(obj_get(fv, "ipa"@) == Some(fv[0].1));
        assert(obj_get(fv.drop_first(), "tags"@) == Some(fv[1].1));
        assert(obj_get(fv, "tags"@) == Some(fv[1].1));
    }
    let ipa = match &fields[0].1 {
        JsonValue::Text(t) => t.clone(),
        _ => {
            return None;
        },
    };
    let items = match &fields[1].1 {
        JsonValue::Arr(items) => items,
        _ => {
            return None;
        },
    };
    match crate::schema::decode_text_array_ref(items) {
        Some(tags) => Some(IPATranscription { ipa, tags }),
        None => None,
    }
}

proof fn lemma_ipa_list_none(items: Seq<JsonV>, i: int)
    requires
        0 <= i < items.len(),
        ipa_tr_of(items[i]) is None,
    ensures
        ipa_list_of(items) is None,
    decreases items.len(),
{
    if i > 0 {
        lemma_ipa_list_none(items.drop_first(), i - 1);
    }
}

proof fn lemma_ipa_list_some(items: Seq<JsonV>)
    requires
        forall|i: int| 0 <= i < items.len() ==> #[trigger] ipa_tr_of(items[i]) is Some,
    ensures
        ipa_list_of(items) is Some,
        ipa_list_of(items)->0.len() == items.len(),
        forall|i: int| 0 <= i < items.len() ==> ipa_list_of(items)->0[i] == #[trigger] ipa_tr_of(
            items[i],
        )->0,
    decreases items.len(),
{
    if items.len() > 0 {
        lemma_ipa_list_some(items.drop_first());
        let ts = ipa_list_of(items)->0;
        let rest = ipa_list_of(items.drop_first())->0;
        assert forall|i: int| 0 <= i < items.len() implies ts[i] == #[trigger] ipa_tr_of(
            items[i],
        )->0 by {
            if i > 0 {
                assert(ts[i] == rest[i - 1]);
                assert(items.drop_first()[i - 1] == items[i]);
            }
        }
    }
}

/// Decodes a transcription array element by element.
pub fn decode_ipa_list(items: &Vec<JsonValue>) -> (r: Option<Vec<IPATranscription>>)
    ensures
        match r {
            Some(ts) => ipa_list_of(json_view_seq(items@)) == Some(transcriptions_view(ts@)),
            None => ipa_list_of(json_view_seq(items@)) is None,
        },
{
    let ghost orig = json_view_seq(items@);
    proof {
        lemma_json_view_seq_index(items@);
    }
    let mut out: Vec<IPATranscription> = Vec::new();
    let n = items.len();
    let mut i: usize = 0;
    while i < n
        invariant
            i <= n,
            n == items@.len(),
            orig == json_view_seq(items@),
            orig.len() == n,
            forall|j: int| 0 <= j < n ==> orig[j] == #[trigger] items@[j]@,
            out@.len() == i,
            forall|j: int| 0 <= j < i ==> #[trigger] ipa_tr_of(orig[j]) is Some && ipa_tr_of(
                orig[j],
            )->0 == out@[j]@,
        decreases n - i,
    {
        match decode_ipa_tr(&items[i]) {
            Some(t) => {
                out.push(t);
            },
            None => {
                proof {
                    lemma_ipa_list_none(orig, i as int);
                }
                return None;
            },
        }
        i = i + 1;
    }
    proof {
        lemma_ipa_list_some(orig);
        assert(transcriptions_view(out@).len() == ipa_list_of(orig)->0.len());
        assert forall|j: int| 0 <= j < out@.len() implies transcriptions_view(out@)[j]
            == ipa_list_of(orig)->0[j] by {
            assert(transcriptions_view(out@)[j] == out@[j]@);
        }
        assert(transcriptions_view(out@) =~= ipa_list_of(orig)->0);
    }
    Some(out)
}

/// Decodes an IPA payload.
pub fn decode_ipa(v: &JsonValue) -> (r: Option<IPAData>)
    ensures
        match r {
            Some(d) => ipa_of(v@) == Some(d@),
            None => ipa_of(v@) is None,
        },
{
    let fields = match v {
        JsonValue::Obj(fields) => fields,
        _ => {
            return None;
        },
    };
    let ghost fv = json_view_fields(fields@);
    proof {
        lemma_json_view_fields_index(fields@);
        lemma_pitch_info_ranks();
    }
    if !(fields.len() == 2 && str_eq(fields[0].0.as_str(), "reading") && str_eq(
        fields[1].0.as_str(),
        "transcriptions",
    )) {
        proof {
            assert(obj_keys(fv).len() == fv.len());
            assert(obj_keys(fv) != seq!["reading"@, "transcriptions"@]) by {
                if obj_keys(fv) == seq!["reading"@, "transcriptions"@] {
                    assert(fv.len() == 2);
                    assert(obj_keys(fv)[0] == fv[0].0 && obj_keys(fv)[1] == fv[1].0);
                }
            }
        }
        return None;
    }
    proof {
        assert(fv[0].0 == "reading"@ && fv[1].0 == "transcriptions"@);
        assert(obj_keys(fv) =~= seq!["reading"@, "transcriptions"@]);
        assert(fv.drop_first()[0] == fv[1]);
        assert(obj_get(fv, "reading"@) == Some(fv[0].1));
        assert(obj_get(fv.drop_first(), "transcriptions"@) == Some(fv[1].1));
        assert(obj_get(fv, "transcriptions"@) == Some(fv[1].1));
    }
    let reading = match &fields[0].1 {
        JsonValue::Text(t) => t.clone(),
        _ => {
            return None;
        },
    };
    let items = match &fields[1].1 {
        JsonValue::Arr(items) => items,
        _ => {
            return None;
        },
    };
    match decode_ipa_list(items) {
        Some(transcriptions) => Some(IPAData { reading, transcriptions }),
        None => None,
    }
}

/// Decodes one term-meta row; yields the entry exactly when `term_meta_of`
/// names one.
pub fn decode_term_meta_entry(v: &JsonValue) -> (r: Option<TermMetaEntry>)
    ensures
        match r {
            Some(e) => term_meta_of(v@) == Some(e@),
            None => term_meta_of(v@) is None,
        },
{
    let items = match v {
        JsonValue::Arr(items) => items,
        _ => {
            return None;
        },
    };
    let ghost iv = json_view_seq(items@);
    proof {
        lemma_json_view_seq_index(items@);
        lemma_pitch_info_ranks();
    }
    if items.len() != 3 {
        return None;
    }
    let term = match &items[0] {
        JsonValue::Text(t) => t.clone(),
        _ => {
            return None;
        },
    };
    let kind = match &items[1] {
        JsonValue::Text(t) => t.clone(),
        _ => {
            return None;
        },
    };
    if str_eq(kind.as_str(), "freq") {
        match decode_freq(&items[2]) {
            Some(f) => Some(TermMetaEntry {
                term,
                entry_type: kind,
                data: TermMetaData::Frequency(f),
            }),
            None => None,
        }
    } else if str_eq(kind.as_str(), "pitch") {
        match decode_pitch(&items[2]) {
            Some(p) => Some(TermMetaEntry { term, entry_type: kind, data: TermMetaData::Pitch(p) }),
            None => None,
        }
    } else if str_eq(kind.as_str(), "ipa") {
        match decode_ipa(&items[2]) {
            Some(d) => Some(TermMetaEntry { term, entry_type: kind, data: TermMetaData::Ipa(d) }),
            None => None,
        }
    } else {
        None
    }
}

/// The frequency fields an entry contributes to a lookup result, if it is
/// a frequency entry: a bare number becomes the value, a bare string the
/// display value, and the detailed form passes its display value and
/// reading through.
pub open spec fn freq_union_of(e: TermMetaEntryV) -> Option<FrequencyUnionV> {
    match e.data {
        TermMetaDataV::Frequency(f) => match f {
            FrequencyDataV::SimpleNumber(n) => Some(FrequencyUnionV {
                value: Some(n),
                display_value: None,
                reading: None,
            }),
            FrequencyDataV::SimpleString(s) => Some(FrequencyUnionV {
                value: None,
                display_value: Some(s),
                reading: None,
            }),
            FrequencyDataV::Detailed(d) => Some(FrequencyUnionV {
                value: None,
                display_value: d.display_value,
                reading: d.reading,
            }),
        },
        _ => None,
    }
}

impl TermMetaEntry {
    /// The frequency fields of this entry, as `freq_union_of` names them.
    pub fn maybe_frequency(&self) -> (r: Option<FrequencyUnion>)
        ensures
            match r {
                Some(u) => freq_union_of(self@) == Some(u@),
                None => freq_union_of(self@) is None,
            },
    {
        match &self.data {
            TermMetaData::Frequency(f) => match f {
                FrequencyData::SimpleNumber(n) => Some(FrequencyUnion {
                    value: Some(*n),
                    display_value: None,
                    reading: None,
                }),
                FrequencyData::SimpleString(s) => Some(FrequencyUnion {
                    value: None,
                    display_value: Some(s.clone()),
                    reading: None,
                }),
                FrequencyData::Detailed(d) => Some(FrequencyUnion {
                    value: None,
                    display_value: match &d.display_value {
                        Some(t) => Some(t.clone()),
                        None => None,
                    },
                    reading: match &d.reading {
                        Some(t) => Some(t.clone()),
                        None => None,
                    },
                }),
            },
            _ => None,
        }
    }
}

/// Writes a frequency payload back as JSON.
pub fn encode_freq(f: &FrequencyData) -> (r: JsonValue)
    ensures
        r@ == freq_json(f@),
{
    match f {
        FrequencyData::SimpleNumber(n) => JsonValue::Int(*n as i64),
        FrequencyData::SimpleString(s) => JsonValue::Text(s.clone()),
        FrequencyData::Detailed(d) => {
            let mut fields: Vec<(String, JsonValue)> = Vec::new();
            match &d.display_value {
                Some(t) => {
                    fields.push((String::from_str("displayValue"), JsonValue::Text(t.clone())));
                },
                None => {},
            }
            match &d.frequency {
                Some(v) => {
                    fields.push((String::from_str("frequency"), crate::json::clone_json(v)));
                },
                None => {},
            }
            match &d.reading {
                Some(t) => {
                    fields.push((String::from_str("reading"), JsonValue::Text(t.clone())));
                },
                None => {},
            }
            match &d.value {
                Some(n) => {
                    fields.push((String::from_str("value"), crate::schema::encode_jnum(n)));
                },
                None => {},
            }
            proof {
                lemma_json_view_fields_index(fields@);
                assert(json_view_fields(fields@) =~= freq_json(f@)->Obj_0);
            }
            JsonValue::Obj(fields)
        },
    }
}

/// Writes one pitch record back as JSON.
pub fn encode_pitch_info(p: &PitchInfo) -> (r: JsonValue)
    ensures
        r@ == pitch_info_json(p@),
{
    let mut fields: Vec<(String, JsonValue)> = Vec::new();
    match &p.devoice {
        Some(v) => {
            fields.push((String::from_str("devoice"), crate::json::clone_json(v)));
        },
        None => {},
    }
    match &p.nasal {
        Some(v) => {
            fields.push((String::from_str("nasal"), crate::json::clone_json(v)));
        },
        None => {},
    }
    fields.push((String::from_str("position"), JsonValue::Int(p.position as i64)));
    match &p.tags {
        Some(ts) => {
            fields.push((
                String::from_str("tags"),
                JsonValue::Arr(crate::schema::encode_text_array(ts)),
            ));
        },
        None => {},
    }
    proof {
        lemma_json_view_fields_index(fields@);
        assert(json_view_fields(fields@) =~= pitch_info_json(p@)->Obj_0);
    }
    JsonValue::Obj(fields)
}

/// Writes a pitch payload back as JSON.
pub fn encode_pitch(p: &PitchData) -> (r: JsonValue)
    ensures
        r@ == pitch_json(p@),
{
    let mut records: Vec<JsonValue> = Vec::new();
    let n = p.pitches.len();
    let mut i: usize = 0;
    while i < n
        invariant
            i <= n,
            n == p.pitches@.len(),
            records@.len() == i,
            forall|j: int| 0 <= j < i ==> (#[trigger] records@[j])@ == pitch_info_json(
                p.pitches@[j]@,
            ),
        decreases n - i,
    {
        records.push(encode_pitch_info(&p.pitches[i]));
        i = i + 1;
    }
    proof {
        lemma_json_view_seq_index(records@);
        assert(json_view_seq(records@) =~= pitch_list_json(pitches_view(p.pitches@))) by {
            assert(forall|j: int|
                0 <= j < p.pitches@.len() ==> pitches_view(p.pitches@)[j] == (
                #[trigger] p.pitches@[j])@);
        }
    }
    let mut fields: Vec<(String, JsonValue)> = Vec::new();
    fields.push((String::from_str("pitches"), JsonValue::Arr(records)));
    fields.push((String::from_str("reading"), JsonValue::Text(p.reading.clone())));
    proof {
        lemma_json_view_fields_index(fields@);
        assert(json_view_fields(fields@) =~= pitch_json(p@)->Obj_0);
    }
    JsonValue::Obj(fields)
}

/// Writes one transcription back as JSON.
pub fn encode_ipa_tr(t: &IPATranscription) -> (r: JsonValue)
    ensures
        r@ == ipa_tr_json(t@),
{
    let mut fields: Vec<(String, JsonValue)> = Vec::new();
    fields.push((String::from_str("ipa"), JsonValue::Text(t.ipa.clone())));
    fields.push((
        String::from_str("tags"),
        JsonValue::Arr(crate::schema::encode_text_array(&t.tags)),
    ));
    proof {
        lemma_json_view_fields_index(fields@);
        assert(json_view_fields(fields@) =~= ipa_tr_json(t@)->Obj_0);
    }
    JsonValue::Obj(fields)
}

/// Writes an IPA payload back as JSON.
pub fn encode_ipa(d: &IPAData) -> (r: JsonValue)
    ensures
        r@ == ipa_json(d@),
{
    let mut records: Vec<JsonValue> = Vec::new();
    let n = d.transcriptions.len();
    let mut i: usize = 0;
    while i < n
        invariant
            i <= n,
            n == d.transcriptions@.len(),
            records@.len() == i,
            forall|j: int| 0 <= j < i ==> (#[trigger] records@[j])@ == ipa_tr_json(
                d.transcriptions@[j]@,
            ),
        decreases n - i,
    {
        records.push(encode_ipa_tr(&d.transcriptions[i]));
        i = i + 1;
    }
    proof {
        lemma_json_view_seq_index(records@);
        assert(json_view_seq(records@) =~= ipa_list_json(transcriptions_view(d.transcriptions@)))
            by {
            assert(forall|j: int|
                0 <= j < d.transcriptions@.len() ==> transcriptions_view(d.transcriptions@)[j]
                    == (#[trigger] d.transcriptions@[j])@);
        }
    }
    let mut fields: Vec<(String, JsonValue)> = Vec::new();
    fields.push((String::from_str("reading"), JsonValue::Text(d.reading.clone())));
    fields.push((String::from_str("transcriptions"), JsonValue::Arr(records)));
    proof {
        lemma_json_view_fields_index(fields@);
        assert(json_view_fields(fields@) =~= ipa_json(d@)->Obj_0);
    }
    JsonValue::Obj(fields)
}

/// Writes one term-meta row back as its positional 3-tuple.
pub fn encode_term_meta_entry(e: &TermMetaEntry) -> (r: JsonValue)
    ensures
        r@ == term_meta_json(e@),
{
    let data: JsonValue = match &e.data {
        TermMetaData::Frequency(f) => encode_freq(f),
        TermMetaData::Pitch(p) => encode_pitch(p),
        TermMetaData::Ipa(d) => encode_ipa(d),
    };
    let mut items: Vec<JsonValue> = Vec::new();
    items.push(JsonValue::Text(e.term.clone()));
    items.push(JsonValue::Text(e.entry_type.clone()));
    items.push(data);
    proof {
        lemma_json_view_seq_index(items@);
        assert(json_view_seq(items@) =~= term_meta_json(e@)->Arr_0);
    }
    JsonValue::Arr(items)
}

} // verus!
