//! The kanji shard schema: an entry is a positional 6-tuple of character,
//! onyomi, kunyomi, tags, meanings and a statistics map.

use vstd::prelude::*;
use vstd::string::StrSliceExecFns;
use vstd::string::StringExecFns;

use crate::json::{
    json_view_fields, json_view_seq, lemma_json_view_fields_index, lemma_json_view_seq_index,
    JsonV, JsonValue,
};
use crate::schema::{encode_text_array, texts_json, texts_of};

verus! {

/// One row of a kanji shard: character, onyomi, kunyomi, tags, meanings,
/// statistics.
#[derive(Debug, PartialEq)]
pub struct KanjiEntry(
    pub String,
    pub String,
    pub String,
    pub String,
    pub Vec<String>,
    pub Vec<(String, String)>,
);

pub struct KanjiEntryV {
    pub kanji: Seq<char>,
    pub onyomi: Seq<char>,
    pub kunyomi: Seq<char>,
    pub tags: Seq<char>,
    pub meanings: Seq<Seq<char>>,
    pub stats: Seq<(Seq<char>, Seq<char>)>,
}

impl View for KanjiEntry {
    type V = KanjiEntryV;

    open spec fn view(&self) -> KanjiEntryV {
        KanjiEntryV {
            kanji: self.0@,
            onyomi: self.1@,
            kunyomi: self.2@,
            tags: self.3@,
            meanings: self.4.deep_view(),
            stats: self.5.deep_view(),
        }
    }
}

/// An object all of whose field values are strings, kept in field order.
pub open spec fn strmap_of(fields: Seq<(Seq<char>, JsonV)>) -> Option<Seq<(Seq<char>, Seq<char>)>>
    decreases fields.len(),
{
    if fields.len() == 0 {
        Some(Seq::empty())
    } else {
        match fields[0].1 {
            JsonV::Text(s) => match strmap_of(fields.drop_first()) {
                Some(rest) => Some(seq![(fields[0].0, s)] + rest),
                None => None,
            },
            _ => None,
        }
    }
}

pub open spec fn strmap_json(m: Seq<(Seq<char>, Seq<char>)>) -> Seq<(Seq<char>, JsonV)> {
    m.map_values(|f: (Seq<char>, Seq<char>)| (f.0, JsonV::Text(f.1)))
}

pub proof fn lemma_strmap_round_trip(fields: Seq<(Seq<char>, JsonV)>)
    requires
        strmap_of(fields) is Some,
    ensures
        strmap_json(strmap_of(fields)->0) =~= fields,
    decreases fields.len(),
{
    if fields.len() > 0 {
        lemma_strmap_round_trip(fields.drop_first());
        let m = strmap_of(fields)->0;
        let rest = strmap_of(fields.drop_first())->0;
        assert forall|i: int| 0 <= i < fields.len() implies strmap_json(m)[i] == fields[i] by {
            if i > 0 {
                assert(m[i] == rest[i - 1]);
                assert(strmap_json(rest)[i - 1] == fields.drop_first()[i - 1]);
            }
        }
    }
}

proof fn lemma_strmap_none(fields: Seq<(Seq<char>, JsonV)>, i: int)
    requires
        0 <= i < fields.len(),
        !(fields[i].1 is Text),
    ensures
        strmap_of(fields) is None,
    decreases fields.len(),
{
    if i > 0 {
        lemma_strmap_none(fields.drop_first(), i - 1);
    }
}

proof fn lemma_strmap_some(fields: Seq<(Seq<char>, JsonV)>)
    requires
        forall|i: int| 0 <= i < fields.len() ==> (#[trigger] fields[i].1) is Text,
    ensures
        strmap_of(fields) is Some,
        strmap_of(fields)->0.len() == fields.len(),
        forall|i: int| 0 <= i < fields.len() ==> strmap_of(fields)->0[i] == (
            #[trigger] fields[i].0,
            fields[i].1->Text_0,
        ),
    decreases fields.len(),
{
    if fields.len() > 0 {
        lemma_strmap_some(fields.drop_first());
        let m = strmap_of(fields)->0;
        let rest = strmap_of(fields.drop_first())->0;
        assert forall|i: int| 0 <= i < fields.len() implies m[i] == (
            #[trigger] fields[i].0,
            fields[i].1->Text_0,
        ) by {
            if i > 0 {
                assert(m[i] == rest[i - 1]);
                assert(fields.drop_first()[i - 1] == fields[i]);
            }
        }
    }
}

/// What a kanji row decodes to, if it has the 6-tuple shape.
pub open spec fn kanji_entry_of(v: JsonV) -> Option<KanjiEntryV> {
    match v {
        JsonV::Arr(items) => {
            if items.len() == 6 && items[0] is Text && items[1] is Text && items[2] is Text
                && items[3] is Text && items[4] is Arr && texts_of(items[4]->Arr_0) is Some
                && items[5] is Obj && strmap_of(items[5]->Obj_0) is Some {
                Some(KanjiEntryV {
                    kanji: items[0]->Text_0,
                    onyomi: items[1]->Text_0,
                    kunyomi: items[2]->Text_0,
                    tags: items[3]->Text_0,
                    meanings: texts_of(items[4]->Arr_0)->0,
                    stats: strmap_of(items[5]->Obj_0)->0,
                })
            } else {
                None
            }
        },
        _ => None,
    }
}

/// The JSON a kanji row writes back as.
pub open spec fn kanji_entry_json(e: KanjiEntryV) -> JsonV {
    JsonV::Arr(
        seq![
            JsonV::Text(e.kanji),
            JsonV::Text(e.onyomi),
            JsonV::Text(e.kunyomi),
            JsonV::Text(e.tags),
            JsonV::Arr(texts_json(e.meanings)),
            JsonV::Obj(strmap_json(e.stats)),
        ],
    )
}

/// Decoding a kanji row and writing it back restores the row exactly.
pub proof fn lemma_kanji_entry_round_trip(v: JsonV)
    requires
        kanji_entry_of(v) is Some,
    ensures
        kanji_entry_json(kanji_entry_of(v)->0) == v,
{
    let items = v->Arr_0;
    crate::schema::lemma_texts_round_trip(items[4]->Arr_0);
    lemma_strmap_round_trip(items[5]->Obj_0);
    assert(kanji_entry_json(kanji_entry_of(v)->0)->Arr_0 =~= items);
}

fn decode_strmap(fields: &Vec<(String, JsonValue)>) -> (r: Option<Vec<(String, String)>>)
    ensures
        match r {
            Some(m) => strmap_of(json_view_fields(fields@)) == Some(m.deep_view()),
            None => strmap_of(json_view_fields(fields@)) is None,
        },
{
    let ghost fv = json_view_fields(fields@);
    proof {
        lemma_json_view_fields_index(fields@);
    }
    let mut out: Vec<(String, String)> = Vec::new();
    let n = fields.len();
    let mut i: usize = 0;
    while i < n
        invariant
            i <= n,
            n == fields@.len(),
            fv == json_view_fields(fields@),
            fv.len() == n,
            forall|j: int| 0 <= j < n ==> fv[j] == (#[trigger] fields@[j].0@, fields@[j].1@),
            out@.len() == i,
            forall|j: int| 0 <= j < i ==> (#[trigger] fv[j].1) is Text,
            forall|j: int| 0 <= j < i ==> (#[trigger] out@[j].0@) == fv[j].0 && out@[j].1@
                == fv[j].1->Text_0,
        decreases n - i,
    {
        proof {
            assert(fv[i as int] == (fields@[i as int].0@, fields@[i as int].1@));
        }
        match &fields[i].1 {
            JsonValue::Text(s) => {
                out.push((fields[i].0.clone(), s.clone()));
                proof {
                    assert(fields@[i as int].1 is Text);
                    assert(out@[i as int].0@ == fv[i as int].0);
                    assert(out@[i as int].1@ == fv[i as int].1->Text_0);
                }
            },
            _ => {
                proof {
                    crate::json::lemma_text_view(fields@[i as int].1);
                    lemma_strmap_none(fv, i as int);
                }
                return None;
            },
        }
        i = i + 1;
    }
    proof {
        lemma_strmap_some(fv);
        assert(out.deep_view() =~= strmap_of(fv)->0);
    }
    Some(out)
}

/// Decodes one kanji row.
pub fn decode_kanji_entry(v: &JsonValue) -> (r: Option<KanjiEntry>)
    ensures
        match r {
            Some(e) => kanji_entry_of(v@) == Some(e@),
            None => kanji_entry_of(v@) is None,
        },
{
    let items = match v {
        JsonValue::Arr(items) => items,
        _ => {
            return None;
        },
    };
    proof {
        lemma_json_view_seq_index(items@);
    }
    if items.len() != 6 {
        return None;
    }
    let kanji = match &items[0] {
        JsonValue::Text(t) => t.clone(),
        _ => {
            return None;
        },
    };
    let onyomi = match &items[1] {
        JsonValue::Text(t) => t.clone(),
        _ => {
            return None;
        },
    };
    let kunyomi = match &items[2] {
        JsonValue::Text(t) => t.clone(),
        _ => {
            return None;
        },
    };
    let tags = match &items[3] {
        JsonValue::Text(t) => t.clone(),
        _ => {
            return None;
        },
    };
    let meanings = match &items[4] {
        JsonValue::Arr(ms) => match crate::schema::decode_text_array_ref(ms) {
            Some(ts) => ts,
            None => {
                return None;
            },
        },
        _ => {
            return None;
        },
    };
    let stats = match &items[5] {
        JsonValue::Obj(fields) => match decode_strmap(fields) {
            Some(m) => m,
            None => {
                return None;
            },
        },
        _ => {
            return None;
        },
    };
    Some(KanjiEntry(kanji, onyomi, kunyomi, tags, meanings, stats))
}

/// Writes one kanji row back as its positional 6-tuple.
pub fn encode_kanji_entry(e: &KanjiEntry) -> (r: JsonValue)
    ensures
        r@ == kanji_entry_json(e@),
{
    let mut stats: Vec<(String, JsonValue)> = Vec::new();
    let mut i: usize = 0;
    while i < e.5.len()
        invariant
            i <= e.5@.len(),
            stats@.len() == i,
            forall|j: int| 0 <= j < i ==> (#[trigger] stats@[j].0@) == e.5@[j].0@ && stats@[j].1@
                == JsonV::Text(e.5@[j].1@),
        decreases e.5@.len() - i,
    {
        stats.push((e.5[i].0.clone(), JsonValue::Text(e.5[i].1.clone())));
        proof {
            assert(stats@[i as int].0@ == e.5@[i as int].0@);
            assert(stats@[i as int].1@ == JsonV::Text(e.5@[i as int].1@));
        }
        i = i + 1;
    }
    proof {
        lemma_json_view_fields_index(stats@);
        assert(json_view_fields(stats@) =~= strmap_json(e.5.deep_view()));
    }
    let mut items: Vec<JsonValue> = Vec::new();
    items.push(JsonValue::Text(e.0.clone()));
    items.push(JsonValue::Text(e.1.clone()));
    items.push(JsonValue::Text(e.2.clone()));
    items.push(JsonValue::Text(e.3.clone()));
    items.push(JsonValue::Arr(encode_text_array(&e.4)));
    items.push(JsonValue::Obj(stats));
    proof {
        lemma_json_view_seq_index(items@);
        assert(json_view_seq(items@) =~= kanji_entry_json(e@)->Arr_0);
    }
    JsonValue::Arr(items)
}

impl KanjiEntry {
    /// Rejects an entry whose kanji character is empty; every other entry
    /// is accepted.
    pub fn validate(&self) -> (r: Result<(), String>)
        ensures
            r is Ok <==> self.0@.len() > 0,
    {
        if self.0.as_str().unicode_len() == 0 {
            Err(String::from_str("Kanji character cannot be empty"))
        } else {
            Ok(())
        }
    }
}

} // verus!
