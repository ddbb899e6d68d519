//! The tag shard schema: an entry is a positional 5-tuple of tag name,
//! category, sorting order, notes and popularity score.

use vstd::prelude::*;

use crate::json::{json_view_seq, lemma_json_view_seq_index, JsonV, JsonValue};
use crate::schema::{decode_jnum_ref, encode_jnum, jnum_json, jnum_of, JNum, JNumV};

verus! {

/// One row of a tag shard.
#[derive(Debug, PartialEq)]
pub struct TagEntry {
    pub tag_name: String,
    pub category: String,
    pub sorting_order: JNum,
    pub notes: String,
    pub popularity_score: JNum,
}

pub struct TagEntryV {
    pub tag_name: Seq<char>,
    pub category: Seq<char>,
    pub sorting_order: JNumV,
    pub notes: Seq<char>,
    pub popularity_score: JNumV,
}

impl View for TagEntry {
    type V = TagEntryV;

    open spec fn view(&self) -> TagEntryV {
        TagEntryV {
            tag_name: self.tag_name@,
            category: self.category@,
            sorting_order: self.sorting_order@,
            notes: self.notes@,
            popularity_score: self.popularity_score@,
        }
    }
}

/// What a tag row decodes to, if it has the 5-tuple shape.
pub open spec fn tag_entry_of(v: JsonV) -> Option<TagEntryV> {
    match v {
        JsonV::Arr(items) => {
            if items.len() == 5 && items[0] is Text && items[1] is Text && items[3] is Text
                && jnum_of(items[2]) is Some && jnum_of(items[4]) is Some {
                Some(TagEntryV {
                    tag_name: items[0]->Text_0,
                    category: items[1]->Text_0,
                    sorting_order: jnum_of(items[2])->0,
                    notes: items[3]->Text_0,
                    popularity_score: jnum_of(items[4])->0,
                })
            } else {
                None
            }
        },
        _ => None,
    }
}

/// The JSON a tag row writes back as.
pub open spec fn tag_entry_json(e: TagEntryV) -> JsonV {
    JsonV::Arr(
        seq![
            JsonV::Text(e.tag_name),
            JsonV::Text(e.category),
            jnum_json(e.sorting_order),
            JsonV::Text(e.notes),
            jnum_json(e.popularity_score),
        ],
    )
}

/// Decoding a tag row and writing it back restores the row exactly.
pub proof fn lemma_tag_entry_round_trip(v: JsonV)
    requires
        tag_entry_of(v) is Some,
    ensures
        tag_entry_json(tag_entry_of(v)->0) == v,
{
    assert(tag_entry_json(tag_entry_of(v)->0)->Arr_0 =~= v->Arr_0);
}

/// Decodes one tag row.
pub fn decode_tag_entry(v: &JsonValue) -> (r: Option<TagEntry>)
    ensures
        match r {
            Some(e) => tag_entry_of(v@) == Some(e@),
            None => tag_entry_of(v@) is None,
        },
{
    let items = match v {
        JsonValue::Arr(items) => items,
        _ => {
            return None;
        },
    };
    proof {
        lemma_json_view_seq_index(items@);
    }
    if items.len() != 5 {
        return None;
    }
    let tag_name = match &items[0] {
        JsonValue::Text(t) => t.clone(),
        _ => {
            return None;
        },
    };
    let category = match &items[1] {
        JsonValue::Text(t) => t.clone(),
        _ => {
            return None;
        },
    };
    let sorting_order = match decode_jnum_ref(&items[2]) {
        Some(n) => n,
        None => {
            return None;
        },
    };
    let notes = match &items[3] {
        JsonValue::Text(t) => t.clone(),
        _ => {
            return None;
        },
    };
    let popularity_score = match decode_jnum_ref(&items[4]) {
        Some(n) => n,
        None => {
            return None;
        },
    };
    Some(TagEntry { tag_name, category, sorting_order, notes, popularity_score })
}

/// Writes one tag row back as its positional 5-tuple.
pub fn encode_tag_entry(e: &TagEntry) -> (r: JsonValue)
    ensures
        r@ == tag_entry_json(e@),
{
    let mut items: Vec<JsonValue> = Vec::new();
    items.push(JsonValue::Text(e.tag_name.clone()));
    items.push(JsonValue::Text(e.category.clone()));
    items.push(encode_jnum(&e.sorting_order));
    items.push(JsonValue::Text(e.notes.clone()));
    items.push(encode_jnum(&e.popularity_score));
    proof {
        lemma_json_view_seq_index(items@);
        assert(json_view_seq(items@) =~= tag_entry_json(e@)->Arr_0);
    }
    JsonValue::Arr(items)
}

} // verus!
