//! The index manifest of a dictionary archive: title, revision, format
//! version and assorted optional metadata. Unknown fields are ignored, as
//! manifests in the wild carry extras.

use vstd::prelude::*;
use vstd::string::StrSliceExecFns;
use vstd::string::StringExecFns;

use crate::json::{json_view_fields, lemma_json_view_fields_index, obj_get, JsonV, JsonValue};
use crate::schema::{get_field, jnum_of, JNum, JNumV};
use crate::text::str_eq;

verus! {

/// How a frequency dictionary counts: by occurrences or by rank.
#[derive(Debug, PartialEq, Eq, Clone, Copy)]
pub enum FrequencyMode {
    OccurrenceBased,
    RankBased,
}

/// Per-tag metadata an index may carry.
#[derive(Debug, PartialEq)]
pub struct TagMetaInfo {
    pub category: Option<String>,
    pub order: Option<JNum>,
    pub notes: Option<String>,
    pub score: Option<JNum>,
}

/// The parsed index manifest.
#[derive(Debug, PartialEq)]
pub struct DictionaryIndex {
    pub title: String,
    pub revision: String,
    pub sequenced: bool,
    pub format: Option<i64>,
    pub author: Option<String>,
    pub is_updatable: bool,
    pub index_url: Option<String>,
    pub download_url: Option<String>,
    pub url: Option<String>,
    pub description: Option<String>,
    pub attribution: Option<String>,
    pub source_language: Option<String>,
    pub target_language: Option<String>,
    pub frequency_mode: Option<FrequencyMode>,
    pub tag_meta: Option<Vec<(String, TagMetaInfo)>>,
}

pub struct TagMetaInfoV {
    pub category: Option<Seq<char>>,
    pub order: Option<JNumV>,
    pub notes: Option<Seq<char>>,
    pub score: Option<JNumV>,
}

pub struct DictionaryIndexV {
    pub title: Seq<char>,
    pub revision: Seq<char>,
    pub sequenced: bool,
    pub format: Option<int>,
    pub author: Option<Seq<char>>,
    pub is_updatable: bool,
    pub index_url: Option<Seq<char>>,
    pub download_url: Option<Seq<char>>,
    pub url: Option<Seq<char>>,
    pub description: Option<Seq<char>>,
    pub attribution: Option<Seq<char>>,
    pub source_language: Option<Seq<char>>,
    pub target_language: Option<Seq<char>>,
    pub frequency_mode: Option<FrequencyMode>,
    pub tag_meta: Option<Seq<(Seq<char>, TagMetaInfoV)>>,
}

impl View for TagMetaInfo {
    type V = TagMetaInfoV;

    open spec fn view(&self) -> TagMetaInfoV {
        TagMetaInfoV {
            category: self.category.deep_view(),
            order: match self.order {
                Some(n) => Some(n@),
                None => None,
            },
            notes: self.notes.deep_view(),
            score: match self.score {
                Some(n) => Some(n@),
                None => None,
            },
        }
    }
}

pub open spec fn tag_meta_view(m: Seq<(String, TagMetaInfo)>) -> Seq<(Seq<char>, TagMetaInfoV)> {
    m.map_values(|f: (String, TagMetaInfo)| (f.0@, f.1@))
}

impl View for DictionaryIndex {
    type V = DictionaryIndexV;

    open spec fn view(&self) -> DictionaryIndexV {
        DictionaryIndexV {
            title: self.title@,
            revision: self.revision@,
            sequenced: self.sequenced,
            format: match self.format {
                Some(n) => Some(n as int),
                None => None,
            },
            author: self.author.deep_view(),
            is_updatable: self.is_updatable,
            index_url: self.index_url.deep_view(),
            download_url: self.download_url.deep_view(),
            url: self.url.deep_view(),
            description: self.description.deep_view(),
            attribution: self.attribution.deep_view(),
            source_language: self.source_language.deep_view(),
            target_language: self.target_language.deep_view(),
            frequency_mode: self.frequency_mode,
            tag_meta: match self.tag_meta {
                Some(m) => Some(tag_meta_view(m@)),
                None => None,
            },
        }
    }
}

/// An optional string field: absent and `null` both mean none; any other
/// non-string value does not decode. The outer option is the validity.
pub open spec fn opt_text_of(f: Option<JsonV>) -> Option<Option<Seq<char>>> {
    match f {
        None => Some(None),
        Some(JsonV::Null) => Some(None),
        Some(JsonV::Text(s)) => Some(Some(s)),
        Some(_) => None,
    }
}

/// An optional boolean field that defaults to false when absent.
pub open spec fn opt_bool_of(f: Option<JsonV>) -> Option<bool> {
    match f {
        None => Some(false),
        Some(JsonV::Bool(b)) => Some(b),
        Some(_) => None,
    }
}

/// An optional number field.
pub open spec fn opt_num_of(f: Option<JsonV>) -> Option<Option<JNumV>> {
    match f {
        None => Some(None),
        Some(JsonV::Null) => Some(None),
        Some(v) => match jnum_of(v) {
            Some(n) => Some(Some(n)),
            None => None,
        },
    }
}

/// The frequency mode a field decodes to.
pub open spec fn freq_mode_of(f: Option<JsonV>) -> Option<Option<FrequencyMode>> {
    match f {
        None => Some(None),
        Some(JsonV::Null) => Some(None),
        Some(JsonV::Text(s)) => if s == "occurrence-based"@ {
            Some(Some(FrequencyMode::OccurrenceBased))
        } else if s == "rank-based"@ {
            Some(Some(FrequencyMode::RankBased))
        } else {
            None
        },
        Some(_) => None,
    }
}

/// One tag-meta record: an object whose known fields are all optional.
pub open spec fn tag_meta_info_of(v: JsonV) -> Option<TagMetaInfoV> {
    match v {
        JsonV::Obj(fields) => {
            let cat = opt_text_of(obj_get(fields, "category"@));
            let ord = opt_num_of(obj_get(fields, "order"@));
            let not = opt_text_of(obj_get(fields, "notes"@));
            let sco = opt_num_of(obj_get(fields, "score"@));
            if cat is Some && ord is Some && not is Some && sco is Some {
                Some(TagMetaInfoV {
                    category: cat->0,
                    order: ord->0,
                    notes: not->0,
                    score: sco->0,
                })
            } else {
                None
            }
        },
        _ => None,
    }
}

pub open spec fn tag_meta_list_of(fields: Seq<(Seq<char>, JsonV)>) -> Option<
    Seq<(Seq<char>, TagMetaInfoV)>,
>
    decreases fields.len(),
{
    if fields.len() == 0 {
        Some(Seq::empty())
    } else {
        match tag_meta_info_of(fields[0].1) {
            Some(m) => match tag_meta_list_of(fields.drop_first()) {
                Some(rest) => Some(seq![(fields[0].0, m)] + rest),
                None => None,
            },
            None => None,
        }
    }
}

pub open spec fn tag_meta_of(f: Option<JsonV>) -> Option<Option<Seq<(Seq<char>, TagMetaInfoV)>>> {
    match f {
        None => Some(None),
        Some(JsonV::Null) => Some(None),
        Some(JsonV::Obj(fields)) => match tag_meta_list_of(fields) {
            Some(m) => Some(Some(m)),
            None => None,
        },
        Some(_) => None,
    }
}

/// What an index manifest decodes to. `title` and `revision` are required
/// strings; `format` may also be spelled `version`; unknown fields are
/// ignored.
pub open spec fn index_of(v: JsonV) -> Option<DictionaryIndexV> {
    match v {
        JsonV::Obj(fields) => {
            let title = obj_get(fields, "title"@);
            let revision = obj_get(fields, "revision"@);
            let format = if obj_get(fields, "format"@) is Some {
                obj_get(fields, "format"@)
            } else {
                obj_get(fields, "version"@)
            };
            let seqd = opt_bool_of(obj_get(fields, "sequenced"@));
            let upd = opt_bool_of(obj_get(fields, "isUpdatable"@));
            let author = opt_text_of(obj_get(fields, "author"@));
            let index_url = opt_text_of(obj_get(fields, "indexUrl"@));
            let download_url = opt_text_of(obj_get(fields, "downloadUrl"@));
            let url = opt_text_of(obj_get(fields, "url"@));
            let description = opt_text_of(obj_get(fields, "description"@));
            let attribution = opt_text_of(obj_get(fields, "attribution"@));
            let source_language = opt_text_of(obj_get(fields, "sourceLanguage"@));
            let target_language = opt_text_of(obj_get(fields, "targetLanguage"@));
            let frequency_mode = freq_mode_of(obj_get(fields, "frequencyMode"@));
            let tag_meta = tag_meta_of(obj_get(fields, "tagMeta"@));
            if title is Some && title->0 is Text && revision is Some && revision->0 is Text
                && (format is None || format->0 is Int) && seqd is Some && upd is Some && author
                is Some && index_url is Some && download_url is Some && url is Some && description
                is Some && attribution is Some && source_language is Some && target_language
                is Some && frequency_mode is Some && tag_meta is Some {
                Some(DictionaryIndexV {
                    title: title->0->Text_0,
                    revision: revision->0->Text_0,
                    sequenced: seqd->0,
                    format: match format {
                        Some(f) => Some(f->Int_0),
                        None => None,
                    },
                    author: author->0,
                    is_updatable: upd->0,
                    index_url: index_url->0,
                    download_url: download_url->0,
                    url: url->0,
                    description: description->0,
                    attribution: attribution->0,
                    source_language: source_language->0,
                    target_language: target_language->0,
                    frequency_mode: frequency_mode->0,
                    tag_meta: tag_meta->0,
                })
            } else {
                None
            }
        },
        _ => None,
    }
}

/// A two- or three-letter lower-case ASCII language code.
pub open spec fn valid_iso_language_code(s: Seq<char>) -> bool {
    (s.len() == 2 || s.len() == 3) && forall|i: int| 0 <= i < s.len() ==> 'a' <= #[trigger] s[i]
        <= 'z'
}

pub fn is_valid_iso_language_code(code: &str) -> (r: bool)
    ensures
        r == valid_iso_language_code(code@),
{
    let n = code.unicode_len();
    if n != 2 && n != 3 {
        return false;
    }
    let mut i: usize = 0;
    while i < n
        invariant
            n == code@.len(),
            i <= n,
            forall|j: int| 0 <= j < i ==> 'a' <= #[trigger] code@[j] <= 'z',
        decreases n - i,
    {
        let c = code.get_char(i);
        if !('a' <= c && c <= 'z') {
            return false;
        }
        i = i + 1;
    }
    true
}

/// When an index manifest is acceptable: the format is 1, 2 or 3 when
/// given, language codes are well formed, and an updatable dictionary
/// carries both its URLs.
pub open spec fn index_valid(ix: DictionaryIndexV) -> bool {
    (match ix.format {
        Some(f) => f == 1 || f == 2 || f == 3,
        None => true,
    }) && (match ix.source_language {
        Some(s) => valid_iso_language_code(s),
        None => true,
    }) && (match ix.target_language {
        Some(s) => valid_iso_language_code(s),
        None => true,
    }) && (ix.is_updatable ==> ix.index_url is Some && ix.download_url is Some)
}

impl DictionaryIndex {
    /// Accepts the manifest exactly when `index_valid` holds of it; the
    /// error names the first field that fails.
    pub fn validate(&self) -> (r: Result<(), String>)
        ensures
            r is Ok <==> index_valid(self@),
    {
        match &self.format {
            Some(f) => {
                if !(*f == 1 || *f == 2 || *f == 3) {
                    return Err(String::from_str("Format must be 1, 2, or 3"));
                }
            },
            None => {},
        }
        match &self.source_language {
            Some(lang) => {
                if !is_valid_iso_language_code(lang.as_str()) {
                    return Err(String::from_str("Invalid source language code"));
                }
            },
            None => {},
        }
        match &self.target_language {
            Some(lang) => {
                if !is_valid_iso_language_code(lang.as_str()) {
                    return Err(String::from_str("Invalid target language code"));
                }
            },
            None => {},
        }
        if self.is_updatable {
            if self.index_url.is_none() || self.download_url.is_none() {
                return Err(String::from_str("isUpdatable requires indexUrl and downloadUrl"));
            }
        }
        Ok(())
    }
}

fn decode_opt_text(f: Option<&JsonValue>) -> (r: Option<Option<String>>)
    ensures
        match r {
            Some(t) => opt_text_of(match f {
                Some(v) => Some(v@),
                None => None,
            }) == Some(t.deep_view()),
            None => opt_text_of(match f {
                Some(v) => Some(v@),
                None => None,
            }) is None,
        },
{
    match f {
        None => Some(None),
        Some(JsonValue::Null) => Some(None),
        Some(JsonValue::Text(s)) => Some(Some(s.clone())),
        Some(_) => None,
    }
}

fn decode_opt_bool(f: Option<&JsonValue>) -> (r: Option<bool>)
    ensures
        r == opt_bool_of(match f {
            Some(v) => Some(v@),
            None => None,
        }),
{
    match f {
        None => Some(false),
        Some(JsonValue::Bool(b)) => Some(*b),
        Some(_) => None,
    }
}

fn decode_opt_num(f: Option<&JsonValue>) -> (r: Option<Option<JNum>>)
    ensures
        match r {
            Some(Some(n)) => opt_num_of(match f {
                Some(v) => Some(v@),
                None => None,
            }) == Some(Some(n@)),
            Some(None) => opt_num_of(match f {
                Some(v) => Some(v@),
                None => None,
            }) == Some(None::<JNumV>),
            None => opt_num_of(match f {
                Some(v) => Some(v@),
                None => None,
            }) is None,
        },
{
    match f {
        None => Some(None),
        Some(JsonValue::Null) => Some(None),
        Some(v) => match crate::schema::decode_jnum_ref(v) {
            Some(n) => Some(Some(n)),
            None => None,
        },
    }
}

fn decode_tag_meta_info(v: &JsonValue) -> (r: Option<TagMetaInfo>)
    ensures
        match r {
            Some(m) => tag_meta_info_of(v@) == Some(m@),
            None => tag_meta_info_of(v@) is None,
        },
{
    let fields = match v {
        JsonValue::Obj(fields) => fields,
        _ => {
            return None;
        },
    };
    let category = match decode_opt_text(get_field(fields, "category")) {
        Some(t) => t,
        None => {
            return None;
        },
    };
    let order = match decode_opt_num(get_field(fields, "order")) {
        Some(n) => n,
        None => {
            return None;
        },
    };
    let notes = match decode_opt_text(get_field(fields, "notes")) {
        Some(t) => t,
        None => {
            return None;
        },
    };
    let score = match decode_opt_num(get_field(fields, "score")) {
        Some(n) => n,
        None => {
            return None;
        },
    };
    Some(TagMetaInfo { category, order, notes, score })
}

proof fn lemma_tag_meta_list_none(fields: Seq<(Seq<char>, JsonV)>, i: int)
    requires
        0 <= i < fields.len(),
        tag_meta_info_of(fields[i].1) is None,
    ensures
        tag_meta_list_of(fields) is None,
    decreases fields.len(),
{
    if i > 0 {
        lemma_tag_meta_list_none(fields.drop_first(), i - 1);
    }
}

proof fn lemma_tag_meta_list_some(fields: Seq<(Seq<char>, JsonV)>)
    requires
        forall|i: int| 0 <= i < fields.len() ==> #[trigger] tag_meta_info_of(fields[i].1) is Some,
    ensures
        tag_meta_list_of(fields) is Some,
        tag_meta_list_of(fields)->0.len() == fields.len(),
        forall|i: int| 0 <= i < fields.len() ==> tag_meta_list_of(fields)->0[i] == (
            (#[trigger] fields[i]).0,
            tag_meta_info_of(fields[i].1)->0,
        ),
    decreases fields.len(),
{
    if fields.len() > 0 {
        lemma_tag_meta_list_some(fields.drop_first());
        let m = tag_meta_list_of(fields)->0;
        let rest = tag_meta_list_of(fields.drop_first())->0;
        assert forall|i: int| 0 <= i < fields.len() implies m[i] == (
            (#[trigger] fields[i]).0,
            tag_meta_info_of(fields[i].1)->0,
        ) by {
            if i > 0 {
                assert(m[i] == rest[i - 1]);
                assert(fields.drop_first()[i - 1] == fields[i]);
            }
        }
    }
}

fn decode_tag_meta_map(fields: &Vec<(String, JsonValue)>) -> (r: Option<Vec<(String, TagMetaInfo)>>)
    ensures
        match r {
            Some(m) => tag_meta_list_of(json_view_fields(fields@)) == Some(tag_meta_view(m@)),
            None => tag_meta_list_of(json_view_fields(fields@)) is None,
        },
{
    let ghost fv = json_view_fields(fields@);
    proof {
        lemma_json_view_fields_index(fields@);
    }
    let mut out: Vec<(String, TagMetaInfo)> = Vec::new();
    let n = fields.len();
    let mut i: usize = 0;
    while i < n
        invariant
            i <= n,
            n == fields@.len(),
            fv == json_view_fields(fields@),
            fv.len() == n,
            forall|j: int| 0 <= j < n ==> fv[j] == (#[trigger] fields@[j].0@, fields@[j].1@),
            out@.len() == i,
            forall|j: int| 0 <= j < i ==> #[trigger] tag_meta_info_of(fv[j].1) is Some,
            forall|j: int| 0 <= j < i ==> (#[trigger] out@[j].0@) == fv[j].0 && out@[j].1@
                == tag_meta_info_of(fv[j].1)->0,
        decreases n - i,
    {
        proof {
            assert(fv[i as int] == (fields@[i as int].0@, fields@[i as int].1@));
        }
        match decode_tag_meta_info(&fields[i].1) {
            Some(m) => {
                out.push((fields[i].0.clone(), m));
                proof {
                    assert(out@[i as int].0@ == fv[i as int].0);
                }
            },
            None => {
                proof {
                    lemma_tag_meta_list_none(fv, i as int);
                }
                return None;
            },
        }
        i = i + 1;
    }
    proof {
        lemma_tag_meta_list_some(fv);
        assert(tag_meta_view(out@).len() == tag_meta_list_of(fv)->0.len());
        assert forall|j: int| 0 <= j < out@.len() implies tag_meta_view(out@)[j]
            == tag_meta_list_of(fv)->0[j] by {
            assert(tag_meta_view(out@)[j] == (out@[j].0@, out@[j].1@));
        }
        assert(tag_meta_view(out@) =~= tag_meta_list_of(fv)->0);
    }
    Some(out)
}

/// Decodes an index manifest; yields the index exactly when `index_of`
/// names one.
#[verifier::rlimit(100)]
pub fn decode_index(v: &JsonValue) -> (r: Option<DictionaryIndex>)
    ensures
        match r {
            Some(ix) => index_of(v@) == Some(ix@),
            None => index_of(v@) is None,
        },
{
    let fields = match v {
        JsonValue::Obj(fields) => fields,
        _ => {
            return None;
        },
    };
    let title = match get_field(fields, "title") {
        Some(JsonValue::Text(t)) => t.clone(),
        _ => {
            return None;
        },
    };
    let revision = match get_field(fields, "revision") {
        Some(JsonValue::Text(t)) => t.clone(),
        _ => {
            return None;
        },
    };
    let format_field = match get_field(fields, "format") {
        Some(f) => Some(f),
        None => get_field(fields, "version"),
    };
    let format: Option<i64> = match format_field {
        None => None,
        Some(JsonValue::Int(i)) => Some(*i),
        Some(_) => {
            return None;
        },
    };
    let sequenced = match decode_opt_bool(get_field(fields, "sequenced")) {
        Some(b) => b,
        None => {
            return None;
        },
    };
    let is_updatable = match decode_opt_bool(get_field(fields, "isUpdatable")) {
        Some(b) => b,
        None => {
            return None;
        },
    };
    let author = match decode_opt_text(get_field(fields, "author")) {
        Some(t) => t,
        None => {
            return None;
        },
    };
    let index_url = match decode_opt_text(get_field(fields, "indexUrl")) {
        Some(t) => t,
        None => {
            return None;
        },
    };
    let download_url = match decode_opt_text(get_field(fields, "downloadUrl")) {
        Some(t) => t,
        None => {
            return None;
        },
    };
    let url = match decode_opt_text(get_field(fields, "url")) {
        Some(t) => t,
        None => {
            return None;
        },
    };
    let description = match decode_opt_text(get_field(fields, "description")) {
        Some(t) => t,
        None => {
            return None;
        },
    };
    let attribution = match decode_opt_text(get_field(fields, "attribution")) {
        Some(t) => t,
        None => {
            return None;
        },
    };
    let source_language = match decode_opt_text(get_field(fields, "sourceLanguage")) {
        Some(t) => t,
        None => {
            return None;
        },
    };
    let target_language = match decode_opt_text(get_field(fields, "targetLanguage")) {
        Some(t) => t,
        None => {
            return None;
        },
    };
    let frequency_mode: Option<FrequencyMode> = match get_field(fields, "frequencyMode") {
        None => None,
        Some(JsonValue::Null) => None,
        Some(JsonValue::Text(s)) => {
            if str_eq(s.as_str(), "occurrence-based") {
                Some(FrequencyMode::OccurrenceBased)
            } else if str_eq(s.as_str(), "rank-based") {
                Some(FrequencyMode::RankBased)
            } else {
                return None;
            }
        },
        Some(_) => {
            return None;
        },
    };
    let tag_meta: Option<Vec<(String, TagMetaInfo)>> = match get_field(fields, "tagMeta") {
        None => None,
        Some(JsonValue::Null) => None,
        Some(JsonValue::Obj(tm)) => match decode_tag_meta_map(tm) {
            Some(m) => Some(m),
            None => {
                return None;
            },
        },
        Some(_) => {
            return None;
        },
    };
    Some(DictionaryIndex {
        title,
        revision,
        sequenced,
        format,
        author,
        is_updatable,
        index_url,
        download_url,
        url,
        description,
        attribution,
        source_language,
        target_language,
        frequency_mode,
        tag_meta,
    })
}

} // verus!
