//! The dictionary registry: opened dictionaries classified into four
//! buckets (term, pitch, frequency, kanji), with hot registration that
//! rejects a duplicate title and revision.

use vstd::prelude::*;
use vstd::string::StrSliceExecFns;
use vstd::string::StringExecFns;

use crate::errors::{DictError, ErrorKind};
use crate::index::{decode_index, index_of, DictionaryIndex};
use crate::json::{json_of, parse_json, JsonV};
use crate::kv::KvStore;
use crate::term_meta_bank::{decode_term_meta_entry, term_meta_of, TermMetaData, TermMetaDataV};
use crate::text::{contains_sub, contains_substring};

verus! {

/// The classified kind of a dictionary.
#[derive(Debug, Eq, PartialEq, Clone, Copy, Structural)]
pub enum DictionaryType {
    Term,
    Pitch,
    Frequency,
    Kanji,
}

/// A flat listing entry of the registry.
#[derive(Debug, Clone)]
pub struct DictionaryInfo {
    pub title: String,
    pub revision: String,
    pub dictionary_type: DictionaryType,
}

pub struct DictionaryInfoV {
    pub title: Seq<char>,
    pub revision: Seq<char>,
    pub dictionary_type: DictionaryType,
}

impl View for DictionaryInfo {
    type V = DictionaryInfoV;

    open spec fn view(&self) -> DictionaryInfoV {
        DictionaryInfoV {
            title: self.title@,
            revision: self.revision@,
            dictionary_type: self.dictionary_type,
        }
    }
}

/// One opened dictionary: its origin filename, its manifest, and its five
/// optional per-schema stores.
pub struct YomitanDictionary {
    pub origin: String,
    pub index: DictionaryIndex,
    pub kanji_bank: Option<KvStore>,
    pub kanji_meta_bank: Option<KvStore>,
    pub tag_bank: Option<KvStore>,
    pub term_bank: Option<KvStore>,
    pub term_meta_bank: Option<KvStore>,
}

pub struct YomitanTermDictionary(pub YomitanDictionary);

pub struct YomitanPitchDictionary(pub YomitanDictionary);

pub struct YomitanFrequencyDictionary(pub YomitanDictionary);

pub struct YomitanKanjiDictionary(pub YomitanDictionary);

/// The rows a dictionary's kanji store holds; an absent store holds none.
pub open spec fn kanji_row_count(d: &YomitanDictionary) -> int {
    match d.kanji_bank {
        Some(s) => s.rows().len() as int,
        None => 0,
    }
}

pub open spec fn term_meta_row_count(d: &YomitanDictionary) -> int {
    match d.term_meta_bank {
        Some(s) => s.rows().len() as int,
        None => 0,
    }
}

pub open spec fn term_row_count(d: &YomitanDictionary) -> int {
    match d.term_bank {
        Some(s) => s.rows().len() as int,
        None => 0,
    }
}

/// The rows of a dictionary's term-meta store; an absent store holds none.
pub open spec fn term_meta_rows(d: &YomitanDictionary) -> Seq<(Seq<char>, Seq<char>)> {
    match d.term_meta_bank {
        Some(s) => s.rows(),
        None => Seq::empty(),
    }
}

/// The kind of the first entry of a stored term-meta payload, if the
/// payload is a JSON array whose first entry decodes.
pub open spec fn row_first_meta(payload: Seq<char>) -> Option<TermMetaDataV> {
    match json_of(payload) {
        Some(JsonV::Arr(items)) => if items.len() > 0 && term_meta_of(items[0]) is Some {
            Some(term_meta_of(items[0])->0.data)
        } else {
            None
        },
        _ => None,
    }
}

/// The classification rule, over what was read from the stores: a kanji
/// row or `kanji` in the revision means a kanji dictionary; else a
/// populated term-meta store decides by its first entry's kind; else a
/// populated term store is a term dictionary; anything else is an error.
pub open spec fn classify_spec(
    kanji_rows: int,
    kanji_in_revision: bool,
    term_meta_rows: int,
    first_meta: Option<TermMetaDataV>,
    term_rows: int,
) -> Option<DictionaryType> {
    if kanji_rows > 0 || kanji_in_revision {
        Some(DictionaryType::Kanji)
    } else if term_meta_rows > 0 {
        match first_meta {
            Some(TermMetaDataV::Frequency(_)) => Some(DictionaryType::Frequency),
            Some(TermMetaDataV::Pitch(_)) => Some(DictionaryType::Pitch),
            _ => None,
        }
    } else if term_rows > 0 {
        Some(DictionaryType::Term)
    } else {
        None
    }
}

/// Classification is total on populated dictionaries: whenever some table
/// has a row — and, where the term-meta table decides, its first entry is
/// a frequency or pitch entry — exactly one of the four kinds comes back.
/// A dictionary whose term-meta store leads with an IPA entry is the one
/// populated shape that still fails.
pub proof fn lemma_classification_total(
    kanji_rows: int,
    kanji_in_revision: bool,
    term_meta_rows: int,
    first_meta: Option<TermMetaDataV>,
    term_rows: int,
)
    requires
        kanji_rows > 0 || term_meta_rows > 0 || term_rows > 0,
        (kanji_rows <= 0 && !kanji_in_revision && term_meta_rows > 0) ==> (first_meta matches Some(
            TermMetaDataV::Frequency(_),
        ) || first_meta matches Some(TermMetaDataV::Pitch(_))),
    ensures
        classify_spec(kanji_rows, kanji_in_revision, term_meta_rows, first_meta, term_rows)
            is Some,
{
}

/// A dictionary with no rows in any table and no `kanji` marker in its
/// revision never classifies.
pub proof fn lemma_classification_empty(
    kanji_rows: int,
    kanji_in_revision: bool,
    term_meta_rows: int,
    first_meta: Option<TermMetaDataV>,
    term_rows: int,
)
    requires
        kanji_rows <= 0,
        !kanji_in_revision,
        term_meta_rows <= 0,
        term_rows <= 0,
    ensures
        classify_spec(kanji_rows, kanji_in_revision, term_meta_rows, first_meta, term_rows)
            is None,
{
}

impl YomitanDictionary {
    /// Opens a dictionary directory: decodes the given index manifest text
    /// and opens whichever per-schema stores exist under the directory.
    pub fn open(dir: &str, origin: String, index_text: &str) -> (r: Result<
        YomitanDictionary,
        DictError,
    >)
        ensures
            match r {
                Ok(d) => {
                    &&& json_of(index_text@) is Some
                    &&& index_of(json_of(index_text@)->0) == Some(d.index@)
                    &&& d.origin@ == origin@
                },
                Err(e) => e.kind == ErrorKind::SchemaDecode && (json_of(index_text@) is None
                    || index_of(json_of(index_text@)->0) is None),
            },
    {
        let parsed = match parse_json(index_text) {
            Some(v) => v,
            None => {
                return Err(DictError {
                    kind: ErrorKind::SchemaDecode,
                    message: String::from_str("index manifest is not valid JSON"),
                });
            },
        };
        let index = match decode_index(&parsed) {
            Some(ix) => ix,
            None => {
                return Err(DictError {
                    kind: ErrorKind::SchemaDecode,
                    message: String::from_str("index manifest has an unexpected shape"),
                });
            },
        };
        let kanji_bank = KvStore::open_ro(dir, "kanji_bank_");
        let kanji_meta_bank = KvStore::open_ro(dir, "kanji_meta_bank_");
        let tag_bank = KvStore::open_ro(dir, "tag_bank_");
        let term_bank = KvStore::open_ro(dir, "term_bank_");
        let term_meta_bank = KvStore::open_ro(dir, "term_meta_bank_");
        Ok(YomitanDictionary {
            origin,
            index,
            kanji_bank,
            kanji_meta_bank,
            tag_bank,
            term_bank,
            term_meta_bank,
        })
    }

    /// Classifies this dictionary by the rule of `classify_spec`. The
    /// term-meta kind is read from one stored row, so a populated
    /// term-meta store decides by whichever row answers the probe.
    pub fn identify_dictionary_type(&self) -> (r: Result<DictionaryType, DictError>)
        ensures
            match r {
                Ok(t) => {
                    &&& (t == DictionaryType::Kanji <==> (kanji_row_count(self) > 0
                        || contains_sub(self.index.revision@, "kanji"@)))
                    &&& ((t != DictionaryType::Kanji && term_meta_row_count(self) > 0)
                        ==> exists|i: int|
                        0 <= i < term_meta_rows(self).len() && row_first_meta(
                            (#[trigger] term_meta_rows(self)[i]).1,
                        ) is Some && classify_spec(
                            kanji_row_count(self),
                            contains_sub(self.index.revision@, "kanji"@),
                            term_meta_row_count(self),
                            row_first_meta(term_meta_rows(self)[i].1),
                            term_row_count(self),
                        ) == Some(t))
                    &&& ((t != DictionaryType::Kanji && term_meta_row_count(self) == 0) ==> t
                        == DictionaryType::Term && term_row_count(self) > 0)
                },
                Err(e) => {
                    &&& (e.kind == ErrorKind::Storage || e.kind == ErrorKind::SchemaDecode
                        || e.kind == ErrorKind::Classify)
                    &&& (e.kind == ErrorKind::Classify ==> !(kanji_row_count(self) > 0
                        || contains_sub(self.index.revision@, "kanji"@)))
                },
            },
            (self.kanji_bank is None && contains_sub(self.index.revision@, "kanji"@)) ==> r == Ok::<
                DictionaryType,
                DictError,
            >(DictionaryType::Kanji),
    {
        let kanji_rows: i64 = match &self.kanji_bank {
            Some(db) => match db.get_num_rows() {
                Ok(n) => n,
                Err(e) => {
                    return Err(e);
                },
            },
            None => 0,
        };
        let kanji_in_revision = contains_substring(self.index.revision.as_str(), "kanji");
        if kanji_rows > 0 || kanji_in_revision {
            proof {
                let fm = None::<TermMetaDataV>;
                assert(classify_spec(
                    kanji_row_count(self),
                    contains_sub(self.index.revision@, "kanji"@),
                    term_meta_row_count(self),
                    fm,
                    term_row_count(self),
                ) == Some(DictionaryType::Kanji));
            }
            return Ok(DictionaryType::Kanji);
        }
        let meta_count: i64 = match &self.term_meta_bank {
            Some(db) => match db.get_num_rows() {
                Ok(n) => n,
                Err(e) => {
                    return Err(e);
                },
            },
            None => 0,
        };
        if meta_count > 0 {
            let ghost mrows = term_meta_rows(self);
            let first_row = match self.term_meta_bank.as_ref().unwrap().get_first_row() {
                Ok(Some(row)) => row,
                Ok(None) => {
                    return Err(DictError {
                        kind: ErrorKind::Classify,
                        message: String::from_str("term meta store is empty"),
                    });
                },
                Err(e) => {
                    return Err(e);
                },
            };
            let ghost wi = choose|i: int|
                0 <= i < mrows.len() && (#[trigger] mrows[i]).1 == first_row@;
            proof {
                assert(0 <= wi < mrows.len() && mrows[wi].1 == first_row@);
            }
            let parsed = match parse_json(first_row.as_str()) {
                Some(v) => v,
                None => {
                    return Err(DictError {
                        kind: ErrorKind::SchemaDecode,
                        message: String::from_str("term meta row is not valid JSON"),
                    });
                },
            };
            let entries = match parsed {
                crate::json::JsonValue::Arr(items) => items,
                _ => {
                    return Err(DictError {
                        kind: ErrorKind::SchemaDecode,
                        message: String::from_str("term meta row is not an array"),
                    });
                },
            };
            proof {
                crate::json::lemma_json_view_seq_index(entries@);
                assert(json_of(first_row@) == Some(
                    JsonV::Arr(crate::json::json_view_seq(entries@)),
                ));
            }
            if entries.len() == 0 {
                return Err(DictError {
                    kind: ErrorKind::Classify,
                    message: String::from_str("term meta row holds no entries"),
                });
            }
            let entry = match decode_term_meta_entry(&entries[0]) {
                Some(e) => e,
                None => {
                    return Err(DictError {
                        kind: ErrorKind::SchemaDecode,
                        message: String::from_str("term meta entry has an unexpected shape"),
                    });
                },
            };
            match &entry.data {
                TermMetaData::Frequency(_) => {
                    proof {
                        assert(row_first_meta(mrows[wi].1) == Some(entry@.data));
                        assert(classify_spec(
                            kanji_row_count(self),
                            contains_sub(self.index.revision@, "kanji"@),
                            term_meta_row_count(self),
                            row_first_meta(mrows[wi].1),
                            term_row_count(self),
                        ) == Some(DictionaryType::Frequency));
                    }
                    return Ok(DictionaryType::Frequency);
                },
                TermMetaData::Pitch(_) => {
                    proof {
                        assert(row_first_meta(mrows[wi].1) == Some(entry@.data));
                        assert(classify_spec(
                            kanji_row_count(self),
                            contains_sub(self.index.revision@, "kanji"@),
                            term_meta_row_count(self),
                            row_first_meta(mrows[wi].1),
                            term_row_count(self),
                        ) == Some(DictionaryType::Pitch));
                    }
                    return Ok(DictionaryType::Pitch);
                },
                TermMetaData::Ipa(_) => {
                    return Err(DictError {
                        kind: ErrorKind::Classify,
                        message: String::from_str("unsupported term meta kind"),
                    });
                },
            }
        }
        let term_rows: i64 = match &self.term_bank {
            Some(db) => match db.get_num_rows() {
                Ok(n) => n,
                Err(e) => {
                    return Err(e);
                },
            },
            None => 0,
        };
        if term_rows > 0 {
            proof {
                let fm = None::<TermMetaDataV>;
                assert(classify_spec(
                    kanji_row_count(self),
                    contains_sub(self.index.revision@, "kanji"@),
                    term_meta_row_count(self),
                    fm,
                    term_row_count(self),
                ) == Some(DictionaryType::Term));
            }
            Ok(DictionaryType::Term)
        } else {
            Err(DictError {
                kind: ErrorKind::Classify,
                message: String::from_str("no table identifies this dictionary"),
            })
        }
    }
}

/// The registry of loaded dictionaries, bucketed by classified kind.
pub struct YomitanDictionaries {
    pub terms: Vec<YomitanTermDictionary>,
    pub pitch: Vec<YomitanPitchDictionary>,
    pub freq: Vec<YomitanFrequencyDictionary>,
    pub kanji: Vec<YomitanKanjiDictionary>,
}

/// No two term dictionaries share a title and revision.
pub open spec fn registry_wf(r: YomitanDictionaries) -> bool {
    forall|i: int, j: int|
        0 <= i < j < r.terms@.len() ==> ((#[trigger] r.terms@[i]).0.index.title@, r.terms@[i].0.index.revision@)
            != ((#[trigger] r.terms@[j]).0.index.title@, r.terms@[j].0.index.revision@)
}

impl YomitanDictionaries {
    /// An empty registry, well formed by construction.
    pub fn new() -> (r: YomitanDictionaries)
        ensures
            r.terms@.len() == 0,
            r.pitch@.len() == 0,
            r.freq@.len() == 0,
            r.kanji@.len() == 0,
            registry_wf(r),
    {
        YomitanDictionaries { terms: Vec::new(), pitch: Vec::new(), freq: Vec::new(), kanji: Vec::new() }
    }

    /// Whether a term dictionary with this title and revision is present.
    fn has_term_duplicate(&self, title: &str, revision: &str) -> (r: bool)
        ensures
            r == exists|i: int|
                0 <= i < self.terms@.len() && (#[trigger] self.terms@[i]).0.index.title@ == title@
                    && self.terms@[i].0.index.revision@ == revision@,
    {
        let n = self.terms.len();
        let mut i: usize = 0;
        while i < n
            invariant
                i <= n,
                n == self.terms@.len(),
                forall|j: int|
                    0 <= j < i ==> !((#[trigger] self.terms@[j]).0.index.title@ == title@
                        && self.terms@[j].0.index.revision@ == revision@),
            decreases n - i,
        {
            if crate::text::str_eq(self.terms[i].0.index.title.as_str(), title) && crate::text::str_eq(
                self.terms[i].0.index.revision.as_str(),
                revision,
            ) {
                return true;
            }
            i = i + 1;
        }
        false
    }

    /// Appends an opened dictionary to the bucket its classification
    /// names, first rejecting a title and revision already registered as
    /// a term dictionary. The duplicate check runs before anything
    /// fallible, so a duplicate deterministically yields the conflict
    /// error; only the term bucket is deduplicated, which is the policy
    /// the registry rule states. Well-formedness is preserved, and on
    /// success exactly one bucket grows by the given dictionary.
    pub fn register_dictionary(&mut self, dict: YomitanDictionary) -> (r: Result<
        DictionaryType,
        DictError,
    >)
        ensures
            match r {
                Ok(t) => {
                    &&& !(exists|i: int|
                        0 <= i < old(self).terms@.len() && (#[trigger] old(
                            self,
                        ).terms@[i]).0.index.title@ == dict.index.title@ && old(
                            self,
                        ).terms@[i].0.index.revision@ == dict.index.revision@)
                    &&& (t == DictionaryType::Term ==> final(self).terms@ == old(
                        self,
                    ).terms@.push(YomitanTermDictionary(dict)) && final(self).pitch@ == old(
                        self,
                    ).pitch@ && final(self).freq@ == old(self).freq@ && final(self).kanji@ == old(
                        self,
                    ).kanji@)
                    &&& (t == DictionaryType::Pitch ==> final(self).pitch@ == old(
                        self,
                    ).pitch@.push(YomitanPitchDictionary(dict)) && final(self).terms@ == old(
                        self,
                    ).terms@ && final(self).freq@ == old(self).freq@ && final(self).kanji@ == old(
                        self,
                    ).kanji@)
                    &&& (t == DictionaryType::Frequency ==> final(self).freq@ == old(
                        self,
                    ).freq@.push(YomitanFrequencyDictionary(dict)) && final(self).terms@ == old(
                        self,
                    ).terms@ && final(self).pitch@ == old(self).pitch@ && final(self).kanji@
                        == old(self).kanji@)
                    &&& (t == DictionaryType::Kanji ==> final(self).kanji@ == old(
                        self,
                    ).kanji@.push(YomitanKanjiDictionary(dict)) && final(self).terms@ == old(
                        self,
                    ).terms@ && final(self).pitch@ == old(self).pitch@ && final(self).freq@ == old(
                        self,
                    ).freq@)
                },
                Err(e) => {
                    &&& final(self).terms@ == old(self).terms@
                    &&& final(self).pitch@ == old(self).pitch@
                    &&& final(self).freq@ == old(self).freq@
                    &&& final(self).kanji@ == old(self).kanji@
                    &&& (e.kind == ErrorKind::RegistryConflict ==> exists|i: int|
                        0 <= i < old(self).terms@.len() && (#[trigger] old(
                            self,
                        ).terms@[i]).0.index.title@ == dict.index.title@ && old(
                            self,
                        ).terms@[i].0.index.revision@ == dict.index.revision@)
                },
            },
            registry_wf(*old(self)) ==> registry_wf(*final(self)),
            (exists|i: int|
                0 <= i < old(self).terms@.len() && (#[trigger] old(
                    self,
                ).terms@[i]).0.index.title@ == dict.index.title@ && old(
                    self,
                ).terms@[i].0.index.revision@ == dict.index.revision@) ==> r is Err
                && r->Err_0.kind == ErrorKind::RegistryConflict,
    {
        if self.has_term_duplicate(dict.index.title.as_str(), dict.index.revision.as_str()) {
            return Err(DictError {
                kind: ErrorKind::RegistryConflict,
                message: String::from_str("a dictionary with this title and revision exists"),
            });
        }
        let dict_type = match dict.identify_dictionary_type() {
            Ok(t) => t,
            Err(e) => {
                return Err(e);
            },
        };
        match dict_type {
            DictionaryType::Term => {
                self.terms.push(YomitanTermDictionary(dict));
                proof {
                    if registry_wf(*old(self)) {
                        assert forall|i: int, j: int|
                            0 <= i < j < self.terms@.len() implies ((
                        #[trigger] self.terms@[i]).0.index.title@, self.terms@[i].0.index.revision@)
                            != ((#[trigger] self.terms@[j]).0.index.title@, self.terms@[j].0.index.revision@) by {
                            if j == self.terms@.len() - 1 {
                                assert(self.terms@[i] == old(self).terms@[i]);
                            } else {
                                assert(self.terms@[i] == old(self).terms@[i]);
                                assert(self.terms@[j] == old(self).terms@[j]);
                            }
                        }
                    }
                }
            },
            DictionaryType::Pitch => {
                self.pitch.push(YomitanPitchDictionary(dict));
            },
            DictionaryType::Frequency => {
                self.freq.push(YomitanFrequencyDictionary(dict));
            },
            DictionaryType::Kanji => {
                self.kanji.push(YomitanKanjiDictionary(dict));
            },
        }
        Ok(dict_type)
    }

    /// The flat listing of the registry: term dictionaries, then pitch,
    /// frequency and kanji, each in registration order.
    pub fn get_dictionaries_info(&self) -> (r: Vec<DictionaryInfo>)
        ensures
            r@.len() == self.terms@.len() + self.pitch@.len() + self.freq@.len()
                + self.kanji@.len(),
            forall|i: int|
                0 <= i < self.terms@.len() ==> (#[trigger] r@[i])@ == (DictionaryInfoV {
                    title: self.terms@[i].0.index.title@,
                    revision: self.terms@[i].0.index.revision@,
                    dictionary_type: DictionaryType::Term,
                }),
            forall|i: int|
                0 <= i < self.pitch@.len() ==> (#[trigger] r@[self.terms@.len() + i])@ == (
                DictionaryInfoV {
                    title: self.pitch@[i].0.index.title@,
                    revision: self.pitch@[i].0.index.revision@,
                    dictionary_type: DictionaryType::Pitch,
                }),
            forall|i: int|
                0 <= i < self.freq@.len() ==> (#[trigger] r@[self.terms@.len() + self.pitch@.len()
                    + i])@ == (DictionaryInfoV {
                    title: self.freq@[i].0.index.title@,
                    revision: self.freq@[i].0.index.revision@,
                    dictionary_type: DictionaryType::Frequency,
                }),
            forall|i: int|
                0 <= i < self.kanji@.len() ==> (#[trigger] r@[self.terms@.len()
                    + self.pitch@.len() + self.freq@.len() + i])@ == (DictionaryInfoV {
                    title: self.kanji@[i].0.index.title@,
                    revision: self.kanji@[i].0.index.revision@,
                    dictionary_type: DictionaryType::Kanji,
                }),
    {
        let mut out: Vec<DictionaryInfo> = Vec::new();
        let mut i: usize = 0;
        while i < self.terms.len()
            invariant
                i <= self.terms@.len(),
                out@.len() == i,
                forall|j: int|
                    0 <= j < i ==> (#[trigger] out@[j])@ == (DictionaryInfoV {
                        title: self.terms@[j].0.index.title@,
                        revision: self.terms@[j].0.index.revision@,
                        dictionary_type: DictionaryType::Term,
                    }),
            decreases self.terms@.len() - i,
        {
            out.push(DictionaryInfo {
                title: self.terms[i].0.index.title.clone(),
                revision: self.terms[i].0.index.revision.clone(),
                dictionary_type: DictionaryType::Term,
            });
            i = i + 1;
        }
        let base1 = out.len();
        let mut i: usize = 0;
        while i < self.pitch.len()
            invariant
                i <= self.pitch@.len(),
                base1 == self.terms@.len(),
                out@.len() == base1 + i,
                forall|j: int|
                    0 <= j < base1 ==> (#[trigger] out@[j])@ == (DictionaryInfoV {
                        title: self.terms@[j].0.index.title@,
                        revision: self.terms@[j].0.index.revision@,
                        dictionary_type: DictionaryType::Term,
                    }),
                forall|j: int|
                    0 <= j < i ==> (#[trigger] out@[base1 + j])@ == (DictionaryInfoV {
                        title: self.pitch@[j].0.index.title@,
                        revision: self.pitch@[j].0.index.revision@,
                        dictionary_type: DictionaryType::Pitch,
                    }),
            decreases self.pitch@.len() - i,
        {
            out.push(DictionaryInfo {
                title: self.pitch[i].0.index.title.clone(),
                revision: self.pitch[i].0.index.revision.clone(),
                dictionary_type: DictionaryType::Pitch,
            });
            i = i + 1;
        }
        let base2 = out.len();
        let mut i: usize = 0;
        while i < self.freq.len()
            invariant
                i <= self.freq@.len(),
                base1 == self.terms@.len(),
                base2 == self.terms@.len() + self.pitch@.len(),
                out@.len() == base2 + i,
                forall|j: int|
                    0 <= j < base1 ==> (#[trigger] out@[j])@ == (DictionaryInfoV {
                        title: self.terms@[j].0.index.title@,
                        revision: self.terms@[j].0.index.revision@,
                        dictionary_type: DictionaryType::Term,
                    }),
                forall|j: int|
                    0 <= j < self.pitch@.len() ==> (#[trigger] out@[base1 + j])@ == (
                    DictionaryInfoV {
                        title: self.pitch@[j].0.index.title@,
                        revision: self.pitch@[j].0.index.revision@,
                        dictionary_type: DictionaryType::Pitch,
                    }),
                forall|j: int|
                    0 <= j < i ==> (#[trigger] out@[base2 + j])@ == (DictionaryInfoV {
                        title: self.freq@[j].0.index.title@,
                        revision: self.freq@[j].0.index.revision@,
                        dictionary_type: DictionaryType::Frequency,
                    }),
            decreases self.freq@.len() - i,
        {
            out.push(DictionaryInfo {
                title: self.freq[i].0.index.title.clone(),
                revision: self.freq[i].0.index.revision.clone(),
                dictionary_type: DictionaryType::Frequency,
            });
            i = i + 1;
        }
        let base3 = out.len();
        let mut i: usize = 0;
        while i < self.kanji.len()
            invariant
                i <= self.kanji@.len(),
                base1 == self.terms@.len(),
                base2 == self.terms@.len() + self.pitch@.len(),
                base3 == self.terms@.len() + self.pitch@.len() + self.freq@.len(),
                out@.len() == base3 + i,
                forall|j: int|
                    0 <= j < base1 ==> (#[trigger] out@[j])@ == (DictionaryInfoV {
                        title: self.terms@[j].0.index.title@,
                        revision: self.terms@[j].0.index.revision@,
                        dictionary_type: DictionaryType::Term,
                    }),
                forall|j: int|
                    0 <= j < self.pitch@.len() ==> (#[trigger] out@[base1 + j])@ == (
                    DictionaryInfoV {
                        title: self.pitch@[j].0.index.title@,
                        revision: self.pitch@[j].0.index.revision@,
                        dictionary_type: DictionaryType::Pitch,
                    }),
                forall|j: int|
                    0 <= j < self.freq@.len() ==> (#[trigger] out@[base2 + j])@ == (
                    DictionaryInfoV {
                        title: self.freq@[j].0.index.title@,
                        revision: self.freq@[j].0.index.revision@,
                        dictionary_type: DictionaryType::Frequency,
                    }),
                forall|j: int|
                    0 <= j < i ==> (#[trigger] out@[base3 + j])@ == (DictionaryInfoV {
                        title: self.kanji@[j].0.index.title@,
                        revision: self.kanji@[j].0.index.revision@,
                        dictionary_type: DictionaryType::Kanji,
                    }),
            decreases self.kanji@.len() - i,
        {
            out.push(DictionaryInfo {
                title: self.kanji[i].0.index.title.clone(),
                revision: self.kanji[i].0.index.revision.clone(),
                dictionary_type: DictionaryType::Kanji,
            });
            i = i + 1;
        }
        out
    }

    /// Empties every bucket.
    pub fn clear(&mut self)
        ensures
            final(self).terms@.len() == 0,
            final(self).pitch@.len() == 0,
            final(self).freq@.len() == 0,
            final(self).kanji@.len() == 0,
            registry_wf(*final(self)),
    {
        self.terms.clear();
        self.pitch.clear();
        self.freq.clear();
        self.kanji.clear();
    }
}

} // verus!
