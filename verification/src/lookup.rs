//! The lookup engine: fans a query's token candidates out over the term
//! dictionaries, gathers their entries, derives the distinct text/reading
//! pairs, and joins pitch-accent and frequency annotations onto them.

use vstd::prelude::*;
use vstd::string::StrSliceExecFns;
use vstd::string::StringExecFns;

use crate::errors::{DictError, ErrorKind};
use crate::json::{json_of, JsonV};
use crate::term_bank::{term_entry_of, TermEntry, TermEntryV};
use crate::term_meta_bank::{
    freq_union_of, term_meta_of, FrequencyUnionV, PitchDataV, TermMetaEntryV,
};
use crate::text::{hira_of, is_kata_of};
use crate::tokens::TokenFeatureV;

verus! {

/// The payload of the first row with the key; the reference model of a
/// store whose keys are unique.
pub open spec fn rows_get(rows: Seq<(Seq<char>, Seq<char>)>, key: Seq<char>) -> Option<Seq<char>>
    decreases rows.len(),
{
    if rows.len() == 0 {
        None
    } else if rows[0].0 == key {
        Some(rows[0].1)
    } else {
        rows_get(rows.drop_first(), key)
    }
}

pub open spec fn unique_keys(rows: Seq<(Seq<char>, Seq<char>)>) -> bool {
    forall|i: int, j: int| 0 <= i < j < rows.len() ==> (#[trigger] rows[i]).0 != (
    #[trigger] rows[j]).0
}

/// In a store with unique keys, any row that answers a probe is the row
/// `rows_get` names.
pub proof fn lemma_rows_get_unique(rows: Seq<(Seq<char>, Seq<char>)>, i: int)
    requires
        unique_keys(rows),
        0 <= i < rows.len(),
    ensures
        rows_get(rows, rows[i].0) == Some(rows[i].1),
    decreases i,
{
    if i > 0 {
        assert(rows.drop_first()[i - 1] == rows[i]);
        assert(unique_keys(rows.drop_first())) by {
            assert forall|a: int, b: int|
                0 <= a < b < rows.drop_first().len() implies (#[trigger] rows.drop_first()[a]).0
                != (#[trigger] rows.drop_first()[b]).0 by {
                assert(rows.drop_first()[a] == rows[a + 1]);
                assert(rows.drop_first()[b] == rows[b + 1]);
            }
        }
        lemma_rows_get_unique(rows.drop_first(), i - 1);
        assert(rows[0].0 != rows[i].0);
    }
}

pub proof fn lemma_rows_get_absent(rows: Seq<(Seq<char>, Seq<char>)>, key: Seq<char>)
    requires
        forall|i: int| 0 <= i < rows.len() ==> (#[trigger] rows[i]).0 != key,
    ensures
        rows_get(rows, key) is None,
    decreases rows.len(),
{
    if rows.len() > 0 {
        assert forall|i: int|
            0 <= i < rows.drop_first().len() implies (#[trigger] rows.drop_first()[i]).0 != key by {
            assert(rows.drop_first()[i] == rows[i + 1]);
        }
        lemma_rows_get_absent(rows.drop_first(), key);
    }
}

/// The term entries a stored payload decodes to: a JSON array of rows of
/// the term schema.
pub open spec fn term_list_of(items: Seq<JsonV>) -> Option<Seq<TermEntryV>>
    decreases items.len(),
{
    if items.len() == 0 {
        Some(Seq::empty())
    } else {
        match term_entry_of(items[0]) {
            Some(e) => match term_list_of(items.drop_first()) {
                Some(rest) => Some(seq![e] + rest),
                None => None,
            },
            None => None,
        }
    }
}

pub open spec fn entries_of_payload(payload: Seq<char>) -> Option<Seq<TermEntryV>> {
    match json_of(payload) {
        Some(JsonV::Arr(items)) => term_list_of(items),
        _ => None,
    }
}

/// The outcome of probing a term store: a miss, a hit with its decoded
/// entries, or an undecodable payload.
pub open spec fn term_hits(rows: Seq<(Seq<char>, Seq<char>)>, term: Seq<char>) -> Option<
    Option<Seq<TermEntryV>>,
> {
    match rows_get(rows, term) {
        None => Some(None),
        Some(payload) => match entries_of_payload(payload) {
            Some(es) => Some(Some(es)),
            None => None,
        },
    }
}

/// The entries one token candidate contributes: the surface form first,
/// its hiragana reading when an all-katakana surface misses, then the
/// dictionary form when it differs from the surface. A payload that does
/// not decode poisons the whole candidate.
pub open spec fn feature_entries(rows: Seq<(Seq<char>, Seq<char>)>, f: TokenFeatureV) -> Option<
    Seq<TermEntryV>,
> {
    let surface_part = match f.surface_form {
        None => Some(Seq::<TermEntryV>::empty()),
        Some(s) => match term_hits(rows, s) {
            None => None,
            Some(Some(es)) => Some(es),
            Some(None) => if is_kata_of(s) {
                match term_hits(rows, hira_of(s)) {
                    None => None,
                    Some(Some(es)) => Some(es),
                    Some(None) => Some(Seq::<TermEntryV>::empty()),
                }
            } else {
                Some(Seq::<TermEntryV>::empty())
            },
        },
    };
    let dict_part = match f.dictionary_form {
        Some(d) => if f.surface_form != Some(d) {
            match term_hits(rows, d) {
                None => None,
                Some(Some(es)) => Some(es),
                Some(None) => Some(Seq::<TermEntryV>::empty()),
            }
        } else {
            Some(Seq::<TermEntryV>::empty())
        },
        None => Some(Seq::<TermEntryV>::empty()),
    };
    match (surface_part, dict_part) {
        (Some(a), Some(b)) => Some(a + b),
        _ => None,
    }
}

/// The entries a whole candidate list contributes, in candidate order.
pub open spec fn dict_entries(
    rows: Seq<(Seq<char>, Seq<char>)>,
    feats: Seq<TokenFeatureV>,
) -> Option<Seq<TermEntryV>>
    decreases feats.len(),
{
    if feats.len() == 0 {
        Some(Seq::empty())
    } else {
        match (feature_entries(rows, feats[0]), dict_entries(rows, feats.drop_first())) {
            (Some(a), Some(rest)) => Some(a + rest),
            _ => None,
        }
    }
}

/// The katakana fallback, as `feature_entries` resolves one candidate
/// against one store:
/// when an all-katakana surface has no row of its own, the entries of its
/// hiragana form answer; when the surface has a row, its own entries
/// answer first, before anything the dictionary form adds.
pub proof fn lemma_katakana_fallback(
    rows: Seq<(Seq<char>, Seq<char>)>,
    f: TokenFeatureV,
    s: Seq<char>,
)
    requires
        f.surface_form == Some(s),
        f.dictionary_form is None || f.dictionary_form == Some(s),
    ensures
        (is_kata_of(s) && rows_get(rows, s) is None && term_hits(rows, hira_of(s)) is Some
            && term_hits(rows, hira_of(s))->0 is Some) ==> feature_entries(rows, f) == Some(
            term_hits(rows, hira_of(s))->0->0,
        ),
        (term_hits(rows, s) is Some && term_hits(rows, s)->0 is Some) ==> feature_entries(rows, f)
            == Some(term_hits(rows, s)->0->0),
{
}


/// Every decoded row of a term-meta payload, or none when one fails.
pub open spec fn meta_list_of(items: Seq<JsonV>) -> Option<Seq<TermMetaEntryV>>
    decreases items.len(),
{
    if items.len() == 0 {
        Some(Seq::empty())
    } else {
        match term_meta_of(items[0]) {
            Some(e) => match meta_list_of(items.drop_first()) {
                Some(rest) => Some(seq![e] + rest),
                None => None,
            },
            None => None,
        }
    }
}

pub open spec fn meta_entries_of_payload(payload: Seq<char>) -> Option<Seq<TermMetaEntryV>> {
    match json_of(payload) {
        Some(JsonV::Arr(items)) => meta_list_of(items),
        _ => None,
    }
}

/// Whether one meta entry answers a pitch probe: the stored term and the
/// pitch payload's reading both match.
pub open spec fn pitch_matches(e: TermMetaEntryV, term: Seq<char>, reading: Seq<char>) -> bool {
    e.term == term && e.data is Pitch && e.data->Pitch_0.reading == reading
}

/// The scan over a payload's rows, decoding each until a match: the first
/// undecodable row poisons the scan, as the engine stops there.
pub open spec fn pitch_scan(items: Seq<JsonV>, term: Seq<char>, reading: Seq<char>) -> Option<
    Option<PitchDataV>,
>
    decreases items.len(),
{
    if items.len() == 0 {
        Some(None)
    } else {
        match term_meta_of(items[0]) {
            None => None,
            Some(e) => if pitch_matches(e, term, reading) {
                Some(Some(e.data->Pitch_0))
            } else {
                pitch_scan(items.drop_first(), term, reading)
            },
        }
    }
}

/// The pitch answer of a store for one text and reading: a miss when the
/// text has no row, else the first matching pitch entry of its payload.
pub open spec fn pitch_probe(
    rows: Seq<(Seq<char>, Seq<char>)>,
    term: Seq<char>,
    reading: Seq<char>,
) -> Option<Option<PitchDataV>> {
    match rows_get(rows, term) {
        None => Some(None),
        Some(payload) => match json_of(payload) {
            Some(JsonV::Arr(items)) => pitch_scan(items, term, reading),
            _ => None,
        },
    }
}

/// The distinct (text, reading) pairs of the collected results, first
/// occurrences first.
pub open spec fn add_pair(
    acc: Seq<(Seq<char>, Seq<char>)>,
    p: (Seq<char>, Seq<char>),
) -> Seq<(Seq<char>, Seq<char>)> {
    if acc.contains(p) {
        acc
    } else {
        acc.push(p)
    }
}

pub open spec fn pairs_of_entries(
    acc: Seq<(Seq<char>, Seq<char>)>,
    es: Seq<TermEntry>,
) -> Seq<(Seq<char>, Seq<char>)>
    decreases es.len(),
{
    if es.len() == 0 {
        acc
    } else {
        add_pair(pairs_of_entries(acc, es.drop_last()), (es.last().text@, es.last().reading@))
    }
}

pub open spec fn pairs_of_results(rs: Seq<DictionaryResult>) -> Seq<(Seq<char>, Seq<char>)>
    decreases rs.len(),
{
    if rs.len() == 0 {
        Seq::empty()
    } else {
        pairs_of_entries(pairs_of_results(rs.drop_last()), rs.last().entries@)
    }
}

/// Whether a pair's pitch probe finds a matching entry.
pub open spec fn pitch_hit(rows: Seq<(Seq<char>, Seq<char>)>, p: (Seq<char>, Seq<char>)) -> bool {
    match pitch_probe(rows, p.0, p.1) {
        Some(Some(_)) => true,
        _ => false,
    }
}

/// The pairs whose pitch probe finds a matching entry.
pub open spec fn hit_pairs(
    rows: Seq<(Seq<char>, Seq<char>)>,
    pairs: Seq<(Seq<char>, Seq<char>)>,
) -> Seq<(Seq<char>, Seq<char>)> {
    pairs.filter(|p: (Seq<char>, Seq<char>)| pitch_hit(rows, p))
}


/// The pitch hits with explicit skip decisions: `psel[i]` true means the
/// probe of pair `i` failed and the pair was passed over. With nothing
/// skipped this is exactly `hit_pairs`.
pub open spec fn hit_pairs_sel(
    rows: Seq<(Seq<char>, Seq<char>)>,
    pairs: Seq<(Seq<char>, Seq<char>)>,
    psel: Seq<bool>,
) -> Seq<(Seq<char>, Seq<char>)>
    decreases pairs.len(),
{
    if pairs.len() == 0 || psel.len() == 0 {
        Seq::empty()
    } else {
        let rest = hit_pairs_sel(rows, pairs.drop_last(), psel.drop_last());
        if psel.last() {
            rest
        } else if pitch_hit(rows, pairs.last()) {
            rest.push(pairs.last())
        } else {
            rest
        }
    }
}

/// The pairs whose pitch probe failed, in collection order.
pub open spec fn skipped_pairs_sel(
    pairs: Seq<(Seq<char>, Seq<char>)>,
    psel: Seq<bool>,
) -> Seq<(Seq<char>, Seq<char>)>
    decreases pairs.len(),
{
    if pairs.len() == 0 || psel.len() == 0 {
        Seq::empty()
    } else {
        let rest = skipped_pairs_sel(pairs.drop_last(), psel.drop_last());
        if psel.last() {
            rest.push(pairs.last())
        } else {
            rest
        }
    }
}

/// With no pair skipped, the selective pitch join is the join itself.
pub proof fn lemma_unskipped_hits(
    rows: Seq<(Seq<char>, Seq<char>)>,
    pairs: Seq<(Seq<char>, Seq<char>)>,
    psel: Seq<bool>,
)
    requires
        psel.len() == pairs.len(),
        skipped_pairs_sel(pairs, psel).len() == 0,
    ensures
        hit_pairs_sel(rows, pairs, psel) == hit_pairs(rows, pairs),
    decreases pairs.len(),
{
    broadcast use vstd::prelude::Seq::lemma_filter_push;

    if pairs.len() == 0 {
        assert(pairs =~= Seq::<(Seq<char>, Seq<char>)>::empty());
        reveal_with_fuel(Seq::<(Seq<char>, Seq<char>)>::filter, 1);
    } else {
        assert(!psel.last()) by {
            if psel.last() {
                assert(skipped_pairs_sel(pairs, psel).len() > 0);
            }
        }
        lemma_unskipped_hits(rows, pairs.drop_last(), psel.drop_last());
        assert(pairs.drop_last().push(pairs.last()) =~= pairs);
        pairs.drop_last().lemma_filter_push(
            pairs.last(),
            |p: (Seq<char>, Seq<char>)| pitch_hit(rows, p),
        );
    }
}

/// The enabled frequency identities with explicit skip decisions:
/// `fsel[i]` true means dictionary `i`'s gather failed and it contributes
/// no list. With nothing skipped this is exactly `enabled_freq_idents`.
pub open spec fn enabled_freq_idents_sel(
    freqs: Seq<crate::registry::YomitanFrequencyDictionary>,
    disabled: Seq<Seq<char>>,
    fsel: Seq<bool>,
) -> Seq<Seq<char>>
    decreases freqs.len(),
{
    if freqs.len() == 0 || fsel.len() == 0 {
        Seq::empty()
    } else {
        let rest = enabled_freq_idents_sel(freqs.drop_last(), disabled, fsel.drop_last());
        let id = ident_of(freqs.last().0.index.title@, freqs.last().0.index.revision@);
        if disabled.contains(id) || fsel.last() {
            rest
        } else {
            rest.push(id)
        }
    }
}

pub open spec fn enabled_freq_indices_sel(
    freqs: Seq<crate::registry::YomitanFrequencyDictionary>,
    disabled: Seq<Seq<char>>,
    fsel: Seq<bool>,
) -> Seq<int>
    decreases freqs.len(),
{
    if freqs.len() == 0 || fsel.len() == 0 {
        Seq::empty()
    } else {
        let rest = enabled_freq_indices_sel(freqs.drop_last(), disabled, fsel.drop_last());
        let id = ident_of(freqs.last().0.index.title@, freqs.last().0.index.revision@);
        if disabled.contains(id) || fsel.last() {
            rest
        } else {
            rest.push(freqs.len() - 1)
        }
    }
}

/// The identities of enabled frequency dictionaries whose gather failed.
pub open spec fn skipped_freq_sel(
    freqs: Seq<crate::registry::YomitanFrequencyDictionary>,
    disabled: Seq<Seq<char>>,
    fsel: Seq<bool>,
) -> Seq<Seq<char>>
    decreases freqs.len(),
{
    if freqs.len() == 0 || fsel.len() == 0 {
        Seq::empty()
    } else {
        let rest = skipped_freq_sel(freqs.drop_last(), disabled, fsel.drop_last());
        let id = ident_of(freqs.last().0.index.title@, freqs.last().0.index.revision@);
        if !disabled.contains(id) && fsel.last() {
            rest.push(id)
        } else {
            rest
        }
    }
}

/// With no dictionary skipped, the selective frequency fan-out names the
/// enabled dictionaries exactly.
pub proof fn lemma_unskipped_freq(
    freqs: Seq<crate::registry::YomitanFrequencyDictionary>,
    disabled: Seq<Seq<char>>,
    fsel: Seq<bool>,
)
    requires
        fsel.len() == freqs.len(),
        skipped_freq_sel(freqs, disabled, fsel).len() == 0,
    ensures
        enabled_freq_idents_sel(freqs, disabled, fsel) == enabled_freq_idents(freqs, disabled),
        enabled_freq_indices_sel(freqs, disabled, fsel) == enabled_freq_indices(freqs, disabled),
    decreases freqs.len(),
{
    if freqs.len() > 0 {
        let id = ident_of(freqs.last().0.index.title@, freqs.last().0.index.revision@);
        assert(!(!disabled.contains(id) && fsel.last())) by {
            if !disabled.contains(id) && fsel.last() {
                assert(skipped_freq_sel(freqs, disabled, fsel).len() > 0);
            }
        }
        lemma_unskipped_freq(freqs.drop_last(), disabled, fsel.drop_last());
    }
}

/// The distinct dictionary forms of the candidates, first occurrences
/// first.
pub open spec fn dict_forms_fold(feats: Seq<TokenFeatureV>) -> Seq<Seq<char>>
    decreases feats.len(),
{
    if feats.len() == 0 {
        Seq::empty()
    } else {
        let rest = dict_forms_fold(feats.drop_last());
        match feats.last().dictionary_form {
            Some(d) => if rest.contains(d) {
                rest
            } else {
                rest.push(d)
            },
            None => rest,
        }
    }
}

/// The decoded rows a term-meta store answers one key with: a miss when
/// absent, none when a row fails to decode.
pub open spec fn probe_meta(rows: Seq<(Seq<char>, Seq<char>)>, key: Seq<char>) -> Option<
    Option<Seq<TermMetaEntryV>>,
> {
    match rows_get(rows, key) {
        None => Some(None),
        Some(payload) => match meta_entries_of_payload(payload) {
            Some(es) => Some(Some(es)),
            None => None,
        },
    }
}

/// Every entry gathered for a list of keys, in key order.
pub open spec fn freq_gather(
    rows: Seq<(Seq<char>, Seq<char>)>,
    keys: Seq<Seq<char>>,
) -> Option<Seq<TermMetaEntryV>>
    decreases keys.len(),
{
    if keys.len() == 0 {
        Some(Seq::empty())
    } else {
        match (freq_gather(rows, keys.drop_last()), probe_meta(rows, keys.last())) {
            (Some(acc), Some(Some(es))) => Some(acc + es),
            (Some(acc), Some(None)) => Some(acc),
            _ => None,
        }
    }
}

/// The frequency rows the gathered entries contribute, in order: one per
/// entry whose payload is a frequency.
pub open spec fn freq_rows_of(es: Seq<TermMetaEntryV>) -> Seq<(Seq<char>, FrequencyUnionV)>
    decreases es.len(),
{
    if es.len() == 0 {
        Seq::empty()
    } else {
        let rest = freq_rows_of(es.drop_last());
        match freq_union_of(es.last()) {
            Some(u) => rest.push((es.last().term, u)),
            None => rest,
        }
    }
}

/// The identities of the enabled frequency dictionaries, in registry
/// order.
pub open spec fn enabled_freq_idents(
    freqs: Seq<crate::registry::YomitanFrequencyDictionary>,
    disabled: Seq<Seq<char>>,
) -> Seq<Seq<char>>
    decreases freqs.len(),
{
    if freqs.len() == 0 {
        Seq::empty()
    } else {
        let rest = enabled_freq_idents(freqs.drop_last(), disabled);
        let id = ident_of(
            freqs.last().0.index.title@,
            freqs.last().0.index.revision@,
        );
        if disabled.contains(id) {
            rest
        } else {
            rest.push(id)
        }
    }
}

/// The registry positions of the enabled frequency dictionaries.
pub open spec fn enabled_freq_indices(
    freqs: Seq<crate::registry::YomitanFrequencyDictionary>,
    disabled: Seq<Seq<char>>,
) -> Seq<int>
    decreases freqs.len(),
{
    if freqs.len() == 0 {
        Seq::empty()
    } else {
        let rest = enabled_freq_indices(freqs.drop_last(), disabled);
        let id = ident_of(
            freqs.last().0.index.title@,
            freqs.last().0.index.revision@,
        );
        if disabled.contains(id) {
            rest
        } else {
            rest.push(freqs.len() - 1)
        }
    }
}

/// The views of gathered meta entries.
pub open spec fn metas_view(es: Seq<crate::term_meta_bank::TermMetaEntry>) -> Seq<TermMetaEntryV> {
    es.map_values(|e: crate::term_meta_bank::TermMetaEntry| e@)
}

/// The model of one term dictionary, as the lookup spec sees it.
pub struct DictModel {
    pub title: Seq<char>,
    pub revision: Seq<char>,
    pub origin: Seq<char>,
    pub rows: Seq<(Seq<char>, Seq<char>)>,
}

pub struct DictResultV {
    pub title: Seq<char>,
    pub revision: Seq<char>,
    pub origin: Seq<char>,
    pub entries: Seq<TermEntryV>,
}

/// The identity a dictionary is filtered by: `title#revision`.
pub open spec fn ident_of(title: Seq<char>, revision: Seq<char>) -> Seq<char> {
    title + seq!['#'] + revision
}

/// The term fan-out over a dictionary list: disabled dictionaries are
/// skipped, a dictionary whose entries fail to decode is skipped, and an
/// empty result is dropped.
pub open spec fn dict_part_spec(
    dicts: Seq<DictModel>,
    feats: Seq<TokenFeatureV>,
    disabled: Seq<Seq<char>>,
) -> Seq<DictResultV>
    decreases dicts.len(),
{
    if dicts.len() == 0 {
        Seq::empty()
    } else {
        let d = dicts[0];
        let rest = dict_part_spec(dicts.drop_first(), feats, disabled);
        if disabled.contains(ident_of(d.title, d.revision)) {
            rest
        } else {
            match dict_entries(d.rows, feats) {
                Some(es) => if es.len() > 0 {
                    seq![
                        DictResultV {
                            title: d.title,
                            revision: d.revision,
                            origin: d.origin,
                            entries: es,
                        },
                    ] + rest
                } else {
                    rest
                },
                None => rest,
            }
        }
    }
}

/// Narrowing the enabled set only narrows the result: everything the
/// fan-out returns under a disabled set it also returns with nothing
/// disabled, and nothing it returns comes from a disabled dictionary.
pub proof fn lemma_lookup_superset(
    dicts: Seq<DictModel>,
    feats: Seq<TokenFeatureV>,
    disabled: Seq<Seq<char>>,
)
    ensures
        forall|k: int|
            0 <= k < dict_part_spec(dicts, feats, disabled).len() ==> dict_part_spec(
                dicts,
                feats,
                Seq::empty(),
            ).contains(#[trigger] dict_part_spec(dicts, feats, disabled)[k]),
        forall|k: int|
            0 <= k < dict_part_spec(dicts, feats, disabled).len() ==> !disabled.contains(
                ident_of(
                    (#[trigger] dict_part_spec(dicts, feats, disabled)[k]).title,
                    dict_part_spec(dicts, feats, disabled)[k].revision,
                ),
            ),
    decreases dicts.len(),
{
    if dicts.len() > 0 {
        lemma_lookup_superset(dicts.drop_first(), feats, disabled);
        let d = dicts[0];
        let with_d = dict_part_spec(dicts, feats, disabled);
        let with_none = dict_part_spec(dicts, feats, Seq::empty());
        let rest_d = dict_part_spec(dicts.drop_first(), feats, disabled);
        let rest_none = dict_part_spec(dicts.drop_first(), feats, Seq::empty());
        assert(!Seq::<Seq<char>>::empty().contains(ident_of(d.title, d.revision)));
        assert forall|k: int| 0 <= k < with_d.len() implies with_none.contains(
            #[trigger] with_d[k],
        ) && !disabled.contains(ident_of(with_d[k].title, with_d[k].revision)) by {
            let own = !disabled.contains(ident_of(d.title, d.revision)) && (match dict_entries(
                d.rows,
                feats,
            ) {
                Some(es) => es.len() > 0,
                None => false,
            });
            if own && k == 0 {
                assert(with_none[0] == with_d[0]);
                assert(with_none.contains(with_d[0]));
            } else {
                let kk = if own {
                    k - 1
                } else {
                    k
                };
                assert(with_d[k] == rest_d[kk]);
                assert(rest_none.contains(rest_d[kk]));
                let w = choose|w: int| 0 <= w < rest_none.len() && rest_none[w] == rest_d[kk];
                if match dict_entries(d.rows, feats) {
                    Some(es) => es.len() > 0,
                    None => false,
                } {
                    assert(with_none[w + 1] == rest_none[w]);
                    assert(with_none.contains(with_d[k]));
                } else {
                    assert(with_none[w] == rest_none[w]);
                    assert(with_none.contains(with_d[k]));
                }
            }
        }
    }
}

/// The rows of a dictionary's term store; an absent store holds none.
pub open spec fn term_rows(d: &crate::registry::YomitanDictionary) -> Seq<(Seq<char>, Seq<char>)> {
    match d.term_bank {
        Some(s) => s.rows(),
        None => Seq::empty(),
    }
}

pub open spec fn term_entries_view(es: Seq<crate::term_bank::TermEntry>) -> Seq<TermEntryV> {
    es.map_values(|e: crate::term_bank::TermEntry| e@)
}

proof fn lemma_term_list_none(items: Seq<JsonV>, i: int)
    requires
        0 <= i < items.len(),
        term_entry_of(items[i]) is None,
    ensures
        term_list_of(items) is None,
    decreases items.len(),
{
    if i > 0 {
        lemma_term_list_none(items.drop_first(), i - 1);
    }
}

proof fn lemma_term_list_some(items: Seq<JsonV>)
    requires
        forall|i: int| 0 <= i < items.len() ==> #[trigger] term_entry_of(items[i]) is Some,
    ensures
        term_list_of(items) is Some,
        term_list_of(items)->0.len() == items.len(),
        forall|i: int| 0 <= i < items.len() ==> term_list_of(items)->0[i] == #[trigger] term_entry_of(
            items[i],
        )->0,
    decreases items.len(),
{
    if items.len() > 0 {
        lemma_term_list_some(items.drop_first());
        let ts = term_list_of(items)->0;
        let rest = term_list_of(items.drop_first())->0;
        assert forall|i: int| 0 <= i < items.len() implies ts[i] == #[trigger] term_entry_of(
            items[i],
        )->0 by {
            if i > 0 {
                assert(ts[i] == rest[i - 1]);
                assert(items.drop_first()[i - 1] == items[i]);
            }
        }
    }
}

/// Decodes one stored term payload: the JSON array of term rows under one
/// key.
pub fn decode_term_entries(payload: &str) -> (r: Result<Vec<crate::term_bank::TermEntry>, DictError>)
    ensures
        match r {
            Ok(es) => entries_of_payload(payload@) == Some(term_entries_view(es@)),
            Err(e) => entries_of_payload(payload@) is None && e.kind == ErrorKind::SchemaDecode,
        },
{
    let parsed = match crate::json::parse_json(payload) {
        Some(v) => v,
        None => {
            return Err(DictError {
                kind: ErrorKind::SchemaDecode,
                message: String::from_str("stored term payload is not valid JSON"),
            });
        },
    };
    let items = match parsed {
        crate::json::JsonValue::Arr(items) => items,
        other => {
            proof {
                crate::json::lemma_arr_view(other);
            }
            return Err(DictError {
                kind: ErrorKind::SchemaDecode,
                message: String::from_str("stored term payload is not an array"),
            });
        },
    };
    let ghost orig = crate::json::json_view_seq(items@);
    proof {
        crate::json::lemma_json_view_seq_index(items@);
        assert(json_of(payload@) == Some(JsonV::Arr(orig)));
    }
    let mut out: Vec<crate::term_bank::TermEntry> = Vec::new();
    let n = items.len();
    let mut i: usize = 0;
    while i < n
        invariant
            i <= n,
            n == items@.len(),
            orig == crate::json::json_view_seq(items@),
            json_of(payload@) == Some(JsonV::Arr(orig)),
            orig.len() == n,
            forall|j: int| 0 <= j < n ==> orig[j] == #[trigger] items@[j]@,
            out@.len() == i,
            forall|j: int| 0 <= j < i ==> #[trigger] term_entry_of(orig[j]) is Some
                && term_entry_of(orig[j])->0 == out@[j]@,
        decreases n - i,
    {
        let x = crate::json::clone_json(&items[i]);
        proof {
            assert(x@ == orig[i as int]);
        }
        match crate::term_bank::decode_term_entry(x) {
            Some(e) => {
                out.push(e);
            },
            None => {
                proof {
                    lemma_term_list_none(orig, i as int);
                }
                return Err(DictError {
                    kind: ErrorKind::SchemaDecode,
                    message: String::from_str("stored term entry has an unexpected shape"),
                });
            },
        }
        i = i + 1;
    }
    proof {
        lemma_term_list_some(orig);
        assert(term_entries_view(out@).len() == term_list_of(orig)->0.len());
        assert forall|j: int| 0 <= j < out@.len() implies term_entries_view(out@)[j]
            == term_list_of(orig)->0[j] by {
            assert(term_entries_view(out@)[j] == out@[j]@);
        }
        assert(term_entries_view(out@) =~= term_list_of(orig)->0);
    }
    Ok(out)
}

impl crate::registry::YomitanTermDictionary {
    /// Probes the term store for one key and decodes the hit. Where the
    /// store keeps its keys unique — as grouping guarantees — the answer
    /// is exactly what `term_hits` names.
    pub fn lookup_term(&self, term: &str) -> (r: Result<
        Option<Vec<crate::term_bank::TermEntry>>,
        DictError,
    >)
        ensures
            match r {
                Ok(Some(es)) => unique_keys(term_rows(&self.0)) ==> term_hits(
                    term_rows(&self.0),
                    term@,
                ) == Some(Some(term_entries_view(es@))),
                Ok(None) => rows_get(term_rows(&self.0), term@) is None,
                Err(e) => e.kind == ErrorKind::Storage || e.kind == ErrorKind::SchemaDecode,
            },
    {
        let db = match &self.0.term_bank {
            Some(db) => db,
            None => {
                return Err(DictError {
                    kind: ErrorKind::Storage,
                    message: String::from_str("term store is not present"),
                });
            },
        };
        match db.get(term) {
            Ok(None) => {
                proof {
                    lemma_rows_get_absent(db.rows(), term@);
                }
                Ok(None)
            },
            Ok(Some(payload)) => {
                proof {
                    if unique_keys(db.rows()) {
                        let i = choose|i: int|
                            0 <= i < db.rows().len() && #[trigger] db.rows()[i] == (
                                term@,
                                payload@,
                            );
                        lemma_rows_get_unique(db.rows(), i);
                    }
                }
                match decode_term_entries(payload.as_str()) {
                    Ok(es) => Ok(Some(es)),
                    Err(e) => Err(e),
                }
            },
            Err(e) => Err(e),
        }
    }

    /// Gathers the entries of every candidate, in candidate order, with
    /// the katakana fallback of `feature_entries`. Where the term store
    /// keeps its keys unique, the result is exactly `dict_entries`; an
    /// empty candidate list always answers with no entries.
    pub fn lookup(&self, token_features: &Vec<crate::tokens::TokenFeature>) -> (r: Result<
        DictionaryResult,
        DictError,
    >)
        ensures
            token_features@.len() == 0 ==> r is Ok && r->Ok_0.entries@.len() == 0,
            match r {
                Ok(dr) => {
                    &&& dr.title@ == self.0.index.title@
                    &&& dr.revision@ == self.0.index.revision@
                    &&& dr.origin@ == self.0.origin@
                    &&& (unique_keys(term_rows(&self.0)) ==> dict_entries(
                        term_rows(&self.0),
                        crate::tokens::tokens_view(token_features@),
                    ) == Some(term_entries_view(dr.entries@)))
                },
                Err(e) => e.kind == ErrorKind::Storage || e.kind == ErrorKind::SchemaDecode,
            },
    {
        let ghost rows = term_rows(&self.0);
        let ghost feats = crate::tokens::tokens_view(token_features@);
        let mut results: Vec<crate::term_bank::TermEntry> = Vec::new();
        let n = token_features.len();
        let mut i: usize = 0;
        while i < n
            invariant
                i <= n,
                n == token_features@.len(),
                rows == term_rows(&self.0),
                feats == crate::tokens::tokens_view(token_features@),
                feats.len() == n,
                forall|j: int| 0 <= j < n ==> feats[j] == (#[trigger] token_features@[j])@,
                n == 0 ==> results@.len() == 0,
                unique_keys(rows) ==> dict_entries(rows, feats.take(i as int)) == Some(
                    term_entries_view(results@),
                ),
            decreases n - i,
        {
            let f = &token_features[i];
            let ghost before = results@;
            let mut gathered: Vec<crate::term_bank::TermEntry> = Vec::new();
            match &f.surface_form {
                Some(s) => {
                    match self.lookup_term(s.as_str()) {
                        Ok(Some(es)) => {
                            gathered = es;
                        },
                        Ok(None) => {
                            if crate::text::is_all_katakana(s.as_str()) {
                                let h = crate::text::to_hiragana(s.as_str());
                                match self.lookup_term(h.as_str()) {
                                    Ok(Some(es)) => {
                                        gathered = es;
                                    },
                                    Ok(None) => {},
                                    Err(e) => {
                                        return Err(e);
                                    },
                                }
                            }
                        },
                        Err(e) => {
                            return Err(e);
                        },
                    }
                },
                None => {},
            }
            let ghost surface_gathered = gathered@;
            match &f.dictionary_form {
                Some(d) => {
                    let differs = match &f.surface_form {
                        Some(s) => !crate::text::str_eq(s.as_str(), d.as_str()),
                        None => true,
                    };
                    if differs {
                        match self.lookup_term(d.as_str()) {
                            Ok(Some(mut es)) => {
                                gathered.append(&mut es);
                            },
                            Ok(None) => {},
                            Err(e) => {
                                return Err(e);
                            },
                        }
                    }
                },
                None => {},
            }
            proof {
                if unique_keys(rows) {
                    assert(feats[i as int] == token_features@[i as int]@);
                    assert(term_entries_view(gathered@) =~= term_entries_view(surface_gathered)
                        + term_entries_view(gathered@.skip(surface_gathered.len() as int)));
                    assert(feature_entries(rows, feats[i as int]) == Some(
                        term_entries_view(gathered@),
                    ));
                }
            }
            let mut gathered = gathered;
            results.append(&mut gathered);
            proof {
                if unique_keys(rows) {
                    assert(feats.take(i + 1).drop_last() =~= feats.take(i as int));
                    assert(feats.take(i + 1).last() == feats[i as int]);
                    assert(term_entries_view(results@) =~= term_entries_view(before)
                        + term_entries_view(results@.skip(before.len() as int)));
                    lemma_dict_entries_snoc(rows, feats.take(i + 1));
                }
            }
            i = i + 1;
        }
        proof {
            assert(feats.take(n as int) =~= feats);
        }
        Ok(DictionaryResult {
            title: self.0.index.title.clone(),
            revision: self.0.index.revision.clone(),
            origin: self.0.origin.clone(),
            entries: results,
        })
    }
}

/// `dict_entries` over one more candidate at the end.
proof fn lemma_dict_entries_snoc(rows: Seq<(Seq<char>, Seq<char>)>, feats: Seq<TokenFeatureV>)
    requires
        feats.len() > 0,
    ensures
        dict_entries(rows, feats) == (match (
            dict_entries(rows, feats.drop_last()),
            feature_entries(rows, feats.last()),
        ) {
            (Some(a), Some(b)) => Some(a + b),
            _ => None::<Seq<TermEntryV>>,
        }),
    decreases feats.len(),
{
    if feats.len() == 1 {
        assert(feats.drop_last() =~= Seq::<TokenFeatureV>::empty());
        assert(feats.drop_first() =~= Seq::<TokenFeatureV>::empty());
        match feature_entries(rows, feats[0]) {
            Some(a) => {
                assert(dict_entries(rows, feats) == Some(a + Seq::<TermEntryV>::empty()));
                assert(a + Seq::<TermEntryV>::empty() =~= a);
                assert(Seq::<TermEntryV>::empty() + a =~= a);
            },
            None => {},
        }
    } else {
        lemma_dict_entries_snoc(rows, feats.drop_first());
        assert(feats.drop_first().drop_last() =~= feats.drop_last().drop_first());
        assert(feats.drop_first().last() == feats.last());
        assert(feats.drop_last()[0] == feats[0]);
        assert(feats.drop_last().len() > 0);
        match (
            feature_entries(rows, feats[0]),
            dict_entries(rows, feats.drop_last().drop_first()),
            feature_entries(rows, feats.last()),
        ) {
            (Some(a), Some(m), Some(b)) => {
                assert(dict_entries(rows, feats.drop_first()) == Some(m + b));
                assert(dict_entries(rows, feats) == Some(a + (m + b)));
                assert(dict_entries(rows, feats.drop_last()) == Some(a + m));
                assert(a + (m + b) =~= (a + m) + b);
            },
            _ => {},
        }
    }
}

/// One gathered dictionary result.
#[derive(Debug)]
pub struct DictionaryResult {
    pub title: String,
    pub revision: String,
    pub origin: String,
    pub entries: Vec<crate::term_bank::TermEntry>,
}

/// The rows of a dictionary's term-meta store; an absent store holds none.
pub open spec fn meta_rows(d: &crate::registry::YomitanDictionary) -> Seq<(Seq<char>, Seq<char>)> {
    match d.term_meta_bank {
        Some(s) => s.rows(),
        None => Seq::empty(),
    }
}

/// A mora-bearing character: anything but the three small kana.
pub open spec fn is_mora(c: char) -> bool {
    c != 'ょ' && c != 'ゃ' && c != 'ゅ'
}

/// The mora count of a reading: its characters less the small kana.
pub open spec fn mora_of(s: Seq<char>) -> int {
    s.filter(|c: char| is_mora(c)).len() as int
}

/// Counts the morae of a reading.
pub fn count_morae(s: &str) -> (r: usize)
    ensures
        r as int == mora_of(s@),
{
    broadcast use vstd::prelude::Seq::lemma_filter_push;

    let n = s.unicode_len();
    let mut count: usize = 0;
    let mut i: usize = 0;
    while i < n
        invariant
            i <= n,
            n == s@.len(),
            count as int == mora_of(s@.take(i as int)),
            count <= i,
        decreases n - i,
    {
        let c = s.get_char(i);
        proof {
            let pre = s@.take(i as int);
            let c0 = s@[i as int];
            assert(pre.push(c0) =~= s@.take(i + 1));
            pre.lemma_filter_push(c0, |x: char| is_mora(x));
        }
        if c != 'ょ' && c != 'ゃ' && c != 'ゅ' {
            count = count + 1;
        }
        i = i + 1;
    }
    proof {
        assert(s@.take(n as int) =~= s@);
    }
    count
}

/// One pitch accent of a reading.
#[derive(Debug)]
pub struct PitchAccent {
    pub reading: String,
    pub position: u8,
    pub mora_count: u8,
}

#[derive(Debug)]
pub struct PitchAccents(pub Vec<PitchAccent>);

/// The pitch answer of one dictionary for one text/reading pair.
#[derive(Debug)]
pub struct PitchResult {
    pub title: String,
    pub pitch_accents: PitchAccents,
}

impl PitchAccents {
    /// One accent per stored pitch record: the stored reading carried
    /// verbatim (the service boundary converts it to hiragana once), the
    /// stored position, and the reading's mora count.
    pub fn from(pitch_data: &crate::term_meta_bank::PitchData) -> (r: PitchAccents)
        ensures
            r.0@.len() == pitch_data.pitches@.len(),
            forall|i: int|
                0 <= i < r.0@.len() ==> (#[trigger] r.0@[i]).reading@ == pitch_data.reading@,
            forall|i: int|
                0 <= i < r.0@.len() ==> (0 <= pitch_data.pitches@[i].position <= 255 ==> (
                #[trigger] r.0@[i]).position == pitch_data.pitches@[i].position),
            forall|i: int|
                0 <= i < r.0@.len() ==> (mora_of(pitch_data.reading@) <= 255 ==> (
                #[trigger] r.0@[i]).mora_count == mora_of(pitch_data.reading@)),
    {
        let morae = count_morae(pitch_data.reading.as_str());
        let mora_count: u8 = if morae <= 255 {
            morae as u8
        } else {
            255
        };
        let mut out: Vec<PitchAccent> = Vec::new();
        let n = pitch_data.pitches.len();
        let mut i: usize = 0;
        while i < n
            invariant
                i <= n,
                n == pitch_data.pitches@.len(),
                morae as int == mora_of(pitch_data.reading@),
                mora_count == if morae <= 255 {
                    morae as u8
                } else {
                    255u8
                },
                out@.len() == i,
                forall|j: int|
                    0 <= j < i ==> (#[trigger] out@[j]).reading@ == pitch_data.reading@,
                forall|j: int|
                    0 <= j < i ==> (0 <= pitch_data.pitches@[j].position <= 255 ==> (
                    #[trigger] out@[j]).position == pitch_data.pitches@[j].position),
                forall|j: int|
                    0 <= j < i ==> (mora_of(pitch_data.reading@) <= 255 ==> (
                    #[trigger] out@[j]).mora_count == mora_of(pitch_data.reading@)),
            decreases n - i,
        {
            let p = pitch_data.pitches[i].position;
            let position: u8 = if 0 <= p && p <= 255 {
                p as u8
            } else {
                #[verifier::truncate] (p as u8)
            };
            out.push(PitchAccent { reading: pitch_data.reading.clone(), position, mora_count });
            i = i + 1;
        }
        PitchAccents(out)
    }
}

impl crate::registry::YomitanPitchDictionary {
    /// Probes the pitch dictionary for a text and reading: the first
    /// stored pitch entry whose term and reading both match. A returned
    /// payload always carries the requested reading, and where the store
    /// keeps its keys unique the answer is exactly what `pitch_probe`
    /// names.
    pub fn lookup(&self, term: &str, reading: &str) -> (r: Result<
        Option<crate::term_meta_bank::PitchData>,
        DictError,
    >)
        ensures
            match r {
                Ok(Some(pd)) => pd.reading@ == reading@ && (unique_keys(meta_rows(&self.0))
                    ==> pitch_probe(meta_rows(&self.0), term@, reading@) == Some(Some(pd@))),
                Ok(None) => unique_keys(meta_rows(&self.0)) ==> pitch_probe(
                    meta_rows(&self.0),
                    term@,
                    reading@,
                ) == Some(None::<PitchDataV>),
                Err(e) => e.kind == ErrorKind::Storage || e.kind == ErrorKind::SchemaDecode,
            },
    {
        let db = match &self.0.term_meta_bank {
            Some(db) => db,
            None => {
                return Err(DictError {
                    kind: ErrorKind::Storage,
                    message: String::from_str("term meta store is not present"),
                });
            },
        };
        let payload = match db.get(term) {
            Ok(Some(p)) => p,
            Ok(None) => {
                proof {
                    lemma_rows_get_absent(db.rows(), term@);
                }
                return Ok(None);
            },
            Err(e) => {
                return Err(e);
            },
        };
        proof {
            if unique_keys(db.rows()) {
                let i = choose|i: int|
                    0 <= i < db.rows().len() && #[trigger] db.rows()[i] == (term@, payload@);
                lemma_rows_get_unique(db.rows(), i);
            }
        }
        let parsed = match crate::json::parse_json(payload.as_str()) {
            Some(v) => v,
            None => {
                return Err(DictError {
                    kind: ErrorKind::SchemaDecode,
                    message: String::from_str("stored term meta payload is not valid JSON"),
                });
            },
        };
        let items = match parsed {
            crate::json::JsonValue::Arr(items) => items,
            _ => {
                return Err(DictError {
                    kind: ErrorKind::SchemaDecode,
                    message: String::from_str("stored term meta payload is not an array"),
                });
            },
        };
        let ghost iv = crate::json::json_view_seq(items@);
        proof {
            crate::json::lemma_json_view_seq_index(items@);
            assert(json_of(payload@) == Some(JsonV::Arr(iv)));
        }
        let n = items.len();
        let mut i: usize = 0;
        proof {
            assert(iv.skip(0) =~= iv);
        }
        while i < n
            invariant
                i <= n,
                n == items@.len(),
                iv == crate::json::json_view_seq(items@),
                iv.len() == n,
                forall|j: int| 0 <= j < n ==> iv[j] == #[trigger] items@[j]@,
                meta_rows(&self.0) == db.rows(),
                unique_keys(db.rows()) ==> rows_get(db.rows(), term@) == Some(payload@),
                json_of(payload@) == Some(JsonV::Arr(iv)),
                pitch_scan(iv, term@, reading@) == pitch_scan(
                    iv.skip(i as int),
                    term@,
                    reading@,
                ),
            decreases n - i,
        {
            proof {
                assert(iv.skip(i as int)[0] == iv[i as int]);
                assert(iv.skip(i as int).drop_first() =~= iv.skip(i + 1));
            }
            match crate::term_meta_bank::decode_term_meta_entry(&items[i]) {
                Some(entry) => {
                    if crate::text::str_eq(entry.term.as_str(), term) {
                        match entry.data {
                            crate::term_meta_bank::TermMetaData::Pitch(pd) => {
                                if crate::text::str_eq(pd.reading.as_str(), reading) {
                                    proof {
                                        assert(pitch_matches(
                                            term_meta_of(iv[i as int])->0,
                                            term@,
                                            reading@,
                                        ));
                                        assert(pitch_scan(iv.skip(i as int), term@, reading@)
                                            == Some(Some(pd@)));
                                    }
                                    return Ok(Some(pd));
                                }
                            },
                            _ => {},
                        }
                    }
                },
                None => {
                    return Err(DictError {
                        kind: ErrorKind::SchemaDecode,
                        message: String::from_str("stored term meta entry has an unexpected shape"),
                    });
                },
            }
            proof {
                assert(!pitch_matches(term_meta_of(iv[i as int])->0, term@, reading@));
            }
            i = i + 1;
        }
        proof {
            assert(iv.skip(n as int) =~= Seq::<JsonV>::empty());
        }
        Ok(None)
    }
}

proof fn lemma_meta_list_none(items: Seq<JsonV>, i: int)
    requires
        0 <= i < items.len(),
        term_meta_of(items[i]) is None,
    ensures
        meta_list_of(items) is None,
    decreases items.len(),
{
    if i > 0 {
        lemma_meta_list_none(items.drop_first(), i - 1);
    }
}

proof fn lemma_meta_list_some(items: Seq<JsonV>)
    requires
        forall|i: int| 0 <= i < items.len() ==> #[trigger] term_meta_of(items[i]) is Some,
    ensures
        meta_list_of(items) is Some,
        meta_list_of(items)->0.len() == items.len(),
        forall|i: int| 0 <= i < items.len() ==> meta_list_of(items)->0[i] == #[trigger] term_meta_of(
            items[i],
        )->0,
    decreases items.len(),
{
    if items.len() > 0 {
        lemma_meta_list_some(items.drop_first());
        let ms = meta_list_of(items)->0;
        let rest = meta_list_of(items.drop_first())->0;
        assert forall|i: int| 0 <= i < items.len() implies ms[i] == #[trigger] term_meta_of(
            items[i],
        )->0 by {
            if i > 0 {
                assert(ms[i] == rest[i - 1]);
                assert(items.drop_first()[i - 1] == items[i]);
            }
        }
    }
}

impl crate::registry::YomitanFrequencyDictionary {
    /// Probes the term-meta store for one dictionary form and decodes
    /// every entry under it. Where the store keeps its keys unique the
    /// answer is exactly what `probe_meta` names.
    pub fn lookup_term(&self, term: &str) -> (r: Result<
        Option<Vec<crate::term_meta_bank::TermMetaEntry>>,
        DictError,
    >)
        ensures
            match r {
                Ok(Some(es)) => unique_keys(meta_rows(&self.0)) ==> probe_meta(
                    meta_rows(&self.0),
                    term@,
                ) == Some(Some(metas_view(es@))),
                Ok(None) => rows_get(meta_rows(&self.0), term@) is None,
                Err(e) => e.kind == ErrorKind::Storage || e.kind == ErrorKind::SchemaDecode,
            },
    {
        let db = match &self.0.term_meta_bank {
            Some(db) => db,
            None => {
                return Err(DictError {
                    kind: ErrorKind::Storage,
                    message: String::from_str("term meta store is not present"),
                });
            },
        };
        let payload = match db.get(term) {
            Ok(Some(p)) => p,
            Ok(None) => {
                proof {
                    lemma_rows_get_absent(db.rows(), term@);
                }
                return Ok(None);
            },
            Err(e) => {
                return Err(e);
            },
        };
        proof {
            if unique_keys(db.rows()) {
                let i = choose|i: int|
                    0 <= i < db.rows().len() && #[trigger] db.rows()[i] == (term@, payload@);
                lemma_rows_get_unique(db.rows(), i);
            }
        }
        let parsed = match crate::json::parse_json(payload.as_str()) {
            Some(v) => v,
            None => {
                return Err(DictError {
                    kind: ErrorKind::SchemaDecode,
                    message: String::from_str("stored term meta payload is not valid JSON"),
                });
            },
        };
        let items = match parsed {
            crate::json::JsonValue::Arr(items) => items,
            _ => {
                return Err(DictError {
                    kind: ErrorKind::SchemaDecode,
                    message: String::from_str("stored term meta payload is not an array"),
                });
            },
        };
        let ghost iv = crate::json::json_view_seq(items@);
        proof {
            crate::json::lemma_json_view_seq_index(items@);
            assert(json_of(payload@) == Some(JsonV::Arr(iv)));
        }
        let mut out: Vec<crate::term_meta_bank::TermMetaEntry> = Vec::new();
        let n = items.len();
        let mut i: usize = 0;
        while i < n
            invariant
                i <= n,
                n == items@.len(),
                iv == crate::json::json_view_seq(items@),
                iv.len() == n,
                forall|j: int| 0 <= j < n ==> iv[j] == #[trigger] items@[j]@,
                out@.len() == i,
                forall|j: int| 0 <= j < i ==> #[trigger] term_meta_of(iv[j]) is Some
                    && term_meta_of(iv[j])->0 == out@[j]@,
            decreases n - i,
        {
            match crate::term_meta_bank::decode_term_meta_entry(&items[i]) {
                Some(entry) => {
                    out.push(entry);
                },
                None => {
                    return Err(DictError {
                        kind: ErrorKind::SchemaDecode,
                        message: String::from_str("stored term meta entry has an unexpected shape"),
                    });
                },
            }
            i = i + 1;
        }
        proof {
            lemma_meta_list_some(iv);
            assert(metas_view(out@).len() == meta_list_of(iv)->0.len());
            assert forall|j: int| 0 <= j < out@.len() implies metas_view(out@)[j] == meta_list_of(
                iv,
            )->0[j] by {
                assert(metas_view(out@)[j] == out@[j]@);
            }
            assert(metas_view(out@) =~= meta_list_of(iv)->0);
        }
        Ok(Some(out))
    }

    /// Gathers every entry of every distinct dictionary form among the
    /// candidates, first occurrences first. Where the store keeps its
    /// keys unique the result is exactly `freq_gather` over those forms.
    pub fn lookup_terms(&self, token_features: &Vec<crate::tokens::TokenFeature>) -> (r: Result<
        Vec<crate::term_meta_bank::TermMetaEntry>,
        DictError,
    >)
        ensures
            match r {
                Ok(es) => unique_keys(meta_rows(&self.0)) ==> freq_gather(
                    meta_rows(&self.0),
                    dict_forms_fold(crate::tokens::tokens_view(token_features@)),
                ) == Some(metas_view(es@)),
                Err(e) => e.kind == ErrorKind::Storage || e.kind == ErrorKind::SchemaDecode,
            },
    {
        let ghost feats = crate::tokens::tokens_view(token_features@);
        let mut seen: Vec<String> = Vec::new();
        let n = token_features.len();
        let mut i: usize = 0;
        let mut out: Vec<crate::term_meta_bank::TermMetaEntry> = Vec::new();
        while i < n
            invariant
                i <= n,
                n == token_features@.len(),
                feats == crate::tokens::tokens_view(token_features@),
                feats.len() == n,
                forall|j: int| 0 <= j < n ==> feats[j] == (#[trigger] token_features@[j])@,
                seen.deep_view() =~= dict_forms_fold(feats.take(i as int)),
                unique_keys(meta_rows(&self.0)) ==> freq_gather(
                    meta_rows(&self.0),
                    dict_forms_fold(feats.take(i as int)),
                ) == Some(metas_view(out@)),
            decreases n - i,
        {
            proof {
                assert(feats.take(i + 1).drop_last() =~= feats.take(i as int));
                assert(feats.take(i + 1).last() == feats[i as int]);
            }
            match &token_features[i].dictionary_form {
                Some(d) => {
                    let mut already = false;
                    let mut k: usize = 0;
                    let sn = seen.len();
                    while k < sn
                        invariant
                            k <= sn,
                            sn == seen@.len(),
                            already ==> exists|j: int|
                                0 <= j < seen@.len() && (#[trigger] seen@[j])@ == d@,
                            !already ==> forall|j: int|
                                0 <= j < k ==> (#[trigger] seen@[j])@ != d@,
                        decreases sn - k,
                    {
                        if crate::text::str_eq(seen[k].as_str(), d.as_str()) {
                            already = true;
                        }
                        k = k + 1;
                    }
                    proof {
                        if already {
                            let w = choose|j: int|
                                0 <= j < seen@.len() && (#[trigger] seen@[j])@ == d@;
                            assert(seen.deep_view()[w] == d@);
                            assert(seen.deep_view().contains(d@));
                        } else {
                            if seen.deep_view().contains(d@) {
                                let w = choose|j: int|
                                    0 <= j < seen.deep_view().len() && seen.deep_view()[j] == d@;
                                assert(seen@[w]@ == d@);
                                assert(false);
                            }
                        }
                    }
                    if !already {
                        seen.push(d.clone());
                        proof {
                            assert(seen.deep_view() =~= dict_forms_fold(feats.take(i + 1)));
                        }
                        proof {
                            assert(dict_forms_fold(feats.take(i + 1)).drop_last()
                                =~= dict_forms_fold(feats.take(i as int)));
                            assert(dict_forms_fold(feats.take(i + 1)).last() == d@);
                        }
                        match self.lookup_term(d.as_str()) {
                            Ok(Some(es)) => {
                                let ghost esv = es@;
                                let mut es = es;
                                let ghost before = out@;
                                out.append(&mut es);
                                proof {
                                    if unique_keys(meta_rows(&self.0)) {
                                        assert(probe_meta(meta_rows(&self.0), d@) == Some(
                                            Some(metas_view(esv)),
                                        ));
                                        assert(out@ =~= before + esv);
                                        assert(metas_view(out@) =~= metas_view(before)
                                            + metas_view(esv)) by {
                                            assert(forall|j: int|
                                                0 <= j < out@.len() ==> metas_view(out@)[j] == (
                                                #[trigger] out@[j])@);
                                        }
                                        assert(freq_gather(
                                            meta_rows(&self.0),
                                            dict_forms_fold(feats.take(i + 1)),
                                        ) == Some(metas_view(out@)));
                                    }
                                }
                            },
                            Ok(None) => {
                                proof {
                                    assert(probe_meta(meta_rows(&self.0), d@) == Some(
                                        None::<Seq<TermMetaEntryV>>,
                                    ));
                                    if unique_keys(meta_rows(&self.0)) {
                                        assert(freq_gather(
                                            meta_rows(&self.0),
                                            dict_forms_fold(feats.take(i + 1)),
                                        ) == Some(metas_view(out@)));
                                    }
                                }
                            },
                            Err(e) => {
                                return Err(e);
                            },
                        }
                    } else {
                        proof {
                            assert(dict_forms_fold(feats.take(i + 1)) == dict_forms_fold(
                                feats.take(i as int),
                            ));
                        }
                    }
                },
                None => {},
            }
            i = i + 1;
        }
        proof {
            assert(feats.take(n as int) =~= feats);
        }
        Ok(out)
    }
}

/// The per-user lookup settings: dictionary orders and disabled sets,
/// identified as `title#revision`.
#[derive(Debug)]
pub struct UserPreferences {
    pub term_dictionary_order: Vec<String>,
    pub term_disabled_dictionaries: Vec<String>,
    pub term_spoiler_dictionaries: Vec<String>,
    pub freq_dictionary_order: Vec<String>,
    pub freq_disabled_dictionaries: Vec<String>,
}

impl UserPreferences {
    /// Default preferences: every dictionary enabled, orders as listed.
    pub fn default_for(dictionary_info: &Vec<crate::registry::DictionaryInfo>) -> (r:
        UserPreferences)
        ensures
            r.term_disabled_dictionaries@.len() == 0,
            r.freq_disabled_dictionaries@.len() == 0,
    {
        let mut term_order: Vec<String> = Vec::new();
        let mut freq_order: Vec<String> = Vec::new();
        let n = dictionary_info.len();
        let mut i: usize = 0;
        while i < n
            invariant
                i <= n,
                n == dictionary_info@.len(),
            decreases n - i,
        {
            let d = &dictionary_info[i];
            let ident = dictionary_ident(d.title.as_str(), d.revision.as_str());
            match d.dictionary_type {
                crate::registry::DictionaryType::Term => {
                    term_order.push(ident);
                },
                crate::registry::DictionaryType::Frequency => {
                    freq_order.push(ident);
                },
                _ => {},
            }
            i = i + 1;
        }
        UserPreferences {
            term_dictionary_order: term_order,
            term_disabled_dictionaries: Vec::new(),
            term_spoiler_dictionaries: Vec::new(),
            freq_dictionary_order: freq_order,
            freq_disabled_dictionaries: Vec::new(),
        }
    }
}

/// The `title#revision` identity of a dictionary.
pub fn dictionary_ident(title: &str, revision: &str) -> (r: String)
    ensures
        r@ == ident_of(title@, revision@),
{
    let mut out = String::from_str(title);
    crate::text::push_char(&mut out, '#');
    out.append(revision);
    proof {
        assert(out@ =~= ident_of(title@, revision@));
    }
    out
}

/// One frequency annotation of a looked-up term.
#[derive(Debug)]
pub struct FrequencyData {
    pub term: String,
    pub reading: Option<String>,
    pub value: Option<i32>,
    pub display_value: Option<String>,
}

/// The assembled lookup answer: per-dictionary term results, a pitch map
/// keyed by text then reading, and per-dictionary frequency annotations.
#[derive(Debug)]
pub struct LookupResult {
    pub dict: Vec<DictionaryResult>,
    pub pitch: Vec<(String, Vec<(String, PitchResult)>)>,
    pub freq: Vec<(String, Vec<FrequencyData>)>,
    /// The identities of term dictionaries whose probe failed and which
    /// were therefore left out, in registry order.
    pub skipped: Vec<String>,
    /// The text/reading pairs whose pitch probe failed and which are
    /// therefore absent from the pitch map, in collection order.
    pub pitch_skipped: Vec<(String, String)>,
    /// The identities of enabled frequency dictionaries whose gather
    /// failed and which therefore contribute no list, in registry order.
    pub freq_skipped: Vec<String>,
}

/// The (text, reading) views of collected pairs.
pub open spec fn pairs_view(tr: Seq<(String, String)>) -> Seq<(Seq<char>, Seq<char>)> {
    tr.map_values(|p: (String, String)| (p.0@, p.1@))
}

pub open spec fn dict_result_view(dr: DictionaryResult) -> DictResultV {
    DictResultV {
        title: dr.title@,
        revision: dr.revision@,
        origin: dr.origin@,
        entries: term_entries_view(dr.entries@),
    }
}


/// The fan-out with explicit skip decisions: `sel[i]` true means the
/// engine abandoned dictionary `i` after an environmental failure. With
/// nothing skipped this is exactly `dict_part_spec`.
pub open spec fn dict_part_sel(
    dicts: Seq<DictModel>,
    feats: Seq<TokenFeatureV>,
    disabled: Seq<Seq<char>>,
    sel: Seq<bool>,
) -> Seq<DictResultV>
    decreases dicts.len(),
{
    if dicts.len() == 0 || sel.len() == 0 {
        Seq::empty()
    } else {
        let d = dicts[0];
        let rest = dict_part_sel(dicts.drop_first(), feats, disabled, sel.drop_first());
        if sel[0] || disabled.contains(ident_of(d.title, d.revision)) {
            rest
        } else {
            match dict_entries(d.rows, feats) {
                Some(es) => if es.len() > 0 {
                    seq![
                        DictResultV {
                            title: d.title,
                            revision: d.revision,
                            origin: d.origin,
                            entries: es,
                        },
                    ] + rest
                } else {
                    rest
                },
                None => rest,
            }
        }
    }
}

/// The identities of the skipped dictionaries, in registry order.
pub open spec fn skipped_sel(dicts: Seq<DictModel>, sel: Seq<bool>) -> Seq<Seq<char>>
    decreases dicts.len(),
{
    if dicts.len() == 0 || sel.len() == 0 {
        Seq::empty()
    } else {
        let rest = skipped_sel(dicts.drop_first(), sel.drop_first());
        if sel[0] {
            seq![ident_of(dicts[0].title, dicts[0].revision)] + rest
        } else {
            rest
        }
    }
}

proof fn lemma_dict_part_sel_snoc(
    dicts: Seq<DictModel>,
    feats: Seq<TokenFeatureV>,
    disabled: Seq<Seq<char>>,
    sel: Seq<bool>,
    d: DictModel,
    b: bool,
)
    requires
        sel.len() == dicts.len(),
    ensures
        dict_part_sel(dicts.push(d), feats, disabled, sel.push(b)) == dict_part_sel(
            dicts,
            feats,
            disabled,
            sel,
        ) + (if b || disabled.contains(ident_of(d.title, d.revision)) {
            Seq::<DictResultV>::empty()
        } else {
            match dict_entries(d.rows, feats) {
                Some(es) => if es.len() > 0 {
                    seq![
                        DictResultV {
                            title: d.title,
                            revision: d.revision,
                            origin: d.origin,
                            entries: es,
                        },
                    ]
                } else {
                    Seq::empty()
                },
                None => Seq::empty(),
            }
        }),
        skipped_sel(dicts.push(d), sel.push(b)) == skipped_sel(dicts, sel) + (if b {
            seq![ident_of(d.title, d.revision)]
        } else {
            Seq::<Seq<char>>::empty()
        }),
    decreases dicts.len(),
{
    if dicts.len() == 0 {
        assert(dicts.push(d)[0] == d);
        assert(sel.push(b)[0] == b);
        assert(dicts.push(d).drop_first() =~= dicts);
        assert(sel.push(b).drop_first() =~= sel);
        assert(dict_part_sel(dicts, feats, disabled, sel) =~= Seq::<DictResultV>::empty());
        assert(skipped_sel(dicts, sel) =~= Seq::<Seq<char>>::empty());
        assert(dict_part_sel(dicts.push(d), feats, disabled, sel.push(b)) =~= dict_part_sel(
            dicts,
            feats,
            disabled,
            sel,
        ) + (if b || disabled.contains(ident_of(d.title, d.revision)) {
            Seq::<DictResultV>::empty()
        } else {
            match dict_entries(d.rows, feats) {
                Some(es) => if es.len() > 0 {
                    seq![
                        DictResultV {
                            title: d.title,
                            revision: d.revision,
                            origin: d.origin,
                            entries: es,
                        },
                    ]
                } else {
                    Seq::empty()
                },
                None => Seq::empty(),
            }
        }));
        assert(skipped_sel(dicts.push(d), sel.push(b)) =~= skipped_sel(dicts, sel) + (if b {
            seq![ident_of(d.title, d.revision)]
        } else {
            Seq::<Seq<char>>::empty()
        }));
    } else {
        assert(dicts.push(d)[0] == dicts[0]);
        assert(sel.push(b)[0] == sel[0]);
        assert(dicts.push(d).drop_first() =~= dicts.drop_first().push(d));
        assert(sel.push(b).drop_first() =~= sel.drop_first().push(b));
        lemma_dict_part_sel_snoc(dicts.drop_first(), feats, disabled, sel.drop_first(), d, b);
        assert(dict_part_sel(dicts.push(d), feats, disabled, sel.push(b)) =~= dict_part_sel(
            dicts,
            feats,
            disabled,
            sel,
        ) + (if b || disabled.contains(ident_of(d.title, d.revision)) {
            Seq::<DictResultV>::empty()
        } else {
            match dict_entries(d.rows, feats) {
                Some(es) => if es.len() > 0 {
                    seq![
                        DictResultV {
                            title: d.title,
                            revision: d.revision,
                            origin: d.origin,
                            entries: es,
                        },
                    ]
                } else {
                    Seq::empty()
                },
                None => Seq::empty(),
            }
        }));
        assert(skipped_sel(dicts.push(d), sel.push(b)) =~= skipped_sel(dicts, sel) + (if b {
            seq![ident_of(d.title, d.revision)]
        } else {
            Seq::<Seq<char>>::empty()
        }));
    }
}

/// With nothing skipped, the selective fan-out is the fan-out itself.
pub proof fn lemma_unskipped_fanout(
    dicts: Seq<DictModel>,
    feats: Seq<TokenFeatureV>,
    disabled: Seq<Seq<char>>,
    sel: Seq<bool>,
)
    requires
        sel.len() == dicts.len(),
        skipped_sel(dicts, sel).len() == 0,
    ensures
        dict_part_sel(dicts, feats, disabled, sel) == dict_part_spec(dicts, feats, disabled),
    decreases dicts.len(),
{
    if dicts.len() > 0 {
        assert(!sel[0]) by {
            if sel[0] {
                assert(skipped_sel(dicts, sel).len() > 0);
            }
        }
        lemma_unskipped_fanout(dicts.drop_first(), feats, disabled, sel.drop_first());
    }
}

/// The results of every dictionary, viewed.
pub open spec fn results_view(rs: Seq<DictionaryResult>) -> Seq<DictResultV> {
    rs.map_values(|dr: DictionaryResult| dict_result_view(dr))
}

/// Whether some returned entry carries the given text and reading.
pub open spec fn pair_in_results(rs: Seq<DictionaryResult>, t: Seq<char>, rd: Seq<char>) -> bool {
    exists|dd: int, ee: int|
        0 <= dd < rs.len() && 0 <= ee < rs[dd].entries@.len() && (
        #[trigger] rs[dd].entries@[ee]).text@ == t && rs[dd].entries@[ee].reading@ == rd
}

/// The model of every term dictionary in the registry.
pub open spec fn term_models(terms: Seq<crate::registry::YomitanTermDictionary>) -> Seq<DictModel> {
    terms.map_values(
        |t: crate::registry::YomitanTermDictionary| DictModel {
            title: t.0.index.title@,
            revision: t.0.index.revision@,
            origin: t.0.origin@,
            rows: term_rows(&t.0),
        },
    )
}

/// Every term store keeps its keys unique, as grouping leaves them.
pub open spec fn all_term_stores_unique(
    terms: Seq<crate::registry::YomitanTermDictionary>,
) -> bool {
    forall|i: int| 0 <= i < terms.len() ==> unique_keys(term_rows(&(#[trigger] terms[i]).0))
}

/// An enabled dictionary with decodable, non-empty entries contributes its
/// result to the fan-out.
proof fn lemma_dict_part_member(
    dicts: Seq<DictModel>,
    feats: Seq<TokenFeatureV>,
    disabled: Seq<Seq<char>>,
    i: int,
)
    requires
        0 <= i < dicts.len(),
        !disabled.contains(ident_of(dicts[i].title, dicts[i].revision)),
        dict_entries(dicts[i].rows, feats) is Some,
        dict_entries(dicts[i].rows, feats)->0.len() > 0,
    ensures
        dict_part_spec(dicts, feats, disabled).contains(
            DictResultV {
                title: dicts[i].title,
                revision: dicts[i].revision,
                origin: dicts[i].origin,
                entries: dict_entries(dicts[i].rows, feats)->0,
            },
        ),
    decreases dicts.len(),
{
    let target = DictResultV {
        title: dicts[i].title,
        revision: dicts[i].revision,
        origin: dicts[i].origin,
        entries: dict_entries(dicts[i].rows, feats)->0,
    };
    if i == 0 {
        assert(dict_part_spec(dicts, feats, disabled)[0] == target);
    } else {
        assert(dicts.drop_first()[i - 1] == dicts[i]);
        lemma_dict_part_member(dicts.drop_first(), feats, disabled, i - 1);
        let rest = dict_part_spec(dicts.drop_first(), feats, disabled);
        let w = choose|w: int| 0 <= w < rest.len() && rest[w] == target;
        let d = dicts[0];
        if !disabled.contains(ident_of(d.title, d.revision)) && (match dict_entries(
            d.rows,
            feats,
        ) {
            Some(es) => es.len() > 0,
            None => false,
        }) {
            assert(dict_part_spec(dicts, feats, disabled)[w + 1] == target);
        } else {
            assert(dict_part_spec(dicts, feats, disabled)[w] == target);
        }
    }
}

impl crate::registry::YomitanDictionaries {
    /// The whole lookup. The term fan-out probes every enabled term
    /// dictionary and gathers non-empty results; the pitch join probes the
    /// first pitch dictionary for every distinct text/reading pair; the
    /// frequency fan-out gathers annotations from every enabled frequency
    /// dictionary. A failing probe never aborts the lookup: the failed
    /// term dictionary, pair or frequency dictionary is passed over and
    /// reported in `skipped`, `pitch_skipped` or `freq_skipped`.
    ///
    /// Where the stores keep their keys unique, each part is exactly its
    /// fan-out rule restricted to the non-skipped probes — exactly the
    /// whole rule when its skip report is empty (`lemma_unskipped_fanout`,
    /// `lemma_unskipped_hits`, `lemma_unskipped_freq`).
    #[verifier::rlimit(100)]
    pub fn lookup(
        &self,
        token_features: &Vec<crate::tokens::TokenFeature>,
        user_preferences: &UserPreferences,
    ) -> (r: Result<LookupResult, DictError>)
        ensures
            r is Ok,
            ({
                let res = r->Ok_0;
                &&& (all_term_stores_unique(self.terms@) ==> forall|k: int|
                    0 <= k < res.dict@.len() ==> dict_part_spec(
                        term_models(self.terms@),
                        crate::tokens::tokens_view(token_features@),
                        user_preferences.term_disabled_dictionaries.deep_view(),
                    ).contains(dict_result_view(#[trigger] res.dict@[k])))
                &&& (all_term_stores_unique(self.terms@) ==> exists|sel: Seq<bool>|
                    sel.len() == self.terms@.len() && results_view(res.dict@) =~= dict_part_sel(
                        term_models(self.terms@),
                        crate::tokens::tokens_view(token_features@),
                        user_preferences.term_disabled_dictionaries.deep_view(),
                        sel,
                    ) && res.skipped.deep_view() =~= skipped_sel(term_models(self.terms@), sel))
                &&& (forall|k: int|
                    0 <= k < res.dict@.len() ==> (#[trigger] res.dict@[k]).entries@.len() > 0)
                &&& (forall|x: int, y: int|
                    0 <= x < res.pitch@.len() && 0 <= y < res.pitch@[x].1@.len()
                        ==> pair_in_results(
                        res.dict@,
                        res.pitch@[x].0@,
                        (#[trigger] res.pitch@[x].1@[y]).0@,
                    ))
                &&& (self.pitch@.len() == 0 ==> res.pitch@.len() == 0
                    && res.pitch_skipped@.len() == 0)
                &&& ((self.pitch@.len() > 0 && unique_keys(meta_rows(&self.pitch@[0].0))) ==> {
                    let mrows = meta_rows(&self.pitch@[0].0);
                    let pairs = pairs_of_results(res.dict@);
                    exists|psel: Seq<bool>|
                        psel.len() == pairs.len() && pairs_view(res.pitch_skipped@)
                            =~= skipped_pairs_sel(pairs, psel) && ({
                            let hits = hit_pairs_sel(mrows, pairs, psel);
                            &&& res.pitch@.len() == hits.len()
                            &&& forall|x: int|
                                0 <= x < hits.len() ==> {
                                    let pd = pitch_probe(mrows, hits[x].0, hits[x].1)->0->0;
                                    &&& (#[trigger] res.pitch@[x]).0@ == hits[x].0
                                    &&& res.pitch@[x].1@.len() == 1
                                    &&& res.pitch@[x].1@[0].0@ == hits[x].1
                                    &&& res.pitch@[x].1@[0].1.title@
                                        == self.pitch@[0].0.index.title@
                                    &&& res.pitch@[x].1@[0].1.pitch_accents.0@.len()
                                        == pd.pitches.len()
                                    &&& forall|z: int|
                                        0 <= z < pd.pitches.len() ==> (
                                        #[trigger] res.pitch@[x].1@[0].1.pitch_accents.0@[z]).reading@
                                            == pd.reading && (0 <= pd.pitches[z].position <= 255
                                            ==> res.pitch@[x].1@[0].1.pitch_accents.0@[z].position
                                            == pd.pitches[z].position) && (mora_of(pd.reading)
                                            <= 255
                                            ==> res.pitch@[x].1@[0].1.pitch_accents.0@[z].mora_count
                                            == mora_of(pd.reading))
                                }
                        })
                })
                &&& (exists|fsel: Seq<bool>|
                    fsel.len() == self.freq@.len() && res.freq_skipped.deep_view()
                        =~= skipped_freq_sel(
                        self.freq@,
                        user_preferences.freq_disabled_dictionaries.deep_view(),
                        fsel,
                    ) && ({
                        let fids = enabled_freq_idents_sel(
                            self.freq@,
                            user_preferences.freq_disabled_dictionaries.deep_view(),
                            fsel,
                        );
                        let fidx = enabled_freq_indices_sel(
                            self.freq@,
                            user_preferences.freq_disabled_dictionaries.deep_view(),
                            fsel,
                        );
                        &&& res.freq@.len() == fids.len()
                        &&& fidx.len() == fids.len()
                        &&& forall|x: int|
                            0 <= x < fids.len() ==> {
                                let di = fidx[x];
                                &&& (#[trigger] res.freq@[x]).0@ == fids[x]
                                &&& 0 <= di < self.freq@.len()
                                &&& (unique_keys(meta_rows(&self.freq@[di].0)) ==> {
                                    let gathered = freq_gather(
                                        meta_rows(&self.freq@[di].0),
                                        dict_forms_fold(
                                            crate::tokens::tokens_view(token_features@),
                                        ),
                                    );
                                    &&& gathered is Some
                                    &&& ({
                                        let frows = freq_rows_of(gathered->0);
                                        &&& res.freq@[x].1@.len() == frows.len()
                                        &&& forall|k: int|
                                            0 <= k < frows.len() ==> {
                                                let item = #[trigger] res.freq@[x].1@[k];
                                                &&& item.term@ == frows[k].0
                                                &&& item.reading.deep_view() == frows[k].1.reading
                                                &&& item.display_value.deep_view()
                                                    == frows[k].1.display_value
                                                &&& (match item.value {
                                                    Some(v) => frows[k].1.value == Some(v as int),
                                                    None => frows[k].1.value is None,
                                                })
                                            }
                                    })
                                })
                            }
                    }))
                &&& (forall|x: int|
                    0 <= x < res.freq@.len()
                        ==> !user_preferences.freq_disabled_dictionaries.deep_view().contains(
                        (#[trigger] res.freq@[x]).0@,
                    ))
            }),
    {
        broadcast use vstd::prelude::Seq::lemma_filter_push;

        let ghost feats = crate::tokens::tokens_view(token_features@);
        let ghost models = term_models(self.terms@);
        let ghost disabled = user_preferences.term_disabled_dictionaries.deep_view();
        proof {
            assert(models.len() == self.terms@.len());
        }
        // term fan-out
        let mut dict_results: Vec<DictionaryResult> = Vec::new();
        let mut skipped: Vec<String> = Vec::new();
        let ghost mut sel: Seq<bool> = Seq::empty();
        let tn = self.terms.len();
        let mut i: usize = 0;
        while i < tn
            invariant
                i <= tn,
                tn == self.terms@.len(),
                feats == crate::tokens::tokens_view(token_features@),
                models == term_models(self.terms@),
                models.len() == tn,
                disabled == user_preferences.term_disabled_dictionaries.deep_view(),
                sel.len() == i,
                all_term_stores_unique(self.terms@) ==> results_view(dict_results@)
                    =~= dict_part_sel(models.take(i as int), feats, disabled, sel),
                all_term_stores_unique(self.terms@) ==> skipped.deep_view() =~= skipped_sel(
                    models.take(i as int),
                    sel,
                ),
                all_term_stores_unique(self.terms@) ==> forall|k: int|
                    0 <= k < dict_results@.len() ==> dict_part_spec(
                        models,
                        feats,
                        disabled,
                    ).contains(dict_result_view(#[trigger] dict_results@[k])),
                forall|k: int|
                    0 <= k < dict_results@.len() ==> (
                    #[trigger] dict_results@[k]).entries@.len() > 0,
            decreases tn - i,
        {
            let dict = &self.terms[i];
            let ident = dictionary_ident(
                dict.0.index.title.as_str(),
                dict.0.index.revision.as_str(),
            );
            let mut is_disabled = false;
            let dn = user_preferences.term_disabled_dictionaries.len();
            let mut k: usize = 0;
            while k < dn
                invariant
                    k <= dn,
                    dn == user_preferences.term_disabled_dictionaries@.len(),
                    disabled == user_preferences.term_disabled_dictionaries.deep_view(),
                    disabled.len() == dn,
                    ident@ == ident_of(
                        self.terms@[i as int].0.index.title@,
                        self.terms@[i as int].0.index.revision@,
                    ),
                    i < tn,
                    tn == self.terms@.len(),
                    is_disabled ==> disabled.contains(ident@),
                    !is_disabled ==> forall|j: int| 0 <= j < k ==> disabled[j] != ident@,
                decreases dn - k,
            {
                if crate::text::str_eq(
                    user_preferences.term_disabled_dictionaries[k].as_str(),
                    ident.as_str(),
                ) {
                    is_disabled = true;
                    proof {
                        assert(disabled[k as int] == ident@);
                    }
                }
                k = k + 1;
            }
            proof {
                assert(models.take(i + 1).drop_last() =~= models.take(i as int));
                assert(models.take(i + 1) =~= models.take(i as int).push(models[i as int]));
                assert(models[i as int] == DictModel {
                    title: self.terms@[i as int].0.index.title@,
                    revision: self.terms@[i as int].0.index.revision@,
                    origin: self.terms@[i as int].0.origin@,
                    rows: term_rows(&self.terms@[i as int].0),
                });
                if !is_disabled {
                    assert(!disabled.contains(ident@)) by {
                        if disabled.contains(ident@) {
                            let w = choose|w: int|
                                0 <= w < disabled.len() && disabled[w] == ident@;
                            assert(false);
                        }
                    }
                }
            }
            let ghost results_before = dict_results@;
            let ghost skipped_before = skipped@;
            let ghost mut b: bool = false;
            if !is_disabled {
                match dict.lookup(token_features) {
                    Ok(dr) => {
                        if dr.entries.len() > 0 {
                            proof {
                                if all_term_stores_unique(self.terms@) {
                                    assert(unique_keys(term_rows(&self.terms@[i as int].0)));
                                    assert(term_entries_view(dr.entries@).len() > 0) by {
                                        assert(term_entries_view(dr.entries@).len()
                                            == dr.entries@.len());
                                    }
                                    lemma_dict_part_member(models, feats, disabled, i as int);
                                    assert(dict_result_view(dr) == DictResultV {
                                        title: models[i as int].title,
                                        revision: models[i as int].revision,
                                        origin: models[i as int].origin,
                                        entries: dict_entries(models[i as int].rows, feats)->0,
                                    });
                                }
                            }
                            dict_results.push(dr);
                        }
                    },
                    Err(_) => {
                        skipped.push(ident);
                        proof {
                            b = true;
                        }
                    },
                }
            }
            proof {
                if all_term_stores_unique(self.terms@) {
                    lemma_dict_part_sel_snoc(
                        models.take(i as int),
                        feats,
                        disabled,
                        sel,
                        models[i as int],
                        b,
                    );
                    assert(results_view(dict_results@) =~= results_view(results_before)
                        + results_view(dict_results@.skip(results_before.len() as int))) by {
                        assert(forall|j: int|
                            0 <= j < dict_results@.len() ==> results_view(dict_results@)[j]
                                == dict_result_view(#[trigger] dict_results@[j]));
                    }
                    assert(results_view(dict_results@) =~= dict_part_sel(
                        models.take(i + 1),
                        feats,
                        disabled,
                        sel.push(b),
                    ));
                    assert(skipped.deep_view() =~= skipped_sel(models.take(i + 1), sel.push(b)));
                }
                sel = sel.push(b);
            }
            i = i + 1;
        }
        proof {
            assert(models.take(tn as int) =~= models);
        }
        // distinct text/reading pairs, first occurrences first
        let mut term_readings: Vec<(String, String)> = Vec::new();
        let mut d: usize = 0;
        let dm = dict_results.len();
        while d < dm
            invariant
                d <= dm,
                dm == dict_results@.len(),
                pairs_view(term_readings@) =~= pairs_of_results(dict_results@.take(d as int)),
                forall|pp: int|
                    0 <= pp < term_readings@.len() ==> pair_in_results(
                        dict_results@,
                        (#[trigger] term_readings@[pp]).0@,
                        term_readings@[pp].1@,
                    ),
            decreases dm - d,
        {
            let ghost acc_d = pairs_of_results(dict_results@.take(d as int));
            let en = dict_results[d].entries.len();
            let mut e: usize = 0;
            while e < en
                invariant
                    d < dm,
                    dm == dict_results@.len(),
                    e <= en,
                    en == dict_results@[d as int].entries@.len(),
                    acc_d == pairs_of_results(dict_results@.take(d as int)),
                    pairs_view(term_readings@) =~= pairs_of_entries(
                        acc_d,
                        dict_results@[d as int].entries@.take(e as int),
                    ),
                    forall|pp: int|
                        0 <= pp < term_readings@.len() ==> pair_in_results(
                            dict_results@,
                            (#[trigger] term_readings@[pp]).0@,
                            term_readings@[pp].1@,
                        ),
                decreases en - e,
            {
                let ghost ev = dict_results@[d as int].entries@;
                proof {
                    assert(ev.take(e + 1).drop_last() =~= ev.take(e as int));
                    assert(ev.take(e + 1).last() == ev[e as int]);
                }
                let text = &dict_results[d].entries[e].text;
                let reading = &dict_results[d].entries[e].reading;
                let mut already = false;
                let mut p: usize = 0;
                let prn = term_readings.len();
                while p < prn
                    invariant
                        p <= prn,
                        prn == term_readings@.len(),
                        already ==> exists|j: int|
                            0 <= j < term_readings@.len() && ((
                            #[trigger] term_readings@[j]).0@ == text@ && term_readings@[j].1@
                                == reading@),
                        !already ==> forall|j: int|
                            0 <= j < p ==> !((#[trigger] term_readings@[j]).0@ == text@
                                && term_readings@[j].1@ == reading@),
                    decreases prn - p,
                {
                    if crate::text::str_eq(term_readings[p].0.as_str(), text.as_str())
                        && crate::text::str_eq(term_readings[p].1.as_str(), reading.as_str()) {
                        already = true;
                    }
                    p = p + 1;
                }
                proof {
                    if already {
                        let w = choose|j: int|
                            0 <= j < term_readings@.len() && ((
                            #[trigger] term_readings@[j]).0@ == text@ && term_readings@[j].1@
                                == reading@);
                        assert(pairs_view(term_readings@)[w] == (text@, reading@));
                        assert(pairs_view(term_readings@).contains((text@, reading@)));
                    } else {
                        if pairs_view(term_readings@).contains((text@, reading@)) {
                            let w = choose|j: int|
                                0 <= j < pairs_view(term_readings@).len() && pairs_view(
                                    term_readings@,
                                )[j] == (text@, reading@);
                            assert(term_readings@[w].0@ == text@ && term_readings@[w].1@
                                == reading@);
                            assert(false);
                        }
                    }
                }
                if !already {
                    term_readings.push((text.clone(), reading.clone()));
                    proof {
                        assert(pairs_view(term_readings@) =~= pairs_of_entries(
                            acc_d,
                            dict_results@[d as int].entries@.take(e + 1),
                        ));
                        let pnew = term_readings@.len() - 1;
                        assert(pair_in_results(
                            dict_results@,
                            term_readings@[pnew].0@,
                            term_readings@[pnew].1@,
                        )) by {
                            assert(0 <= (d as int) < dict_results@.len() && 0 <= (e as int)
                                < dict_results@[d as int].entries@.len() && (
                            dict_results@[d as int].entries@[e as int]).text@
                                == term_readings@[pnew].0@
                                && dict_results@[d as int].entries@[e as int].reading@
                                == term_readings@[pnew].1@);
                        }
                    }
                } else {
                    proof {
                        assert(pairs_view(term_readings@) =~= pairs_of_entries(
                            acc_d,
                            dict_results@[d as int].entries@.take(e + 1),
                        ));
                    }
                }
                e = e + 1;
            }
            proof {
                assert(dict_results@.take(d + 1).drop_last() =~= dict_results@.take(d as int));
                assert(dict_results@.take(d + 1).last() == dict_results@[d as int]);
                assert(dict_results@[d as int].entries@.take(en as int)
                    =~= dict_results@[d as int].entries@);
            }
            d = d + 1;
        }
        proof {
            assert(dict_results@.take(dm as int) =~= dict_results@);
        }
        let ghost pairs = pairs_of_results(dict_results@);
        // pitch join against the first pitch dictionary; a failing probe
        // is passed over and the pair reported
        let mut pitch: Vec<(String, Vec<(String, PitchResult)>)> = Vec::new();
        let mut pitch_skipped: Vec<(String, String)> = Vec::new();
        let ghost mut psel: Seq<bool> = Seq::empty();
        if self.pitch.len() > 0 {
            let pd = &self.pitch[0];
            let ghost mrows = meta_rows(&pd.0);
            let prn = term_readings.len();
            let mut p: usize = 0;
            while p < prn
                invariant
                    p <= prn,
                    prn == term_readings@.len(),
                    self.pitch@.len() > 0,
                    pd == &self.pitch@[0],
                    mrows == meta_rows(&self.pitch@[0].0),
                    pairs == pairs_of_results(dict_results@),
                    pairs_view(term_readings@) == pairs,
                    pairs.len() == prn,
                    psel.len() == p,
                    pairs_view(pitch_skipped@) =~= skipped_pairs_sel(pairs.take(p as int), psel),
                    forall|pp: int|
                        0 <= pp < term_readings@.len() ==> pair_in_results(
                            dict_results@,
                            (#[trigger] term_readings@[pp]).0@,
                            term_readings@[pp].1@,
                        ),
                    forall|x: int|
                        0 <= x < pitch@.len() ==> (#[trigger] pitch@[x]).1@.len() == 1
                            && pair_in_results(dict_results@, pitch@[x].0@, pitch@[x].1@[0].0@),
                    unique_keys(mrows) ==> {
                        let hits = hit_pairs_sel(mrows, pairs.take(p as int), psel);
                        &&& pitch@.len() == hits.len()
                        &&& forall|x: int|
                            0 <= x < hits.len() ==> {
                                let pdx = pitch_probe(mrows, hits[x].0, hits[x].1)->0->0;
                                &&& (#[trigger] pitch@[x]).0@ == hits[x].0
                                &&& pitch@[x].1@.len() == 1
                                &&& pitch@[x].1@[0].0@ == hits[x].1
                                &&& pitch@[x].1@[0].1.title@ == self.pitch@[0].0.index.title@
                                &&& pitch@[x].1@[0].1.pitch_accents.0@.len() == pdx.pitches.len()
                                &&& forall|z: int|
                                    0 <= z < pdx.pitches.len() ==> (
                                    #[trigger] pitch@[x].1@[0].1.pitch_accents.0@[z]).reading@
                                        == pdx.reading && (0 <= pdx.pitches[z].position <= 255
                                        ==> pitch@[x].1@[0].1.pitch_accents.0@[z].position
                                        == pdx.pitches[z].position) && (mora_of(pdx.reading)
                                        <= 255
                                        ==> pitch@[x].1@[0].1.pitch_accents.0@[z].mora_count
                                        == mora_of(pdx.reading))
                            }
                    },
                decreases prn - p,
            {
                let term = &term_readings[p].0;
                let reading = &term_readings[p].1;
                proof {
                    assert(pairs.take(p + 1).drop_last() =~= pairs.take(p as int));
                    assert(pairs.take(p + 1).last() == pairs[p as int]);
                    assert(pairs[p as int] == (term@, reading@));
                }
                match pd.lookup(term.as_str(), reading.as_str()) {
                    Ok(Some(pitch_data)) => {
                        let accents = PitchAccents::from(&pitch_data);
                        let result = PitchResult {
                            title: pd.0.index.title.clone(),
                            pitch_accents: accents,
                        };
                        let mut inner: Vec<(String, PitchResult)> = Vec::new();
                        inner.push((reading.clone(), result));
                        pitch.push((term.clone(), inner));
                        proof {
                            let x = pitch@.len() - 1;
                            assert(pitch@[x].1@.len() == 1);
                            assert(pitch@[x].0@ == term_readings@[p as int].0@);
                            assert(pitch@[x].1@[0].0@ == term_readings@[p as int].1@);
                            assert(pair_in_results(
                                dict_results@,
                                pitch@[x].0@,
                                pitch@[x].1@[0].0@,
                            ));
                            if unique_keys(mrows) {
                                assert(pitch_probe(mrows, term@, reading@) == Some(
                                    Some(pitch_data@),
                                ));
                                assert(psel.push(false).drop_last() =~= psel);
                                assert(hit_pairs_sel(mrows, pairs.take(p + 1), psel.push(false))
                                    =~= hit_pairs_sel(mrows, pairs.take(p as int), psel).push(
                                    pairs[p as int],
                                ));
                            }
                            assert(psel.push(false).drop_last() =~= psel);
                            assert(psel.push(false).last() == false);
                            assert(pairs_view(pitch_skipped@) =~= skipped_pairs_sel(
                                pairs.take(p + 1),
                                psel.push(false),
                            ));
                            psel = psel.push(false);
                        }
                    },
                    Ok(None) => {
                        proof {
                            if unique_keys(mrows) {
                                assert(pitch_probe(mrows, term@, reading@) == Some(
                                    None::<PitchDataV>,
                                ));
                                assert(psel.push(false).drop_last() =~= psel);
                                assert(hit_pairs_sel(mrows, pairs.take(p + 1), psel.push(false))
                                    =~= hit_pairs_sel(mrows, pairs.take(p as int), psel));
                            }
                            assert(psel.push(false).drop_last() =~= psel);
                            assert(psel.push(false).last() == false);
                            assert(pairs_view(pitch_skipped@) =~= skipped_pairs_sel(
                                pairs.take(p + 1),
                                psel.push(false),
                            ));
                            psel = psel.push(false);
                        }
                    },
                    Err(_) => {
                        // the probe failed: pass this pair over, report it
                        pitch_skipped.push((term.clone(), reading.clone()));
                        proof {
                            assert(psel.push(true).drop_last() =~= psel);
                            assert(psel.push(true).last() == true);
                            assert(pairs_view(pitch_skipped@) =~= skipped_pairs_sel(
                                pairs.take(p + 1),
                                psel.push(true),
                            ));
                            if unique_keys(mrows) {
                                assert(psel.push(true).drop_last() =~= psel);
                                assert(hit_pairs_sel(mrows, pairs.take(p + 1), psel.push(true))
                                    =~= hit_pairs_sel(mrows, pairs.take(p as int), psel));
                            }
                            psel = psel.push(true);
                        }
                    },
                }
                p = p + 1;
            }
            proof {
                assert(pairs.take(prn as int) =~= pairs);
            }
        }
        // frequency fan-out; a failing gather is passed over and the
        // dictionary reported
        let mut freq: Vec<(String, Vec<FrequencyData>)> = Vec::new();
        let mut freq_skipped: Vec<String> = Vec::new();
        let ghost mut fsel: Seq<bool> = Seq::empty();
        let ghost freq_disabled = user_preferences.freq_disabled_dictionaries.deep_view();
        let fqn = self.freq.len();
        let mut fi: usize = 0;
        while fi < fqn
            invariant
                fi <= fqn,
                fqn == self.freq@.len(),
                feats == crate::tokens::tokens_view(token_features@),
                freq_disabled == user_preferences.freq_disabled_dictionaries.deep_view(),
                fsel.len() == fi,
                freq_skipped.deep_view() =~= skipped_freq_sel(
                    self.freq@.take(fi as int),
                    freq_disabled,
                    fsel,
                ),
                freq@.len() == enabled_freq_idents_sel(
                    self.freq@.take(fi as int),
                    freq_disabled,
                    fsel,
                ).len(),
                enabled_freq_indices_sel(self.freq@.take(fi as int), freq_disabled, fsel).len()
                    == freq@.len(),
                forall|x: int|
                    0 <= x < freq@.len() ==> (#[trigger] freq@[x]).0@ == enabled_freq_idents_sel(
                        self.freq@.take(fi as int),
                        freq_disabled,
                        fsel,
                    )[x],
                forall|x: int| #![trigger freq@[x]]
                    0 <= x < freq@.len() ==> {
                        let di = enabled_freq_indices_sel(
                            self.freq@.take(fi as int),
                            freq_disabled,
                            fsel,
                        )[x];
                        &&& 0 <= di < fi
                        &&& (unique_keys(meta_rows(&self.freq@[di].0)) ==> {
                            let gathered = freq_gather(
                                meta_rows(&self.freq@[di].0),
                                dict_forms_fold(feats),
                            );
                            &&& gathered is Some
                            &&& ({
                                let frows = freq_rows_of(gathered->0);
                                &&& freq@[x].1@.len() == frows.len()
                                &&& forall|k: int|
                                    0 <= k < frows.len() ==> {
                                        let item = #[trigger] freq@[x].1@[k];
                                        &&& item.term@ == frows[k].0
                                        &&& item.reading.deep_view() == frows[k].1.reading
                                        &&& item.display_value.deep_view()
                                            == frows[k].1.display_value
                                        &&& (match item.value {
                                            Some(v) => frows[k].1.value == Some(v as int),
                                            None => frows[k].1.value is None,
                                        })
                                    }
                            })
                        })
                    },
                forall|x: int|
                    0 <= x < freq@.len() ==> !freq_disabled.contains((#[trigger] freq@[x]).0@),
            decreases fqn - fi,
        {
            let fdict = &self.freq[fi];
            let ident = dictionary_ident(
                fdict.0.index.title.as_str(),
                fdict.0.index.revision.as_str(),
            );
            let mut is_disabled = false;
            let dn = user_preferences.freq_disabled_dictionaries.len();
            let mut k: usize = 0;
            while k < dn
                invariant
                    k <= dn,
                    dn == user_preferences.freq_disabled_dictionaries@.len(),
                    freq_disabled == user_preferences.freq_disabled_dictionaries.deep_view(),
                    freq_disabled.len() == dn,
                    fi < fqn,
                    fqn == self.freq@.len(),
                    ident@ == ident_of(
                        self.freq@[fi as int].0.index.title@,
                        self.freq@[fi as int].0.index.revision@,
                    ),
                    is_disabled ==> freq_disabled.contains(ident@),
                    !is_disabled ==> forall|j: int| 0 <= j < k ==> freq_disabled[j] != ident@,
                decreases dn - k,
            {
                if crate::text::str_eq(
                    user_preferences.freq_disabled_dictionaries[k].as_str(),
                    ident.as_str(),
                ) {
                    is_disabled = true;
                    proof {
                        assert(freq_disabled[k as int] == ident@);
                    }
                }
                k = k + 1;
            }
            proof {
                assert(self.freq@.take(fi + 1).drop_last() =~= self.freq@.take(fi as int));
                assert(self.freq@.take(fi + 1).last() == self.freq@[fi as int]);
            }
            if !is_disabled {
                proof {
                    assert(!freq_disabled.contains(ident@)) by {
                        if freq_disabled.contains(ident@) {
                            let w = choose|w: int|
                                0 <= w < freq_disabled.len() && freq_disabled[w] == ident@;
                            assert(false);
                        }
                    }
                }
                match fdict.lookup_terms(token_features) {
                    Ok(metas) => {
                        let ghost metasv = metas_view(metas@);
                        let mut freq_data: Vec<FrequencyData> = Vec::new();
                        let mn = metas.len();
                        let mut mi: usize = 0;
                        while mi < mn
                            invariant
                                mi <= mn,
                                mn == metas@.len(),
                                metasv == metas_view(metas@),
                                metasv.len() == mn,
                                forall|j: int| 0 <= j < mn ==> metasv[j] == (
                                #[trigger] metas@[j])@,
                                freq_data@.len() == freq_rows_of(metasv.take(mi as int)).len(),
                                forall|k2: int|
                                    0 <= k2 < freq_data@.len() ==> {
                                        let fr = freq_rows_of(metasv.take(mi as int))[k2];
                                        let item = #[trigger] freq_data@[k2];
                                        &&& item.term@ == fr.0
                                        &&& item.reading.deep_view() == fr.1.reading
                                        &&& item.display_value.deep_view()
                                            == fr.1.display_value
                                        &&& (match item.value {
                                            Some(v) => fr.1.value == Some(v as int),
                                            None => fr.1.value is None,
                                        })
                                    },
                            decreases mn - mi,
                        {
                            proof {
                                assert(metasv.take(mi + 1).drop_last() =~= metasv.take(mi as int));
                                assert(metasv.take(mi + 1).last() == metasv[mi as int]);
                            }
                            match metas[mi].maybe_frequency() {
                                Some(u) => {
                                    freq_data.push(FrequencyData {
                                        term: metas[mi].term.clone(),
                                        reading: u.reading,
                                        value: u.value,
                                        display_value: u.display_value,
                                    });
                                },
                                None => {},
                            }
                            mi = mi + 1;
                        }
                        proof {
                            assert(metasv.take(mn as int) =~= metasv);
                        }
                        freq.push((ident, freq_data));
                        proof {
                            assert(fsel.push(false).drop_last() =~= fsel);
                            assert(freq@.len() == enabled_freq_idents_sel(
                                self.freq@.take(fi + 1),
                                freq_disabled,
                                fsel.push(false),
                            ).len());
                            assert(fsel.push(false).drop_last() =~= fsel);
                            assert(fsel.push(false).last() == false);
                            assert(freq_skipped.deep_view() =~= skipped_freq_sel(
                                self.freq@.take(fi + 1),
                                freq_disabled,
                                fsel.push(false),
                            ));
                            fsel = fsel.push(false);
                        }
                    },
                    Err(_) => {
                        // the gather failed: pass this dictionary over,
                        // report it
                        freq_skipped.push(ident);
                        proof {
                            assert(fsel.push(true).drop_last() =~= fsel);
                            assert(fsel.push(true).last() == true);
                            assert(freq_skipped.deep_view() =~= skipped_freq_sel(
                                self.freq@.take(fi + 1),
                                freq_disabled,
                                fsel.push(true),
                            ));
                            fsel = fsel.push(true);
                        }
                    },
                }
            } else {
                proof {
                    assert(fsel.push(false).drop_last() =~= fsel);
                    assert(fsel.push(false).last() == false);
                    assert(freq_skipped.deep_view() =~= skipped_freq_sel(
                        self.freq@.take(fi + 1),
                        freq_disabled,
                        fsel.push(false),
                    ));
                    fsel = fsel.push(false);
                }
            }
            fi = fi + 1;
        }
        proof {
            assert(self.freq@.take(fqn as int) =~= self.freq@);
        }
        Ok(LookupResult { dict: dict_results, pitch, freq, skipped, pitch_skipped, freq_skipped })
    }
}

} // verus!
