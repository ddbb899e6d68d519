//! The service-facing result shapes and the conversions into them:
//! readings normalized to hiragana, tag lists made plain, structured
//! definition content rendered to text.

use vstd::prelude::*;
use vstd::string::StringExecFns;

use crate::json::{json_text_of, json_to_text};
use crate::lookup;
use crate::schema::JNum;
use crate::term_bank;
use crate::text::{hira_of, str_eq, to_hiragana};

verus! {

/// A lookup request as the service receives it.
#[derive(Debug)]
pub struct LookupTermRequest {
    pub term: String,
    pub position: i32,
}

/// One pitch accent as the service reports it.
#[derive(Debug, Clone)]
pub struct PitchAccentEntry {
    pub reading: String,
    pub position: u32,
    pub mora_count: u32,
}

#[derive(Debug, Clone)]
pub struct PitchAccentEntryList {
    pub entries: Vec<PitchAccentEntry>,
}

/// The pitch answer for one text, keyed by reading.
#[derive(Debug)]
pub struct PitchAccentResult {
    pub title: String,
    pub entries: Vec<(String, PitchAccentEntryList)>,
}

/// One frequency row as the service reports it.
#[derive(Debug)]
pub struct FrequencyData {
    pub term: String,
    pub reading: Option<String>,
    pub value: Option<i32>,
    pub display_value: Option<String>,
}

#[derive(Debug)]
pub struct FrequencyDataList {
    pub items: Vec<FrequencyData>,
}

/// One definition as the service reports it: structured content is
/// rendered to its JSON text.
#[derive(Debug)]
pub enum Definition {
    Simple { content: String },
    Structured { type_: String, content: String, attributes: Vec<(String, String)> },
    Deinflection { base_form: String, inflections: Vec<String> },
}

/// One term entry as the service reports it: the reading in hiragana,
/// absent tag lists as empty lists.
#[derive(Debug)]
pub struct TermEntry {
    pub text: String,
    pub reading: String,
    pub tags: Vec<String>,
    pub rule_identifiers: String,
    pub score: JNum,
    pub definitions: Vec<Definition>,
    pub sequence_number: i64,
    pub term_tags: Vec<String>,
}

#[derive(Debug)]
pub struct DictionaryResult {
    pub title: String,
    pub revision: String,
    pub origin: String,
    pub entries: Vec<TermEntry>,
}

/// The assembled response of one lookup.
#[derive(Debug)]
pub struct LookupTermResponse {
    pub dictionary_results: Vec<DictionaryResult>,
    pub pitch_accent_results: Vec<(String, PitchAccentResult)>,
    pub frequency_data_lists: Vec<(String, FrequencyDataList)>,
}

/// How one definition converts: a simple gloss is kept, structured
/// content is rendered to its JSON text with its attributes rendered
/// pairwise, a de-inflection keeps its parts.
pub open spec fn definition_converted(d: crate::term_bank::DefinitionV, r: Definition) -> bool {
    match d {
        crate::term_bank::DefinitionV::Simple(s) => r matches Definition::Simple { content }
            && content@ == s,
        crate::term_bank::DefinitionV::Structured(sd) => r matches Definition::Structured {
            type_,
            content,
            attributes,
        } && type_@ == sd.def_type && content@ == (match sd.content {
            Some(c) => json_text_of(c),
            None => Seq::<char>::empty(),
        }) && attributes@.len() == (match sd.attributes {
            Some(a) => a.len(),
            None => 0,
        }) && (match sd.attributes {
            Some(a) => forall|k: int|
                0 <= k < a.len() ==> (#[trigger] attributes@[k]).0@ == a[k].0 && attributes@[k].1@
                    == json_text_of(a[k].1),
            None => true,
        }),
        crate::term_bank::DefinitionV::Deinflection(dd) => r matches Definition::Deinflection {
            base_form,
            inflections,
        } && base_form@ == dd.base_form && inflections.deep_view() == dd.inflections,
    }
}

/// How one term entry converts: the reading to hiragana, absent tag
/// lists to empty lists, every definition by `definition_converted`.
pub open spec fn term_entry_converted(e: crate::term_bank::TermEntryV, r: TermEntry) -> bool {
    &&& r.text@ == e.text
    &&& r.reading@ == hira_of(e.reading)
    &&& r.tags.deep_view() == (match e.tags {
        Some(ts) => ts,
        None => Seq::<Seq<char>>::empty(),
    })
    &&& r.term_tags.deep_view() == (match e.term_tags {
        Some(ts) => ts,
        None => Seq::<Seq<char>>::empty(),
    })
    &&& r.rule_identifiers@ == e.rule_identifiers
    &&& r.score@ == e.score
    &&& r.sequence_number as int == e.sequence_number
    &&& r.definitions@.len() == e.definitions.len()
    &&& forall|i: int|
        0 <= i < e.definitions.len() ==> definition_converted(
            e.definitions[i],
            #[trigger] r.definitions@[i],
        )
}

/// Renders one definition for the service: a simple gloss as it stands,
/// structured content as its JSON text, a de-inflection as its parts.
pub fn convert_definition(definition: &term_bank::Definition) -> (r: Definition)
    ensures
        definition_converted(definition@, r),
{
    match definition {
        term_bank::Definition::Simple(s) => Definition::Simple { content: s.clone() },
        term_bank::Definition::Structured(sd) => {
            let content = match &sd.content {
                Some(c) => json_to_text(c),
                None => String::new(),
            };
            let mut attributes: Vec<(String, String)> = Vec::new();
            match &sd.attributes {
                Some(af) => {
                    proof {
                        crate::json::lemma_json_view_fields_index(af@);
                    }
                    let n = af.len();
                    let mut i: usize = 0;
                    while i < n
                        invariant
                            i <= n,
                            n == af@.len(),
                            attributes@.len() == i,
                            forall|k: int|
                                0 <= k < i ==> (#[trigger] attributes@[k]).0@ == af@[k].0@
                                    && attributes@[k].1@ == json_text_of(af@[k].1@),
                        decreases n - i,
                    {
                        attributes.push((af[i].0.clone(), json_to_text(&af[i].1)));
                        i = i + 1;
                    }
                },
                None => {},
            }
            Definition::Structured { type_: sd.def_type.clone(), content, attributes }
        },
        term_bank::Definition::Deinflection(dd) => Definition::Deinflection {
            base_form: dd.base_form.clone(),
            inflections: clone_strings(&dd.inflections),
        },
    }
}

fn clone_jnum(n: &JNum) -> (r: JNum)
    ensures
        r@ == n@,
{
    match n {
        JNum::Int(i) => JNum::Int(*i),
        JNum::Text(s) => JNum::Text(s.clone()),
    }
}

fn clone_strings(v: &Vec<String>) -> (r: Vec<String>)
    ensures
        r.deep_view() == v.deep_view(),
{
    let mut out: Vec<String> = Vec::new();
    let n = v.len();
    let mut i: usize = 0;
    while i < n
        invariant
            i <= n,
            n == v@.len(),
            out@.len() == i,
            forall|j: int| 0 <= j < i ==> (#[trigger] out@[j])@ == v@[j]@,
        decreases n - i,
    {
        out.push(v[i].clone());
        i = i + 1;
    }
    proof {
        assert(out.deep_view() =~= v.deep_view());
    }
    out
}

/// Converts one stored term entry for the service: the reading goes to
/// hiragana, absent tag lists become empty lists, everything else is kept.
pub fn convert_term_entry(entry: &term_bank::TermEntry) -> (r: TermEntry)
    ensures
        term_entry_converted(entry@, r),
{
    let tags = match &entry.tags {
        Some(ts) => clone_strings(ts),
        None => Vec::new(),
    };
    let term_tags = match &entry.term_tags {
        Some(ts) => clone_strings(ts),
        None => Vec::new(),
    };
    proof {
        if entry.tags is None {
            assert(tags.deep_view() =~= Seq::<Seq<char>>::empty());
        }
        if entry.term_tags is None {
            assert(term_tags.deep_view() =~= Seq::<Seq<char>>::empty());
        }
    }
    let mut definitions: Vec<Definition> = Vec::new();
    let n = entry.definitions.len();
    let mut i: usize = 0;
    while i < n
        invariant
            i <= n,
            n == entry.definitions@.len(),
            definitions@.len() == i,
            forall|j: int|
                0 <= j < i ==> definition_converted(
                    entry.definitions@[j]@,
                    #[trigger] definitions@[j],
                ),
        decreases n - i,
    {
        definitions.push(convert_definition(&entry.definitions[i]));
        i = i + 1;
    }
    let r = TermEntry {
        text: entry.text.clone(),
        reading: to_hiragana(entry.reading.as_str()),
        tags,
        rule_identifiers: entry.rule_identifiers.clone(),
        score: clone_jnum(&entry.score),
        definitions,
        sequence_number: entry.sequence_number,
        term_tags,
    };
    proof {
        assert(forall|j: int|
            0 <= j < entry@.definitions.len() ==> entry@.definitions[j] == (
            #[trigger] entry.definitions@[j])@);
    }
    r
}

/// Converts one dictionary result for the service, entry by entry.
pub fn convert_dictionary_result(result: &lookup::DictionaryResult) -> (r: DictionaryResult)
    ensures
        r.title@ == result.title@,
        r.revision@ == result.revision@,
        r.origin@ == result.origin@,
        r.entries@.len() == result.entries@.len(),
        forall|i: int|
            0 <= i < r.entries@.len() ==> term_entry_converted(
                result.entries@[i]@,
                #[trigger] r.entries@[i],
            ),
{
    let mut entries: Vec<TermEntry> = Vec::new();
    let n = result.entries.len();
    let mut i: usize = 0;
    while i < n
        invariant
            i <= n,
            n == result.entries@.len(),
            entries@.len() == i,
            forall|j: int|
                0 <= j < i ==> term_entry_converted(
                    result.entries@[j]@,
                    #[trigger] entries@[j],
                ),
        decreases n - i,
    {
        entries.push(convert_term_entry(&result.entries[i]));
        i = i + 1;
    }
    DictionaryResult {
        title: result.title.clone(),
        revision: result.revision.clone(),
        origin: result.origin.clone(),
        entries,
    }
}

/// How one frequency row converts: the attached reading to hiragana,
/// everything else kept.
pub open spec fn frequency_converted(f: lookup::FrequencyData, r: FrequencyData) -> bool {
    &&& r.term@ == f.term@
    &&& r.value == f.value
    &&& r.display_value.deep_view() == f.display_value.deep_view()
    &&& (match f.reading {
        Some(rd) => r.reading matches Some(h) && h@ == hira_of(rd@),
        None => r.reading is None,
    })
}

/// Converts one frequency row: an attached reading goes to hiragana.
pub fn convert_single_frequency_data(f: &lookup::FrequencyData) -> (r: FrequencyData)
    ensures
        frequency_converted(*f, r),
{
    FrequencyData {
        term: f.term.clone(),
        reading: match &f.reading {
            Some(rd) => Some(to_hiragana(rd.as_str())),
            None => None,
        },
        value: f.value,
        display_value: match &f.display_value {
            Some(dv) => Some(dv.clone()),
            None => None,
        },
    }
}

/// Converts every frequency bucket for the service: one list per bucket,
/// each row converted in order.
pub fn convert_frequency_data(f: &Vec<(String, Vec<lookup::FrequencyData>)>) -> (r: Vec<
    (String, FrequencyDataList),
>)
    ensures
        r@.len() == f@.len(),
        forall|i: int| 0 <= i < r@.len() ==> (#[trigger] r@[i]).0@ == f@[i].0@,
        forall|i: int| 0 <= i < r@.len() ==> (#[trigger] r@[i]).1.items@.len() == f@[i].1@.len(),
        forall|i: int, k: int|
            0 <= i < r@.len() && 0 <= k < f@[i].1@.len() ==> frequency_converted(
                f@[i].1@[k],
                (#[trigger] r@[i].1.items@[k]),
            ),
{
    let mut out: Vec<(String, FrequencyDataList)> = Vec::new();
    let n = f.len();
    let mut i: usize = 0;
    while i < n
        invariant
            i <= n,
            n == f@.len(),
            out@.len() == i,
            forall|j: int| 0 <= j < i ==> (#[trigger] out@[j]).0@ == f@[j].0@,
            forall|j: int| 0 <= j < i ==> (#[trigger] out@[j]).1.items@.len() == f@[j].1@.len(),
            forall|j: int, k: int|
                0 <= j < i && 0 <= k < f@[j].1@.len() ==> frequency_converted(
                    f@[j].1@[k],
                    (#[trigger] out@[j].1.items@[k]),
                ),
        decreases n - i,
    {
        let mut items: Vec<FrequencyData> = Vec::new();
        let inner = &f[i].1;
        let m = inner.len();
        let mut k: usize = 0;
        while k < m
            invariant
                i < n,
                n == f@.len(),
                m == inner@.len(),
                inner == &f@[i as int].1,
                k <= m,
                items@.len() == k,
                forall|x: int|
                    0 <= x < k ==> frequency_converted(inner@[x], #[trigger] items@[x]),
            decreases m - k,
        {
            items.push(convert_single_frequency_data(&inner[k]));
            k = k + 1;
        }
        out.push((f[i].0.clone(), FrequencyDataList { items }));
        i = i + 1;
    }
    out
}

/// Converts one pitch accent: the reading goes to hiragana, the counters
/// widen.
pub fn convert_pitch_accent(pa: &lookup::PitchAccent) -> (r: PitchAccentEntry)
    ensures
        r.reading@ == hira_of(pa.reading@),
        r.position == pa.position as u32,
        r.mora_count == pa.mora_count as u32,
{
    PitchAccentEntry {
        reading: to_hiragana(pa.reading.as_str()),
        position: pa.position as u32,
        mora_count: pa.mora_count as u32,
    }
}

/// The distinct accent readings, first occurrences first.
pub open spec fn add_reading(acc: Seq<Seq<char>>, rd: Seq<char>) -> Seq<Seq<char>> {
    if acc.contains(rd) {
        acc
    } else {
        acc.push(rd)
    }
}

pub open spec fn readings_fold(pas: Seq<lookup::PitchAccent>) -> Seq<Seq<char>>
    decreases pas.len(),
{
    if pas.len() == 0 {
        Seq::empty()
    } else {
        add_reading(readings_fold(pas.drop_last()), pas.last().reading@)
    }
}

/// The accents of one reading, in input order.
pub open spec fn accents_with(pas: Seq<lookup::PitchAccent>, rd: Seq<char>) -> Seq<
    lookup::PitchAccent,
> {
    pas.filter(|pa: lookup::PitchAccent| pa.reading@ == rd)
}

/// How one accent converts: the reading to hiragana, counters widened.
pub open spec fn accent_converted(pa: lookup::PitchAccent, r: PitchAccentEntry) -> bool {
    r.reading@ == hira_of(pa.reading@) && r.position == pa.position as u32 && r.mora_count
        == pa.mora_count as u32
}

/// The first grouped entry with the given reading, if any.
fn find_reading_idx(entries: &Vec<(String, PitchAccentEntryList)>, rd: &str) -> (r: Option<usize>)
    ensures
        match r {
            Some(k) => k < entries@.len() && entries@[k as int].0@ == rd@ && forall|j: int|
                0 <= j < k ==> (#[trigger] entries@[j]).0@ != rd@,
            None => forall|j: int| 0 <= j < entries@.len() ==> (#[trigger] entries@[j]).0@ != rd@,
        },
{
    let n = entries.len();
    let mut k: usize = 0;
    while k < n
        invariant
            k <= n,
            n == entries@.len(),
            forall|j: int| 0 <= j < k ==> (#[trigger] entries@[j]).0@ != rd@,
        decreases n - k,
    {
        if str_eq(entries[k].0.as_str(), rd) {
            return Some(k);
        }
        k = k + 1;
    }
    None
}

/// Converts one pitch result: one entry per distinct accent reading, in
/// first-occurrence order, each holding that reading's converted accents
/// in input order.
pub fn convert_pitch_result(reading: &str, pr: &lookup::PitchResult) -> (r: PitchAccentResult)
    ensures
        r.title@ == pr.title@,
        r.entries@.len() == readings_fold(pr.pitch_accents.0@).len(),
        forall|x: int|
            0 <= x < r.entries@.len() ==> (#[trigger] r.entries@[x]).0@ == readings_fold(
                pr.pitch_accents.0@,
            )[x],
        forall|x: int|
            0 <= x < r.entries@.len() ==> (#[trigger] r.entries@[x]).1.entries@.len()
                == accents_with(pr.pitch_accents.0@, r.entries@[x].0@).len(),
        forall|x: int, z: int|
            0 <= x < r.entries@.len() && 0 <= z < r.entries@[x].1.entries@.len()
                ==> accent_converted(
                accents_with(pr.pitch_accents.0@, (#[trigger] r.entries@[x]).0@)[z],
                #[trigger] r.entries@[x].1.entries@[z],
            ),
{
    broadcast use vstd::prelude::Seq::lemma_filter_push;

    let ghost pas = pr.pitch_accents.0@;
    let mut entries: Vec<(String, PitchAccentEntryList)> = Vec::new();
    let n = pr.pitch_accents.0.len();
    let mut i: usize = 0;
    while i < n
        invariant
            i <= n,
            n == pas.len(),
            pas == pr.pitch_accents.0@,
            entries@.len() == readings_fold(pas.take(i as int)).len(),
            forall|x: int|
                0 <= x < entries@.len() ==> (#[trigger] entries@[x]).0@ == readings_fold(
                    pas.take(i as int),
                )[x],
            forall|x: int, y: int|
                0 <= x < y < entries@.len() ==> (#[trigger] entries@[x]).0@ != (
                #[trigger] entries@[y]).0@,
            forall|x: int|
                0 <= x < entries@.len() ==> (#[trigger] entries@[x]).1.entries@.len()
                    == accents_with(pas.take(i as int), entries@[x].0@).len(),
            forall|x: int, z: int|
                0 <= x < entries@.len() && 0 <= z < entries@[x].1.entries@.len()
                    ==> accent_converted(
                    accents_with(pas.take(i as int), (#[trigger] entries@[x]).0@)[z],
                    #[trigger] entries@[x].1.entries@[z],
                ),
        decreases n - i,
    {
        let pa = &pr.pitch_accents.0[i];
        proof {
            assert(pas.take(i + 1).drop_last() =~= pas.take(i as int));
            assert(pas.take(i + 1).last() == pas[i as int]);
            assert(pas.take(i as int).push(pas[i as int]) =~= pas.take(i + 1));
        }
        let ghost rds = readings_fold(pas.take(i as int));
        match find_reading_idx(&entries, pa.reading.as_str()) {
            Some(k) => {
                proof {
                    assert(rds.contains(pas[i as int].reading@)) by {
                        assert(rds[k as int] == pas[i as int].reading@);
                    }
                    assert(readings_fold(pas.take(i + 1)) == rds);
                }
                let converted = convert_pitch_accent(pa);
                let ghost before = entries@;
                entries[k].1.entries.push(converted);
                proof {
                    assert(entries@.len() == before.len());
                    assert(forall|x: int|
                        0 <= x < before.len() && x != k as int ==> #[trigger] entries@[x]
                            == before[x]);
                    assert(entries@[k as int].0 == before[k as int].0);
                    assert(entries@[k as int].1.entries@ =~= before[k as int].1.entries@.push(
                        converted,
                    ));
                    assert forall|x: int| 0 <= x < entries@.len() implies accents_with(
                        pas.take(i + 1),
                        (#[trigger] entries@[x]).0@,
                    ) == (if x == k as int {
                        accents_with(pas.take(i as int), entries@[x].0@).push(pas[i as int])
                    } else {
                        accents_with(pas.take(i as int), entries@[x].0@)
                    }) by {
                        pas.take(i as int).lemma_filter_push(
                            pas[i as int],
                            |p: lookup::PitchAccent| p.reading@ == entries@[x].0@,
                        );
                        if x != k as int {
                            assert(entries@[x].0@ != pas[i as int].reading@);
                        }
                    }
                }
            },
            None => {
                proof {
                    assert(!rds.contains(pas[i as int].reading@)) by {
                        if rds.contains(pas[i as int].reading@) {
                            let w = choose|w: int|
                                0 <= w < rds.len() && rds[w] == pas[i as int].reading@;
                            assert(entries@[w].0@ == pas[i as int].reading@);
                        }
                    }
                    assert(readings_fold(pas.take(i + 1)) == rds.push(pas[i as int].reading@));
                }
                let converted = convert_pitch_accent(pa);
                let mut list: Vec<PitchAccentEntry> = Vec::new();
                list.push(converted);
                let ghost before = entries@;
                entries.push((pa.reading.clone(), PitchAccentEntryList { entries: list }));
                proof {
                    assert forall|x: int| 0 <= x < entries@.len() implies accents_with(
                        pas.take(i + 1),
                        (#[trigger] entries@[x]).0@,
                    ) == (if x == entries@.len() - 1 {
                        accents_with(pas.take(i as int), entries@[x].0@).push(pas[i as int])
                    } else {
                        accents_with(pas.take(i as int), entries@[x].0@)
                    }) by {
                        pas.take(i as int).lemma_filter_push(
                            pas[i as int],
                            |p: lookup::PitchAccent| p.reading@ == entries@[x].0@,
                        );
                        if x < entries@.len() - 1 {
                            assert(entries@[x] == before[x]);
                            assert(entries@[x].0@ != pas[i as int].reading@);
                        }
                    }
                    assert(accents_with(pas.take(i as int), pas[i as int].reading@)
                        =~= Seq::<lookup::PitchAccent>::empty()) by {
                        lemma_accents_with_absent(pas.take(i as int), pas[i as int].reading@);
                    }
                }
            },
        }
        i = i + 1;
    }
    proof {
        assert(pas.take(n as int) =~= pas);
    }
    PitchAccentResult { title: pr.title.clone(), entries }
}

/// A reading no accent carries filters to nothing.
proof fn lemma_accents_with_absent(pas: Seq<lookup::PitchAccent>, rd: Seq<char>)
    requires
        !readings_fold(pas).contains(rd),
    ensures
        accents_with(pas, rd) =~= Seq::<lookup::PitchAccent>::empty(),
    decreases pas.len(),
{
    broadcast use vstd::prelude::Seq::lemma_filter_push;

    if pas.len() > 0 {
        let prev = pas.drop_last();
        assert(!readings_fold(prev).contains(rd)) by {
            if readings_fold(prev).contains(rd) {
                let w = choose|w: int|
                    0 <= w < readings_fold(prev).len() && readings_fold(prev)[w] == rd;
                lemma_readings_fold_grows(prev, pas.last().reading@, w);
            }
        }
        lemma_accents_with_absent(prev, rd);
        assert(pas.last().reading@ != rd) by {
            if pas.last().reading@ == rd {
                if readings_fold(prev).contains(rd) {
                } else {
                    assert(readings_fold(pas)[readings_fold(pas).len() - 1] == rd);
                    assert(readings_fold(pas).contains(rd));
                }
            }
        }
        assert(prev.push(pas.last()) =~= pas);
        prev.lemma_filter_push(pas.last(), |p: lookup::PitchAccent| p.reading@ == rd);
    } else {
        assert(pas =~= Seq::<lookup::PitchAccent>::empty());
        reveal_with_fuel(Seq::<lookup::PitchAccent>::filter, 1);
    }
}

/// Every reading in the fold of a prefix stays in the fold after one more
/// accent.
proof fn lemma_readings_fold_grows(prev: Seq<lookup::PitchAccent>, last_rd: Seq<char>, w: int)
    requires
        0 <= w < readings_fold(prev).len(),
    ensures
        add_reading(readings_fold(prev), last_rd).contains(readings_fold(prev)[w]),
{
    let rds = readings_fold(prev);
    if rds.contains(last_rd) {
        assert(add_reading(rds, last_rd) == rds);
        assert(rds.contains(rds[w]));
    } else {
        assert(add_reading(rds, last_rd)[w] == rds[w]);
        assert(add_reading(rds, last_rd).contains(rds[w]));
    }
}

/// Whether a request path belongs to the administrative surface.
pub fn is_admin_route(path: &str) -> (r: bool)
    ensures
        r == (path@ == "/api/upload-dict"@ || path@ == "/api/print-dicts"@ || path@
            == "/api/scan-dicts"@ || path@ == "/api/import-progress/admin"@),
{
    str_eq(path, "/api/upload-dict") || str_eq(path, "/api/print-dicts") || str_eq(
        path,
        "/api/scan-dicts",
    ) || str_eq(path, "/api/import-progress/admin")
}

/// The decimal digit character of one digit value.
pub open spec fn digit_char(d: nat) -> char {
    if d == 0 {
        '0'
    } else if d == 1 {
        '1'
    } else if d == 2 {
        '2'
    } else if d == 3 {
        '3'
    } else if d == 4 {
        '4'
    } else if d == 5 {
        '5'
    } else if d == 6 {
        '6'
    } else if d == 7 {
        '7'
    } else if d == 8 {
        '8'
    } else {
        '9'
    }
}

/// The decimal representation of a number, most significant digit first.
pub open spec fn dec_rep(n: nat) -> Seq<char>
    decreases n,
{
    if n < 10 {
        seq![digit_char(n)]
    } else {
        dec_rep(n / 10).push(digit_char(n % 10))
    }
}

fn digit_of(d: u64) -> (r: char)
    requires
        d < 10,
    ensures
        r == digit_char(d as nat),
{
    if d == 0 {
        '0'
    } else if d == 1 {
        '1'
    } else if d == 2 {
        '2'
    } else if d == 3 {
        '3'
    } else if d == 4 {
        '4'
    } else if d == 5 {
        '5'
    } else if d == 6 {
        '6'
    } else if d == 7 {
        '7'
    } else if d == 8 {
        '8'
    } else {
        '9'
    }
}

/// Renders a number in decimal.
pub fn u64_to_decimal(n: u64) -> (r: String)
    ensures
        r@ == dec_rep(n as nat),
{
    let mut digits: Vec<char> = Vec::new();
    let mut m = n;
    loop
        invariant_except_break
            digits@.len() == 0 ==> m == n,
            m > 0 ==> dec_rep(n as nat) =~= dec_rep(m as nat) + digits@.reverse(),
            (m == 0 && digits@.len() > 0) ==> dec_rep(n as nat) =~= digits@.reverse(),
            m <= n,
        ensures
            digits@.len() > 0,
            dec_rep(n as nat) =~= digits@.reverse(),
        decreases m, (if digits@.len() == 0 { 1int } else { 0int }),
    {
        if m == 0 && digits.len() > 0 {
            break;
        }
        let ghost m0 = m as nat;
        let ghost before = digits@;
        let d = m % 10;
        digits.push(digit_of(d));
        m = m / 10;
        proof {
            assert(digits@.reverse() =~= seq![digit_char((m0 % 10) as nat)] + before.reverse());
            if m0 < 10 {
                assert(dec_rep(m0) =~= seq![digit_char(m0)]);
                assert(m0 % 10 == m0);
                assert(dec_rep(n as nat) =~= digits@.reverse());
            } else {
                assert(dec_rep(m0) =~= dec_rep(m0 / 10).push(digit_char((m0 % 10) as nat)));
                assert(dec_rep(m0 / 10).push(digit_char((m0 % 10) as nat)) + before.reverse()
                    =~= dec_rep(m0 / 10) + digits@.reverse());
            }
        }
    }
    let mut out = String::new();
    let k = digits.len();
    let mut i: usize = 0;
    while i < k
        invariant
            i <= k,
            k == digits@.len(),
            out@ =~= digits@.reverse().take(i as int),
        decreases k - i,
    {
        crate::text::push_char(&mut out, digits[k - 1 - i]);
        proof {
            assert(digits@.reverse()[i as int] == digits@[k - 1 - i]);
            assert(out@ =~= digits@.reverse().take(i + 1));
        }
        i = i + 1;
    }
    proof {
        assert(digits@.reverse().take(k as int) =~= digits@.reverse());
    }
    out
}

/// The human-readable form of a duration in seconds: hours, minutes and
/// seconds, with leading zero units left off.
pub open spec fn duration_text(total_seconds: nat) -> Seq<char> {
    let hours = total_seconds / 3600;
    let minutes = (total_seconds % 3600) / 60;
    let seconds = total_seconds % 60;
    if hours > 0 {
        dec_rep(hours) + "h "@ + dec_rep(minutes) + "m "@ + dec_rep(seconds) + "s"@
    } else if minutes > 0 {
        dec_rep(minutes) + "m "@ + dec_rep(seconds) + "s"@
    } else {
        dec_rep(seconds) + "s"@
    }
}

/// Formats a duration of whole seconds the way progress reports show it.
pub fn format_duration(total_seconds: u64) -> (r: String)
    ensures
        r@ == duration_text(total_seconds as nat),
{
    let hours = total_seconds / 3600;
    let minutes = (total_seconds % 3600) / 60;
    let seconds = total_seconds % 60;
    if hours > 0 {
        let mut out = u64_to_decimal(hours);
        out.append("h ");
        out.append(u64_to_decimal(minutes).as_str());
        out.append("m ");
        out.append(u64_to_decimal(seconds).as_str());
        out.append("s");
        proof {
            assert(out@ =~= duration_text(total_seconds as nat));
        }
        out
    } else if minutes > 0 {
        let mut out = u64_to_decimal(minutes);
        out.append("m ");
        out.append(u64_to_decimal(seconds).as_str());
        out.append("s");
        proof {
            assert(out@ =~= duration_text(total_seconds as nat));
        }
        out
    } else {
        let mut out = u64_to_decimal(seconds);
        out.append("s");
        proof {
            assert(out@ =~= duration_text(total_seconds as nat));
        }
        out
    }
}

} // verus!
