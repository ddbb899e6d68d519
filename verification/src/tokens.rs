//! Token features from the morphological analyzer, and the compound
//! candidates built from them. The analyzer itself is an outside
//! collaborator: it hands over surface and feature strings, and this
//! module turns them into an ordered candidate list.

use vstd::prelude::*;
use vstd::string::StrSliceExecFns;
use vstd::string::StringExecFns;

use crate::text::{split_on_char, split_sep, str_eq};

verus! {

broadcast use vstd::prelude::Seq::to_multiset_ensures, vstd::multiset::group_multiset_axioms;

/// One analyzed token: the text as it appears plus the analyzer's feature
/// fields.
#[derive(Debug, Clone)]
pub struct TokenFeature {
    pub surface_form: Option<String>,
    pub pos: Option<String>,
    pub pos_subtype_1: Option<String>,
    pub pos_subtype_2: Option<String>,
    pub pos_subtype_3: Option<String>,
    pub conjugation_type: Option<String>,
    pub conjugation_form: Option<String>,
    pub dictionary_form: Option<String>,
    pub reading: Option<String>,
    pub pronunciation: Option<String>,
}

pub struct TokenFeatureV {
    pub surface_form: Option<Seq<char>>,
    pub pos: Option<Seq<char>>,
    pub pos_subtype_1: Option<Seq<char>>,
    pub pos_subtype_2: Option<Seq<char>>,
    pub pos_subtype_3: Option<Seq<char>>,
    pub conjugation_type: Option<Seq<char>>,
    pub conjugation_form: Option<Seq<char>>,
    pub dictionary_form: Option<Seq<char>>,
    pub reading: Option<Seq<char>>,
    pub pronunciation: Option<Seq<char>>,
}

impl View for TokenFeature {
    type V = TokenFeatureV;

    open spec fn view(&self) -> TokenFeatureV {
        TokenFeatureV {
            surface_form: self.surface_form.deep_view(),
            pos: self.pos.deep_view(),
            pos_subtype_1: self.pos_subtype_1.deep_view(),
            pos_subtype_2: self.pos_subtype_2.deep_view(),
            pos_subtype_3: self.pos_subtype_3.deep_view(),
            conjugation_type: self.conjugation_type.deep_view(),
            conjugation_form: self.conjugation_form.deep_view(),
            dictionary_form: self.dictionary_form.deep_view(),
            reading: self.reading.deep_view(),
            pronunciation: self.pronunciation.deep_view(),
        }
    }
}

pub open spec fn tokens_view(ts: Seq<TokenFeature>) -> Seq<TokenFeatureV> {
    ts.map_values(|t: TokenFeature| t@)
}

/// One comma-separated feature field, absent when missing or `*`.
pub open spec fn feat_field(fields: Seq<Seq<char>>, i: int) -> Option<Seq<char>> {
    if 0 <= i < fields.len() && i < 9 && fields[i] != "*"@ {
        Some(fields[i])
    } else {
        None
    }
}

/// What a surface form and its comma-separated feature string parse into.
pub open spec fn token_feature_of(surface: Seq<char>, feature: Seq<char>) -> TokenFeatureV {
    let fields = split_sep(feature, ',');
    TokenFeatureV {
        surface_form: Some(surface),
        pos: feat_field(fields, 0),
        pos_subtype_1: feat_field(fields, 1),
        pos_subtype_2: feat_field(fields, 2),
        pos_subtype_3: feat_field(fields, 3),
        conjugation_type: feat_field(fields, 4),
        conjugation_form: feat_field(fields, 5),
        dictionary_form: feat_field(fields, 6),
        reading: feat_field(fields, 7),
        pronunciation: feat_field(fields, 8),
    }
}

fn take_field(fields: &Vec<String>, i: usize) -> (r: Option<String>)
    ensures
        r.deep_view() == feat_field(fields.deep_view(), i as int),
{
    if i < fields.len() && i < 9 && !str_eq(fields[i].as_str(), "*") {
        Some(fields[i].clone())
    } else {
        None
    }
}

impl TokenFeature {
    /// Parses an analyzer feature string: comma-separated fields, a `*`
    /// or missing field meaning absent, fields beyond the ninth ignored.
    pub fn from_feature_string(surface_form: &str, feature_string: &str) -> (r: TokenFeature)
        ensures
            r@ == token_feature_of(surface_form@, feature_string@),
    {
        let fields = split_on_char(feature_string, ',');
        proof {
            assert(fields.deep_view() =~= split_sep(feature_string@, ','));
        }
        TokenFeature {
            surface_form: Some(String::from_str(surface_form)),
            pos: take_field(&fields, 0),
            pos_subtype_1: take_field(&fields, 1),
            pos_subtype_2: take_field(&fields, 2),
            pos_subtype_3: take_field(&fields, 3),
            conjugation_type: take_field(&fields, 4),
            conjugation_form: take_field(&fields, 5),
            dictionary_form: take_field(&fields, 6),
            reading: take_field(&fields, 7),
            pronunciation: take_field(&fields, 8),
        }
    }
}

/// One raw token as the analyzer hands it over.
#[derive(Debug, Clone)]
pub struct RawToken {
    pub surface: String,
    pub feature: String,
}

pub open spec fn raw_view(ts: Seq<RawToken>) -> Seq<(Seq<char>, Seq<char>)> {
    ts.map_values(|t: RawToken| (t.surface@, t.feature@))
}

/// The surface length a candidate is ranked by.
pub open spec fn surface_len(t: TokenFeatureV) -> int {
    match t.surface_form {
        Some(s) => s.len() as int,
        None => 0,
    }
}

/// The noun-run compounds from position `j` on: for every further noun
/// token, one candidate whose surface and dictionary form are the
/// concatenation so far.
pub open spec fn noun_run(
    tokens: Seq<(Seq<char>, Seq<char>)>,
    base: TokenFeatureV,
    j: int,
    acc: Seq<char>,
) -> Seq<TokenFeatureV>
    decreases tokens.len() - j,
{
    if 0 <= j < tokens.len() && token_feature_of(tokens[j].0, tokens[j].1).pos == Some("名詞"@) {
        let acc2 = acc + tokens[j].0;
        seq![
            TokenFeatureV { surface_form: Some(acc2), dictionary_form: Some(acc2), ..base },
        ] + noun_run(tokens, base, j + 1, acc2)
    } else {
        Seq::empty()
    }
}

/// The candidates of the token that holds the cursor: compounds first,
/// then the token itself.
pub open spec fn focus_candidates(tokens: Seq<(Seq<char>, Seq<char>)>) -> Seq<TokenFeatureV>
    recommends
        tokens.len() > 0,
{
    let base = token_feature_of(tokens[0].0, tokens[0].1);
    if base.pos == Some("詞"@) {
        if tokens.len() > 1 && token_feature_of(tokens[1].0, tokens[1].1).pos == Some("動詞"@) {
            let next = token_feature_of(tokens[1].0, tokens[1].1);
            let dict_a = match base.dictionary_form {
                Some(d) => d,
                None => tokens[0].0,
            };
            let dict_b = match next.dictionary_form {
                Some(d) => d,
                None => tokens[1].0,
            };
            seq![
                TokenFeatureV {
                    surface_form: Some(tokens[0].0 + tokens[1].0),
                    dictionary_form: Some(dict_a + dict_b),
                    ..base
                },
                base,
            ]
        } else {
            seq![base]
        }
    } else if base.pos == Some("名詞"@) {
        noun_run(tokens, base, 1, tokens[0].0) + seq![base]
    } else {
        seq![base]
    }
}

/// All candidates for a cursor position: those of the token whose span
/// holds the position, or none when the position lies past the text.
pub open spec fn candidates_spec(tokens: Seq<(Seq<char>, Seq<char>)>, position: int) -> Seq<
    TokenFeatureV,
>
    decreases tokens.len(),
{
    if tokens.len() == 0 {
        Seq::empty()
    } else if position < tokens[0].0.len() && position >= 0 {
        focus_candidates(tokens)
    } else {
        candidates_spec(tokens.drop_first(), position - tokens[0].0.len())
    }
}

pub open spec fn sorted_by_len_desc(ts: Seq<TokenFeatureV>) -> bool {
    forall|i: int, j: int|
        0 <= i < j < ts.len() ==> surface_len(#[trigger] ts[i]) >= surface_len(#[trigger] ts[j])
}

fn clone_token(t: &TokenFeature) -> (r: TokenFeature)
    ensures
        r@ == t@,
{
    TokenFeature {
        surface_form: clone_opt(&t.surface_form),
        pos: clone_opt(&t.pos),
        pos_subtype_1: clone_opt(&t.pos_subtype_1),
        pos_subtype_2: clone_opt(&t.pos_subtype_2),
        pos_subtype_3: clone_opt(&t.pos_subtype_3),
        conjugation_type: clone_opt(&t.conjugation_type),
        conjugation_form: clone_opt(&t.conjugation_form),
        dictionary_form: clone_opt(&t.dictionary_form),
        reading: clone_opt(&t.reading),
        pronunciation: clone_opt(&t.pronunciation),
    }
}

fn clone_opt(o: &Option<String>) -> (r: Option<String>)
    ensures
        r.deep_view() == o.deep_view(),
        match o {
            Some(s) => r == Some(*s),
            None => r is None,
        },
{
    match o {
        Some(s) => Some(s.clone()),
        None => None,
    }
}

fn surface_len_exec(t: &TokenFeature) -> (r: usize)
    ensures
        r as int == surface_len(t@),
{
    match &t.surface_form {
        Some(s) => s.as_str().unicode_len(),
        None => 0,
    }
}

/// Sorts candidates by surface length, longest first, keeping the same
/// collection of candidates.
fn sort_by_len_desc(input: Vec<TokenFeature>) -> (r: Vec<TokenFeature>)
    ensures
        sorted_by_len_desc(tokens_view(r@)),
        tokens_view(r@).to_multiset() == tokens_view(input@).to_multiset(),
        r@.len() == input@.len(),
{
    let ghost orig = tokens_view(input@);
    let mut rest = input;
    let mut out: Vec<TokenFeature> = Vec::new();
    proof {
        assert(tokens_view(out@) =~= Seq::<TokenFeatureV>::empty());
        tokens_view(out@).to_multiset_ensures();
        assert(orig =~= tokens_view(rest@));
        assert(orig.to_multiset() =~= tokens_view(out@).to_multiset().add(
            tokens_view(rest@).to_multiset(),
        )) by {
            assert forall|e: TokenFeatureV|
                orig.to_multiset().count(e) == tokens_view(out@).to_multiset().count(e)
                    + tokens_view(rest@).to_multiset().count(e) by {
                assert(tokens_view(out@).to_multiset().count(e) <= tokens_view(
                    out@,
                ).to_multiset().len());
            }
        }
    }
    while rest.len() > 0
        invariant
            orig.to_multiset() =~= tokens_view(out@).to_multiset().add(
                tokens_view(rest@).to_multiset(),
            ),
            out@.len() + rest@.len() == orig.len(),
            sorted_by_len_desc(tokens_view(out@)),
            forall|i: int, j: int|
                0 <= i < out@.len() && 0 <= j < rest@.len() ==> surface_len(
                    #[trigger] out@[i]@,
                ) >= surface_len(#[trigger] rest@[j]@),
        decreases rest@.len(),
    {
        let mut m: usize = 0;
        let mut mlen: usize = surface_len_exec(&rest[0]);
        let mut k: usize = 1;
        while k < rest.len()
            invariant
                rest@.len() > 0,
                m < rest@.len(),
                k <= rest@.len(),
                mlen as int == surface_len(rest@[m as int]@),
                forall|j: int| 0 <= j < k ==> surface_len(#[trigger] rest@[j]@) <= mlen as int,
            decreases rest@.len() - k,
        {
            let l = surface_len_exec(&rest[k]);
            if l > mlen {
                m = k;
                mlen = l;
            }
            k = k + 1;
        }
        let ghost rest_before = rest@;
        let ghost out_before = out@;
        let x = rest.remove(m);
        out.push(x);
        proof {
            let rbv = tokens_view(rest_before);
            let obv = tokens_view(out_before);
            rbv.to_multiset_ensures();
            obv.to_multiset_ensures();
            tokens_view(out@).to_multiset_ensures();
            tokens_view(rest@).to_multiset_ensures();
            assert(tokens_view(rest@) =~= rbv.remove(m as int)) by {
                assert(rest@ =~= rest_before.remove(m as int));
                assert forall|j: int| 0 <= j < rest@.len() implies tokens_view(rest@)[j]
                    == rbv.remove(m as int)[j] by {
                    if j < m as int {
                        assert(rest@[j] == rest_before[j]);
                    } else {
                        assert(rest@[j] == rest_before[j + 1]);
                    }
                }
            }
            assert(rbv.remove(m as int).to_multiset() =~= rbv.to_multiset().remove(
                rbv[m as int],
            ));
            assert(rbv[m as int] == x@);
            assert(tokens_view(out@) =~= obv.push(x@)) by {
                assert(out@ =~= out_before.push(x));
                assert forall|j: int| 0 <= j < out@.len() implies tokens_view(out@)[j]
                    == obv.push(x@)[j] by {
                    if j < out_before.len() {
                        assert(out@[j] == out_before[j]);
                    } else {
                        assert(out@[j] == x);
                    }
                }
            }
            assert(obv.push(x@).to_multiset() =~= obv.to_multiset().insert(x@));
            assert(rbv.contains(x@)) by {
                assert(rbv[m as int] == x@);
            }
            assert(rbv.to_multiset().count(x@) > 0);
            assert(orig.to_multiset() =~= tokens_view(out@).to_multiset().add(
                tokens_view(rest@).to_multiset(),
            )) by {
                assert forall|e: TokenFeatureV|
                    orig.to_multiset().count(e) == tokens_view(out@).to_multiset().count(e)
                        + tokens_view(rest@).to_multiset().count(e) by {
                    assert(orig.to_multiset().count(e) == obv.to_multiset().count(e)
                        + rbv.to_multiset().count(e));
                }
            }
            // ordering: the chosen element is maximal among what remains
            assert forall|i: int, j: int|
                0 <= i < out@.len() && 0 <= j < rest@.len() implies surface_len(
                #[trigger] out@[i]@,
            ) >= surface_len(#[trigger] rest@[j]@) by {
                let jj = if j < m as int {
                    j
                } else {
                    j + 1
                };
                assert(rest@[j] == rest_before[jj]);
                if i < out@.len() - 1 {
                    assert(out@[i] == out_before[i]);
                    assert(surface_len(out_before[i]@) >= surface_len(rest_before[jj]@));
                } else {
                    assert(out@[i] == x);
                    assert(surface_len(rest_before[jj]@) <= mlen as int);
                }
            }
            assert forall|i: int, j: int| 0 <= i < j < out@.len() implies surface_len(
                #[trigger] tokens_view(out@)[i],
            ) >= surface_len(#[trigger] tokens_view(out@)[j]) by {
                assert(tokens_view(out@)[i] == out@[i]@);
                assert(tokens_view(out@)[j] == out@[j]@);
                if j == out@.len() - 1 {
                    assert(out@[j] == x);
                    assert(out@[i] == out_before[i]);
                    assert(surface_len(out_before[i]@) >= surface_len(rest_before[m as int]@));
                } else {
                    assert(out@[i] == out_before[i]);
                    assert(out@[j] == out_before[j]);
                }
            }
        }
    }
    proof {
        assert(tokens_view(rest@) =~= Seq::<TokenFeatureV>::empty());
        tokens_view(rest@).to_multiset_ensures();
        assert(tokens_view(rest@).to_multiset().len() == 0);
        assert(tokens_view(out@).to_multiset() =~= orig.to_multiset()) by {
            assert forall|e: TokenFeatureV|
                tokens_view(out@).to_multiset().count(e) == orig.to_multiset().count(e) by {
                assert(tokens_view(rest@).to_multiset().count(e) <= tokens_view(
                    rest@,
                ).to_multiset().len());
                assert(orig.to_multiset().count(e) == tokens_view(out@).to_multiset().count(e)
                    + tokens_view(rest@).to_multiset().count(e));
            }
        }
    }
    out
}

fn opt_is(p: &Option<String>, s: &str) -> (r: bool)
    ensures
        r == (p.deep_view() == Some(s@)),
{
    match p {
        Some(t) => str_eq(t.as_str(), s),
        None => false,
    }
}

/// Builds the ordered candidate list for a cursor position: the token
/// holding the position, its noun-run or particle-verb compounds, all
/// sorted by surface length with the longest candidate first.
pub fn analyze_tokens(tokens: &Vec<RawToken>, position: usize) -> (r: Vec<TokenFeature>)
    ensures
        sorted_by_len_desc(tokens_view(r@)),
        tokens_view(r@).to_multiset() == candidates_spec(
            raw_view(tokens@),
            position as int,
        ).to_multiset(),
{
    let ghost raw = raw_view(tokens@);
    let n = tokens.len();
    let mut i: usize = 0;
    let mut rem: usize = position;
    let mut found = false;
    proof {
        assert(raw.skip(0) =~= raw);
    }
    while i < n && !found
        invariant
            i <= n,
            n == tokens@.len(),
            raw == raw_view(tokens@),
            raw.len() == n,
            forall|j: int| 0 <= j < n ==> raw[j] == ((#[trigger] tokens@[j]).surface@, tokens@[j].feature@),
            candidates_spec(raw, position as int) == candidates_spec(
                raw.skip(i as int),
                rem as int,
            ),
            found ==> i < n && (rem as int) < raw[i as int].0.len(),
        decreases n - i + (if found { 0int } else { 1int }),
    {
        let len_i = tokens[i].surface.as_str().unicode_len();
        if rem < len_i {
            found = true;
        } else {
            proof {
                assert(raw.skip(i as int)[0] == raw[i as int]);
                assert(raw.skip(i as int).drop_first() =~= raw.skip(i + 1));
            }
            rem = rem - len_i;
            i = i + 1;
        }
    }
    if !found {
        proof {
            assert(raw.skip(n as int) =~= Seq::<(Seq<char>, Seq<char>)>::empty());
        }
        let empty: Vec<TokenFeature> = Vec::new();
        proof {
            assert(tokens_view(empty@) =~= Seq::<TokenFeatureV>::empty());
            assert(tokens_view(empty@).to_multiset() =~= candidates_spec(
                raw,
                position as int,
            ).to_multiset());
        }
        return empty;
    }
    let ghost sk = raw.skip(i as int);
    proof {
        assert(sk[0] == raw[i as int]);
        assert(candidates_spec(raw, position as int) == focus_candidates(sk));
    }
    let base = TokenFeature::from_feature_string(
        tokens[i].surface.as_str(),
        tokens[i].feature.as_str(),
    );
    let mut entries: Vec<TokenFeature> = Vec::new();
    if opt_is(&base.pos, "\u{8a5e}") {
        // counter or particle followed by a verb makes one compound
        if i + 1 < n {
            let next = TokenFeature::from_feature_string(
                tokens[i + 1].surface.as_str(),
                tokens[i + 1].feature.as_str(),
            );
            proof {
                assert(sk[1] == raw[i + 1]);
                assert(next@ == token_feature_of(sk[1].0, sk[1].1));
            }
            if opt_is(&next.pos, "\u{52d5}\u{8a5e}") {
                let dict_a = match &base.dictionary_form {
                    Some(d) => d.clone(),
                    None => tokens[i].surface.clone(),
                };
                let dict_b = match &next.dictionary_form {
                    Some(d) => d.clone(),
                    None => tokens[i + 1].surface.clone(),
                };
                let mut surface = tokens[i].surface.clone();
                surface.append(tokens[i + 1].surface.as_str());
                let mut dict = dict_a;
                dict.append(dict_b.as_str());
                let mut compound = clone_token(&base);
                compound.surface_form = Some(surface);
                compound.dictionary_form = Some(dict);
                entries.push(compound);
            }
        }
    } else if opt_is(&base.pos, "\u{540d}\u{8a5e}") {
        // a run of nouns: each growing prefix is a candidate
        let mut acc = tokens[i].surface.clone();
        let mut j = i + 1;
        loop
            invariant_except_break
                i < n,
                i < j <= n,
                n == tokens@.len(),
                raw == raw_view(tokens@),
                raw.len() == n,
                sk == raw.skip(i as int),
                forall|jj: int| 0 <= jj < n ==> raw[jj] == ((#[trigger] tokens@[jj]).surface@, tokens@[jj].feature@),
                base@ == token_feature_of(sk[0].0, sk[0].1),
                noun_run(sk, base@, 1, sk[0].0) =~= tokens_view(entries@) + noun_run(
                    sk,
                    base@,
                    j - i,
                    acc@,
                ),
            ensures
                noun_run(sk, base@, 1, sk[0].0) =~= tokens_view(entries@),
            decreases n - j,
        {
            if j >= n {
                proof {
                    assert(noun_run(sk, base@, j - i, acc@) =~= Seq::<TokenFeatureV>::empty());
                }
                break;
            }
            let next = TokenFeature::from_feature_string(
                tokens[j].surface.as_str(),
                tokens[j].feature.as_str(),
            );
            proof {
                assert(sk[j - i] == raw[j as int]);
            }
            if !opt_is(&next.pos, "\u{540d}\u{8a5e}") {
                proof {
                    assert(noun_run(sk, base@, j - i, acc@) =~= Seq::<TokenFeatureV>::empty());
                }
                break;
            }
            acc.append(tokens[j].surface.as_str());
            let mut cand = clone_token(&base);
            cand.surface_form = Some(acc.clone());
            cand.dictionary_form = Some(acc.clone());
            entries.push(cand);
            proof {
                assert(tokens_view(entries@) =~= tokens_view(entries@.drop_last()).push(
                    entries@.last()@,
                ));
                assert(noun_run(sk, base@, 1, sk[0].0) =~= tokens_view(entries@) + noun_run(
                    sk,
                    base@,
                    j + 1 - i,
                    acc@,
                ));
            }
            j = j + 1;
        }
    }
    entries.push(clone_token(&base));
    proof {
        assert(tokens_view(entries@) =~= tokens_view(entries@.drop_last()).push(base@));
        assert(tokens_view(entries@) =~= focus_candidates(sk));
    }
    sort_by_len_desc(entries)
}

} // verus!