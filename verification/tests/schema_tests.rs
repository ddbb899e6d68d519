//! Schema decoding, encoding and validation against concrete shard rows.

use jreader::index::{decode_index, is_valid_iso_language_code};
use jreader::json::{json_to_text, parse_json, JsonValue};
use jreader::kanji_bank::{decode_kanji_entry, encode_kanji_entry, KanjiEntry};
use jreader::kanji_meta_bank::{decode_kanji_meta_entry, encode_kanji_meta_entry};
use jreader::schema::JNum;
use jreader::tag_bank::{decode_tag_entry, encode_tag_entry};
use jreader::term_bank::{decode_term_entry, encode_term_entry, Definition};
use jreader::term_meta_bank::{decode_term_meta_entry, FrequencyData, TermMetaData};
use jreader::tokens::TokenFeature;

fn parse(s: &str) -> JsonValue {
    parse_json(s).expect("test JSON parses")
}

fn first_entry(s: &str) -> JsonValue {
    match parse(s) {
        JsonValue::Arr(mut items) => items.remove(0),
        _ => panic!("expected an array"),
    }
}

#[test]
fn test_null_tags_deserialization() {
    let json_str = r#"[
        ["糖","とう",null,"",0,["definition"],30679,""]
    ]"#;
    let entry = decode_term_entry(first_entry(json_str)).expect("entry decodes");
    assert_eq!(entry.text, "糖");
    assert_eq!(entry.reading, "とう");
    assert_eq!(entry.tags, None);
    assert_eq!(entry.rule_identifiers, "");
}

#[test]
fn test_empty_string_tags_deserialization() {
    let json_str = r#"[
        ["糖質","とうしつ","","",0,["definition"],122471,""]
    ]"#;
    let entry = decode_term_entry(first_entry(json_str)).expect("entry decodes");
    assert_eq!(entry.text, "糖質");
    assert_eq!(entry.reading, "とうしつ");
    assert_eq!(entry.tags, None);
}

#[test]
fn test_space_separated_tags_deserialization() {
    let json_str = r#"[
        ["打","だ","n","n",1,["definition"],1,"E1"]
    ]"#;
    let entry = decode_term_entry(first_entry(json_str)).expect("entry decodes");
    assert_eq!(entry.text, "打");
    assert_eq!(entry.reading, "だ");
    assert_eq!(entry.tags, Some(vec!["n".to_string()]));
    assert_eq!(entry.term_tags, Some(vec!["E1".to_string()]));
}

#[test]
fn test_multiple_space_separated_tags_deserialization() {
    let json_str = r#"[
        ["打","ダース","n abbr","n",1,["definition"],2,"E1 P"]
    ]"#;
    let entry = decode_term_entry(first_entry(json_str)).expect("entry decodes");
    assert_eq!(entry.text, "打");
    assert_eq!(
        entry.tags,
        Some(vec!["n".to_string(), "abbr".to_string()])
    );
    assert_eq!(
        entry.term_tags,
        Some(vec!["E1".to_string(), "P".to_string()])
    );
}

#[test]
fn test_mixed_null_and_empty_tags() {
    let json_str = r#"[
        ["糖","とう",null,"",0,["def1"],1,""],
        ["糖質","とうしつ","","",0,["def2"],2,"P E1"],
        ["打","だ","n","n",1,["def3"],3,null]
    ]"#;
    let items = match parse(json_str) {
        JsonValue::Arr(items) => items,
        _ => panic!("expected an array"),
    };
    let entries: Vec<_> = items
        .into_iter()
        .map(|v| decode_term_entry(v).expect("entry decodes"))
        .collect();
    assert_eq!(entries.len(), 3);
    assert_eq!(entries[0].tags, None);
    assert_eq!(entries[0].term_tags, None);
    assert_eq!(entries[1].tags, None);
    assert_eq!(
        entries[1].term_tags,
        Some(vec!["P".to_string(), "E1".to_string()])
    );
    assert_eq!(entries[2].tags, Some(vec!["n".to_string()]));
    assert_eq!(entries[2].term_tags, None);
}

#[test]
fn term_entry_decodes_fields() {
    let row = r#"[["打","だ","n","n",1,["da def 1","da def 2"],1,"E1"]]"#;
    let entry = decode_term_entry(first_entry(row)).expect("entry decodes");
    assert_eq!(entry.text, "打");
    assert_eq!(entry.reading, "だ");
    assert_eq!(entry.rule_identifiers, "n");
    assert_eq!(entry.score, JNum::Int(1));
    assert_eq!(entry.sequence_number, 1);
    assert_eq!(entry.definitions.len(), 2);
    assert_eq!(
        entry.definitions[0],
        Definition::Simple("da def 1".to_string())
    );
}

#[test]
fn term_entry_round_trips() {
    let row = r#"["打つ","うつ","vt","v5",10,["utsu definition 1",{"content":"x","type":"text"},{"baseForm":"打つ","inflections":["て"]}],3,"P E1"]"#;
    let value = parse(row);
    let again = parse(row);
    let entry = decode_term_entry(value).expect("entry decodes");
    let encoded = encode_term_entry(&entry);
    assert_eq!(encoded, again);
}

#[test]
fn term_meta_rows_decode_by_kind() {
    let freq = parse(r#"["打","freq",1]"#);
    let e = decode_term_meta_entry(&freq).expect("frequency entry decodes");
    assert_eq!(e.term, "打");
    assert_eq!(e.entry_type, "freq");
    assert_eq!(e.data, TermMetaData::Frequency(FrequencyData::SimpleNumber(1)));

    let pitch = parse(r#"["打ち込む","pitch",{"pitches":[{"position":0}],"reading":"うちこむ"}]"#);
    let e = decode_term_meta_entry(&pitch).expect("pitch entry decodes");
    match e.data {
        TermMetaData::Pitch(pd) => {
            assert_eq!(pd.reading, "うちこむ");
            assert_eq!(pd.pitches.len(), 1);
            assert_eq!(pd.pitches[0].position, 0);
        }
        _ => panic!("expected pitch data"),
    }

    let detailed = parse(r#"["打","freq",{"displayValue":"twenty-seven","value":27}]"#);
    let e = decode_term_meta_entry(&detailed).expect("detailed frequency decodes");
    let u = e.maybe_frequency().expect("frequency union");
    assert_eq!(u.display_value, Some("twenty-seven".to_string()));
    assert_eq!(u.value, None);

    let ipa = parse(r#"["好き","ipa",{"reading":"すき","transcriptions":[{"ipa":"ski","tags":["t"]}]}]"#);
    let e = decode_term_meta_entry(&ipa).expect("ipa entry decodes");
    match e.data {
        TermMetaData::Ipa(d) => assert_eq!(d.reading, "すき"),
        _ => panic!("expected ipa data"),
    }
}

#[test]
fn term_meta_entry_round_trips() {
    for row in [
        r#"["打","freq",1]"#,
        r#"["打","freq","four"]"#,
        r#"["打","freq",{"reading":"だ","frequency":8}]"#,
        r#"["打","freq",{"displayValue":"twenty-seven","reading":"ダース","value":27}]"#,
        r#"["打ち込む","pitch",{"pitches":[{"position":0},{"nasal":3,"position":3}],"reading":"うちこむ"}]"#,
        r#"["お手前","pitch",{"pitches":[{"position":2,"tags":["P1"]}],"reading":"おてまえ"}]"#,
        r#"["好き","ipa",{"reading":"すき","transcriptions":[{"ipa":"[ski]","tags":["t"]}]}]"#,
    ] {
        let value = parse(row);
        let again = parse(row);
        let entry = jreader::term_meta_bank::decode_term_meta_entry(&value)
            .expect("term meta entry decodes");
        let encoded = jreader::term_meta_bank::encode_term_meta_entry(&entry);
        assert_eq!(encoded, again, "row {row}");
    }
}

#[test]
fn tag_entry_round_trips() {
    let row = r#"["E1","default",0,"example tag 1",0]"#;
    let value = parse(row);
    let again = parse(row);
    let entry = decode_tag_entry(&value).expect("tag entry decodes");
    assert_eq!(entry.tag_name, "E1");
    assert_eq!(entry.category, "default");
    assert_eq!(entry.notes, "example tag 1");
    let encoded = encode_tag_entry(&entry);
    assert_eq!(encoded, again);
}

#[test]
fn kanji_entry_round_trips_and_validates() {
    let row = r#"["打","ダ ダアス","う.つ う.ち- ぶ.つ","K1 K2",["m1"],{"kstat1":"v1","kstat2":"v2"}]"#;
    let value = parse(row);
    let again = parse(row);
    let entry = decode_kanji_entry(&value).expect("kanji entry decodes");
    assert_eq!(entry.0, "打");
    assert_eq!(entry.1, "ダ ダアス");
    assert_eq!(entry.4, vec!["m1".to_string()]);
    assert!(entry.validate().is_ok());
    let encoded = encode_kanji_entry(&entry);
    assert_eq!(encoded, again);

    let empty = KanjiEntry(
        String::new(),
        String::new(),
        String::new(),
        String::new(),
        Vec::new(),
        Vec::new(),
    );
    assert!(empty.validate().is_err());
}

#[test]
fn kanji_meta_entry_round_trips() {
    for row in [
        r#"["打","freq",1]"#,
        r#"["打","freq","three"]"#,
        r#"["込","freq",{"displayValue":"six","value":6}]"#,
        r#"["込","freq",{"value":5}]"#,
    ] {
        let value = parse(row);
        let again = parse(row);
        let entry = decode_kanji_meta_entry(&value).expect("kanji meta entry decodes");
        let encoded = encode_kanji_meta_entry(&entry);
        assert_eq!(encoded, again, "row {row}");
    }
}

#[test]
fn test_valid_dictionary1_index() {
    let text = r#"{"title":"Test Dictionary","revision":"test","format":3,"sequenced":true}"#;
    let index = decode_index(&parse(text)).expect("index decodes");
    assert_eq!(index.title, "Test Dictionary");
    assert_eq!(index.revision, "test");
    assert_eq!(index.format, Some(3));
    assert!(index.sequenced);
    assert!(index.author.is_none());
    assert!(index.index_url.is_none());
    assert!(index.download_url.is_none());
    assert!(index.url.is_none());
    assert!(index.description.is_none());
    assert!(index.attribution.is_none());
    assert!(index.tag_meta.is_none());
    assert!(index.source_language.is_none());
    assert!(index.target_language.is_none());
    assert!(index.frequency_mode.is_none());
    index.validate().expect("index should be valid");
}

#[test]
fn index_validation_rejects_bad_fields() {
    let bad_format = decode_index(&parse(r#"{"title":"T","revision":"r","format":4}"#))
        .expect("index decodes");
    assert!(bad_format.validate().is_err());

    let bad_lang = decode_index(&parse(r#"{"title":"T","revision":"r","sourceLanguage":"Japanese"}"#))
        .expect("index decodes");
    assert!(bad_lang.validate().is_err());

    let updatable = decode_index(&parse(r#"{"isUpdatable":true,"revision":"r","title":"T"}"#))
        .expect("index decodes");
    assert!(updatable.validate().is_err());

    assert!(is_valid_iso_language_code("ja"));
    assert!(is_valid_iso_language_code("jpn"));
    assert!(!is_valid_iso_language_code("JA"));
    assert!(!is_valid_iso_language_code("j"));
}

#[test]
fn index_accepts_version_alias() {
    let index = decode_index(&parse(r#"{"revision":"r","title":"T","version":2}"#))
        .expect("index decodes");
    assert_eq!(index.format, Some(2));
    index.validate().expect("valid");
}

#[test]
fn json_text_round_trips_through_parser() {
    let text = r#"{"a":[1,2.5,"x",null,true],"b":{"c":[]}}"#;
    let v = parse(text);
    let rendered = json_to_text(&v);
    let reparsed = parse(&rendered);
    assert_eq!(v, reparsed);
}

#[test]
fn from_feature_string_pads_and_drops_stars() {
    let f = TokenFeature::from_feature_string("打つ", "動詞,一般,*,*,五段,終止形,打つ,ウツ");
    assert_eq!(f.surface_form, Some("打つ".to_string()));
    assert_eq!(f.pos, Some("動詞".to_string()));
    assert_eq!(f.pos_subtype_2, None);
    assert_eq!(f.conjugation_type, Some("五段".to_string()));
    assert_eq!(f.dictionary_form, Some("打つ".to_string()));
    assert_eq!(f.reading, Some("ウツ".to_string()));
    assert_eq!(f.pronunciation, None);
}

#[test]
fn format_duration_breaks_into_units() {
    assert_eq!(jreader::convert::format_duration(0), "0s");
    assert_eq!(jreader::convert::format_duration(59), "59s");
    assert_eq!(jreader::convert::format_duration(61), "1m 1s");
    assert_eq!(jreader::convert::format_duration(3600), "1h 0m 0s");
    assert_eq!(jreader::convert::format_duration(3723), "1h 2m 3s");
    assert_eq!(jreader::convert::u64_to_decimal(1234567890), "1234567890");
}

#[test]
fn it_works() {
    let result = jreader::add(2, 2);
    assert_eq!(result, 4);
}
